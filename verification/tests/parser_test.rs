use chess_lib::api::internal_can_do_move;
use chess_lib::api::internal_get_applied_move;
use chess_lib::api::internal_get_available_moves;
use chess_lib::chess_raw::AdditionalMoveData;
use chess_lib::chess_raw::Color;
use chess_lib::chess_raw::Coord;
use chess_lib::chess_raw::PieceKind;
use chess_lib::errors::ChessError;
use chess_lib::parser::parse_fen;
use chess_lib::parser::parse_move;
use chess_lib::parser::parse_piece_repr;
use chess_lib::parser::try_parse_coord;

const INITIAL: &str = "rnbqkbnr/pppppppp/8/8/8/8/PPPPPPPP/RNBQKBNR w KQkq - 0 1";

#[test]
fn piece_letters_parse_both_cases() {
    let wb = parse_piece_repr('B').unwrap();
    assert_eq!(wb.piece_kind, PieceKind::Bishiop);
    assert_eq!(wb.clr, Color::White);
    let bb = parse_piece_repr('b').unwrap();
    assert_eq!(bb.piece_kind, PieceKind::Bishiop);
    assert_eq!(bb.clr, Color::Black);
    assert!(parse_piece_repr('x').is_none());
    assert!(parse_piece_repr('1').is_none());
}

#[test]
fn move_strings_parse() {
    let m = parse_move("e2e4").unwrap();
    assert_eq!(m.from, Coord(5, 2));
    assert_eq!(m.to, Coord(5, 4));
    assert_eq!(m.additional, None);

    let m = parse_move("a7a8q").unwrap();
    assert_eq!(m.additional, Some(AdditionalMoveData::Promotion(PieceKind::Queen)));

    let m = parse_move("e1g1c").unwrap();
    assert_eq!(m.additional, Some(AdditionalMoveData::Castling));
}

#[test]
fn move_string_length_is_checked() {
    assert_eq!(parse_move("e2e"), Err(ChessError::MoveLength));
    assert_eq!(parse_move("e2e4qq"), Err(ChessError::MoveLength));
    assert_eq!(
        internal_can_do_move(INITIAL, "e2e"),
        Err("move should have len 4 or len 5".to_string())
    );
}

#[test]
fn bad_promotion_letter_is_rejected() {
    assert_eq!(parse_move("a7a8x"), Err(ChessError::WrongPromotionSymbol));
    assert_eq!(
        internal_can_do_move(INITIAL, "a7a8x"),
        Err("promotion data includes wrong piece symbol".to_string())
    );
}

#[test]
fn lone_dash_is_no_square() {
    assert_eq!(try_parse_coord("-"), Err(ChessError::DashNotAllowed));
    assert_eq!(try_parse_coord("e4"), Ok(Coord(5, 4)));
    assert_eq!(try_parse_coord("e4!"), Err(ChessError::CoordLength));
}

#[test]
fn fen_needs_exactly_six_fields() {
    let expected = Err("Incorrect format, fen should be 6 strings split by space".to_string());
    assert_eq!(internal_get_available_moves(""), expected);
    assert_eq!(
        internal_get_available_moves("rnbqkbnr/pppppppp/8/8/8/8/PPPPPPPP/RNBQKBNR w KQkq -"),
        expected
    );
    assert_eq!(internal_get_available_moves(&format!("{INITIAL} extra")), expected);
}

#[test]
fn side_to_move_letter_is_checked() {
    assert_eq!(
        internal_get_available_moves("8/8/8/8/8/8/8/8 x - - 0 1"),
        Err("Unknown letter color".to_string())
    );
}

#[test]
fn castling_field_errors() {
    assert_eq!(
        internal_get_available_moves("8/8/8/8/8/8/8/8 w KQkqK - 0 1"),
        Err("Castling data is too long".to_string())
    );
    assert_eq!(
        internal_get_available_moves("8/8/8/8/8/8/8/8 w KK - 0 1"),
        Err("Castling data contains illegal symbol".to_string())
    );
    assert_eq!(
        internal_get_available_moves("8/8/8/8/8/8/8/8 w xy - 0 1"),
        Err("Castling data contains illegal symbol".to_string())
    );
}

#[test]
fn en_passant_field_length_is_checked() {
    assert_eq!(
        internal_get_available_moves("8/8/8/8/8/8/8/8 w - abc 0 1"),
        Err("during parsing en_passant:Coord contains more or less than two chars".to_string())
    );
}

#[test]
fn placement_digit_overflow_is_reported() {
    assert_eq!(
        internal_get_available_moves("9/8/8/8/8/8/8/8 w - - 0 1"),
        Err("number overflows at index 0".to_string())
    );
    assert_eq!(
        internal_get_available_moves("45/8/8/8/8/8/8/8 w - - 0 1"),
        Err("number overflows at index 1".to_string())
    );
}

#[test]
fn placement_rank_boundary_needs_slash() {
    assert_eq!(
        internal_get_available_moves("8p/8/8/8/8/8/8/8 w - - 0 1"),
        Err("Expected \"/\" at 1 index instead found p".to_string())
    );
}

#[test]
fn placement_unknown_symbol_is_reported_with_index() {
    assert_eq!(
        internal_get_available_moves("x7/8/8/8/8/8/8/8 w - - 0 1"),
        Err("Unknown/unexpected symbol as a piece at 0 index".to_string())
    );
    assert_eq!(
        internal_get_available_moves("8/8/8/8/8/8/8/7x w - - 0 1"),
        Err("Unknown/unexpected symbol as a piece at 15 index".to_string())
    );
}

#[test]
fn move_geometry_errors_carry_their_messages() {
    assert_eq!(
        internal_get_applied_move(INITIAL, "a0a1"),
        Err("One of the positions in move are not on the board".to_string())
    );
    assert_eq!(
        internal_get_applied_move(INITIAL, "e4e5"),
        Err("Can't move non existing piece".to_string())
    );
    assert_eq!(
        internal_get_applied_move(INITIAL, "e7e5"),
        Err("This is not a Black turn".to_string())
    );
    assert_eq!(
        internal_get_applied_move(INITIAL, "a1a2"),
        Err("Can't move White piece into another White piece".to_string())
    );
    assert_eq!(
        internal_get_applied_move(INITIAL, "e2e5"),
        Err("Impossible move".to_string())
    );
}

#[test]
fn parse_fen_keeps_all_fields() {
    let s = parse_fen("rnbqkbnr/pppppppp/8/8/4P3/8/PPPP1PPP/RNBQKBNR b KQkq e3 7 42").unwrap();
    assert_eq!(s.current, Color::Black);
    assert_eq!(s.en_passant, Some(Coord(5, 3)));
    assert!(s.castling[0].king_side && s.castling[0].queen_side);
    assert!(s.castling[1].king_side && s.castling[1].queen_side);
    assert_eq!(s.pieces_data.get(Coord(5, 4)).map(|p| p.piece_kind), Some(PieceKind::Pawn));
    assert_eq!(s.pieces_data.get(Coord(5, 2)), None);
}

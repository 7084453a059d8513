use chess_lib::chess_raw::CastlingAvailability;
use chess_lib::errors::ChessError;
use chess_lib::chess_raw::Color;
use chess_lib::chess_raw::ColoredPiece;
use chess_lib::chess_raw::Coord;
use chess_lib::chess_raw::Move;
use chess_lib::chess_raw::PieceKind;
use chess_lib::logic::generate_max_move_map;
use chess_lib::logic::read_max_map;
use chess_lib::serializer::charify_color;
use chess_lib::serializer::charify_piece;
use chess_lib::serializer::serialize_fen_castling_av;
use chess_lib::serializer::stringify_coord;
use chess_lib::serializer::stringify_move;

#[test]
fn coordinate_algebra() {
    assert_eq!(Coord(3, 4).add(Coord(1, -2)), Coord(4, 2));
    assert_eq!(Coord(3, 4).sub(Coord(1, -2)), Coord(2, 6));
    assert_eq!(Coord(3, -4).mul(2), Coord(6, -8));
    assert_eq!(Coord(5, -7).piecewise_sign(), Coord(1, -1));
    assert_eq!(Coord(0, 3).piecewise_sign(), Coord(0, 1));
    assert_eq!(Coord(-5, 7).piecewise_abs(), Coord(5, 7));
    assert_eq!(Coord(2, 2).map(|v| v * 3), Coord(6, 6));
    assert_eq!(Coord::make_x(4), Coord(4, 0));
    assert_eq!(Coord::make_y(-1), Coord(0, -1));
    assert_eq!(Coord(2, 7).x(), 2);
    assert_eq!(Coord(2, 7).y(), 7);
}

#[test]
fn point_of_view_flips_for_black() {
    assert_eq!(Coord(0, 1).point_of_view_dir(Color::White), Coord(0, 1));
    assert_eq!(Coord(0, 1).point_of_view_dir(Color::Black), Coord(0, -1));
    assert_eq!(Coord(1, 2).point_of_view_dir(Color::Black), Coord(1, -2));
    assert_eq!(Coord::row_point_of_view(2, Color::White), 2);
    assert_eq!(Coord::row_point_of_view(2, Color::Black), 7);
    assert_eq!(Coord::row_point_of_view(8, Color::Black), 1);
}

#[test]
fn board_bounds() {
    assert!(Coord(1, 1).is_describing_position());
    assert!(Coord(8, 8).is_describing_position());
    assert!(!Coord(0, 5).is_describing_position());
    assert!(!Coord(5, 9).is_describing_position());
}

#[test]
fn color_reverse_and_repr() {
    assert_eq!(Color::White.reverse(), Color::Black);
    assert_eq!(Color::Black.reverse(), Color::White);
    assert_eq!(Color::White.repr(), 0);
    assert_eq!(Color::Black.repr(), 1);
}

#[test]
fn piece_and_color_letters() {
    assert_eq!(charify_piece(None), ' ');
    assert_eq!(charify_piece(Some(ColoredPiece::new(PieceKind::Knight, Color::White))), 'N');
    assert_eq!(charify_piece(Some(ColoredPiece::new(PieceKind::Knight, Color::Black))), 'n');
    assert_eq!(charify_piece(Some(ColoredPiece::new(PieceKind::King, Color::White))), 'K');
    assert_eq!(charify_color(Color::White), 'w');
    assert_eq!(charify_color(Color::Black), 'b');
}

#[test]
fn coordinates_and_moves_print_algebraically() {
    assert_eq!(stringify_coord(Coord(1, 1)), "a1");
    assert_eq!(stringify_coord(Coord(8, 8)), "h8");
    assert_eq!(stringify_coord(Coord(26, 9)), "Corrupted(26,9)");
    assert_eq!(stringify_coord(Coord(-3, 1)), "Corrupted(-3,1)");
    assert_eq!(stringify_move(Move::new(Coord(5, 2), Coord(5, 4))), "e2e4");
    let promo = Move::new_with(
        Coord(1, 7),
        Coord(1, 8),
        Some(chess_lib::chess_raw::AdditionalMoveData::Promotion(PieceKind::Queen)),
    );
    assert_eq!(stringify_move(promo), "a7a8Q");
    let castle = Move::new_with(
        Coord(5, 1),
        Coord(7, 1),
        Some(chess_lib::chess_raw::AdditionalMoveData::Castling),
    );
    assert_eq!(stringify_move(castle), "e1g1c");
}

#[test]
fn castling_field_serialization_order() {
    let all = CastlingAvailability { king_side: true, queen_side: true };
    let none = CastlingAvailability { king_side: false, queen_side: false };
    assert_eq!(serialize_fen_castling_av([all, all]), "KQkq");
    assert_eq!(serialize_fen_castling_av([none, none]), "-");
    assert_eq!(
        serialize_fen_castling_av([CastlingAvailability { king_side: true, queen_side: false }, none]),
        "K"
    );
    assert_eq!(
        serialize_fen_castling_av([none, CastlingAvailability { king_side: false, queen_side: true }]),
        "q"
    );
}

#[test]
fn catalogue_shapes() {
    let white_pawn = read_max_map(ColoredPiece::new(PieceKind::Pawn, Color::White));
    assert_eq!(white_pawn, vec![Coord(0, 1), Coord(0, 2), Coord(-1, 1), Coord(1, 1)]);
    let black_pawn = read_max_map(ColoredPiece::new(PieceKind::Pawn, Color::Black));
    assert_eq!(black_pawn, vec![Coord(0, -1), Coord(0, -2), Coord(-1, -1), Coord(1, -1)]);
    assert_eq!(read_max_map(ColoredPiece::new(PieceKind::Knight, Color::White)).len(), 8);
    assert_eq!(read_max_map(ColoredPiece::new(PieceKind::Bishiop, Color::Black)).len(), 32);
    assert_eq!(read_max_map(ColoredPiece::new(PieceKind::Rook, Color::White)).len(), 32);
    assert_eq!(read_max_map(ColoredPiece::new(PieceKind::Queen, Color::Black)).len(), 64);
    assert_eq!(read_max_map(ColoredPiece::new(PieceKind::King, Color::White)).len(), 8);

    let table = generate_max_move_map();
    assert_eq!(table.len(), 6);
    for pair in &table {
        assert_eq!(pair.len(), 2);
    }
    // pawn lists differ by color, the rest coincide
    assert_eq!(table[0][0], white_pawn);
    assert_eq!(table[0][1], black_pawn);
    assert_eq!(table[5][0], table[5][1]);
    assert!(table[4][0].contains(&Coord(8, 8)));
    assert!(table[3][0].contains(&Coord(0, -8)));
}

#[test]
fn error_messages_render_exactly() {
    assert_eq!(ChessError::ImpossibleMove.message(), "Impossible move");
    assert_eq!(ChessError::WrongTurn(Color::Black).message(), "This is not a Black turn");
    assert_eq!(
        ChessError::UnknownPieceSymbol(207).message(),
        "Unknown/unexpected symbol as a piece at 207 index"
    );
    assert_eq!(
        ChessError::ExpectedSlash(10, 'z').message(),
        "Expected \"/\" at 10 index instead found z"
    );
    assert_eq!(ChessError::NumberOverflow(0).message(), "number overflows at index 0");
}

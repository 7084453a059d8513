use chess_lib::api::internal_can_do_move;
use chess_lib::api::internal_get_applied_move;
use chess_lib::api::internal_get_available_moves;
use chess_lib::api::internal_is_check;
use chess_lib::api::internal_is_lost_condition;
use chess_lib::api::internal_is_pat;
use chess_lib::api::internal_is_white_turn;

const INITIAL: &str = "rnbqkbnr/pppppppp/8/8/8/8/PPPPPPPP/RNBQKBNR w KQkq - 0 1";
const CASTLING_POS: &str = "rnbqkbnr/pppppppp/8/8/8/8/PPPPPPPP/R3K2R w KQkq - 0 1";

#[test]
fn initial_position_has_twenty_moves() {
    let moves = internal_get_available_moves(INITIAL).unwrap();
    assert_eq!(moves.len(), 20);
    assert!(moves.contains(&"e2e4".to_string()));
    assert!(moves.contains(&"e2e3".to_string()));
    assert!(moves.contains(&"g1f3".to_string()));
    assert!(moves.contains(&"b1c3".to_string()));
    // 16 pawn moves, 4 knight moves
    let knight_moves = moves.iter().filter(|m| m.starts_with("b1") || m.starts_with("g1")).count();
    assert_eq!(knight_moves, 4);
}

#[test]
fn every_enumerated_move_is_performable() {
    let moves = internal_get_available_moves(INITIAL).unwrap();
    for m in &moves {
        assert_eq!(internal_can_do_move(INITIAL, m), Ok(true));
        assert!(internal_get_applied_move(INITIAL, m).is_ok());
    }
}

#[test]
fn both_castling_moves_are_enumerated() {
    let moves = internal_get_available_moves(CASTLING_POS).unwrap();
    assert!(moves.contains(&"e1g1".to_string()));
    assert!(moves.contains(&"e1c1".to_string()));
}

#[test]
fn king_side_castling_moves_king_and_rook() {
    let fen = internal_get_applied_move(CASTLING_POS, "e1g1").unwrap();
    assert_eq!(fen, "rnbqkbnr/pppppppp/8/8/8/8/PPPPPPPP/R4RK1 b kq - 0 1");
}

#[test]
fn queen_side_castling_moves_king_and_rook() {
    let fen = internal_get_applied_move(CASTLING_POS, "e1c1").unwrap();
    assert_eq!(fen, "rnbqkbnr/pppppppp/8/8/8/8/PPPPPPPP/2KR3R b kq - 0 1");
}

#[test]
fn pawn_two_step_sets_en_passant_target() {
    let fen = internal_get_applied_move(INITIAL, "e2e4").unwrap();
    assert_eq!(fen, "rnbqkbnr/pppppppp/8/8/4P3/8/PPPP1PPP/RNBQKBNR b KQkq e3 0 1");
}

#[test]
fn non_pawn_reply_clears_en_passant_target() {
    let fen = internal_get_applied_move(INITIAL, "e2e4").unwrap();
    let fen2 = internal_get_applied_move(&fen, "b8c6").unwrap();
    assert_eq!(fen2, "r1bqkbnr/pppppppp/2n5/8/4P3/8/PPPP1PPP/RNBQKBNR w KQkq - 0 1");
}

#[test]
fn en_passant_capture_removes_the_passed_pawn() {
    let start = "rnbqkbnr/ppp1pppp/8/8/3p4/8/PPPPPPPP/RNBQKBNR w KQkq - 0 1";
    let fen = internal_get_applied_move(start, "e2e4").unwrap();
    assert_eq!(fen, "rnbqkbnr/ppp1pppp/8/8/3pP3/8/PPPP1PPP/RNBQKBNR b KQkq e3 0 1");
    let fen2 = internal_get_applied_move(&fen, "d4e3").unwrap();
    assert_eq!(fen2, "rnbqkbnr/ppp1pppp/8/8/8/4p3/PPPP1PPP/RNBQKBNR w KQkq - 0 1");
}

const PROMOTION_POS: &str = "4k3/P7/8/8/8/8/8/4K3 w - - 0 1";

#[test]
fn promotion_to_queen_upper_case() {
    let fen = internal_get_applied_move(PROMOTION_POS, "a7a8Q").unwrap();
    assert_eq!(fen, "Q3k3/8/8/8/8/8/8/4K3 b - - 0 1");
}

#[test]
fn promotion_to_queen_lower_case() {
    let fen = internal_get_applied_move(PROMOTION_POS, "a7a8q").unwrap();
    assert_eq!(fen, "Q3k3/8/8/8/8/8/8/4K3 b - - 0 1");
}

#[test]
fn promotion_to_king_is_coerced_to_queen() {
    let fen = internal_get_applied_move(PROMOTION_POS, "a7a8K").unwrap();
    assert_eq!(fen, "Q3k3/8/8/8/8/8/8/4K3 b - - 0 1");
}

#[test]
fn promotion_without_request_defaults_to_queen() {
    let fen = internal_get_applied_move(PROMOTION_POS, "a7a8").unwrap();
    assert_eq!(fen, "Q3k3/8/8/8/8/8/8/4K3 b - - 0 1");
}

#[test]
fn promotion_to_knight_is_honored() {
    let fen = internal_get_applied_move(PROMOTION_POS, "a7a8N").unwrap();
    assert_eq!(fen, "N3k3/8/8/8/8/8/8/4K3 b - - 0 1");
}

#[test]
fn fen_round_trip_on_canonical_strings() {
    let fens = [
        INITIAL,
        CASTLING_POS,
        "rnbqkbnr/pppppppp/8/8/4P3/8/PPPP1PPP/RNBQKBNR b KQkq e3 0 1",
        "k7/8/1Q6/8/8/8/8/7K b - - 0 1",
        "rnb1kbnr/pppp1ppp/8/4p3/6Pq/5P2/PPPPP2P/RNBQKBNR w KQkq - 0 1",
        "r2q1rk1/ppp2ppp/2n2n2/2bpp3/4P1b1/2NP1N2/PPP1BPPP/R1BQ1RK1 w - - 0 1",
        "8/8/8/8/8/8/8/8 w - - 0 1",
        "4k3/8/8/8/8/8/8/4K2R w K - 0 1",
    ];
    for fen in fens {
        let s = chess_lib::parser::parse_fen(fen).unwrap();
        assert_eq!(chess_lib::serializer::serialize_to_fen(&s), fen);
    }
}

#[test]
fn fen_round_trip_on_initial_position() {
    let fen = internal_get_applied_move(INITIAL, "e2e4").unwrap();
    let back = internal_get_applied_move(&fen, "e7e5").unwrap();
    assert_eq!(back, "rnbqkbnr/pppp1ppp/8/4p3/4P3/8/PPPP1PPP/RNBQKBNR w KQkq e6 0 1");
}

#[test]
fn apply_move_flips_side_to_move() {
    assert_eq!(internal_is_white_turn(INITIAL), Ok(true));
    let fen = internal_get_applied_move(INITIAL, "e2e4").unwrap();
    assert_eq!(internal_is_white_turn(&fen), Ok(false));
    let fen2 = internal_get_applied_move(&fen, "e7e5").unwrap();
    assert_eq!(internal_is_white_turn(&fen2), Ok(true));
}

#[test]
fn castling_flags_never_come_back() {
    // moving the king-side rook withdraws exactly White's king-side right
    let fen = internal_get_applied_move(CASTLING_POS, "h1g1").unwrap();
    assert_eq!(fen, "rnbqkbnr/pppppppp/8/8/8/8/PPPPPPPP/R3K1R1 b Qkq - 0 1");
    // moving the king withdraws both of White's rights
    let fen = internal_get_applied_move(CASTLING_POS, "e1d1").unwrap();
    assert_eq!(fen, "rnbqkbnr/pppppppp/8/8/8/8/PPPPPPPP/R2K3R b kq - 0 1");
}

const FOOLS_MATE: &str = "rnb1kbnr/pppp1ppp/8/4p3/6Pq/5P2/PPPPP2P/RNBQKBNR w KQkq - 0 1";
const STALEMATE: &str = "k7/8/1Q6/8/8/8/8/7K b - - 0 1";
const CHECK_NOT_MATE: &str = "k6R/8/8/8/8/8/8/7K b - - 0 1";

#[test]
fn checkmate_is_lost_and_in_check_with_no_moves() {
    assert_eq!(internal_is_lost_condition(FOOLS_MATE), Ok(true));
    assert_eq!(internal_is_check(FOOLS_MATE), Ok(true));
    assert_eq!(internal_is_pat(FOOLS_MATE), Ok(false));
    let moves = internal_get_available_moves(FOOLS_MATE).unwrap();
    assert_eq!(moves.len(), 0);
}

#[test]
fn stalemate_is_pat_and_not_check() {
    assert_eq!(internal_is_pat(STALEMATE), Ok(true));
    assert_eq!(internal_is_check(STALEMATE), Ok(false));
    assert_eq!(internal_is_lost_condition(STALEMATE), Ok(false));
    let moves = internal_get_available_moves(STALEMATE).unwrap();
    assert_eq!(moves.len(), 0);
}

#[test]
fn check_without_mate_is_neither_lost_nor_pat() {
    assert_eq!(internal_is_check(CHECK_NOT_MATE), Ok(true));
    assert_eq!(internal_is_lost_condition(CHECK_NOT_MATE), Ok(false));
    assert_eq!(internal_is_pat(CHECK_NOT_MATE), Ok(false));
}

#[test]
fn a_move_that_exposes_the_king_is_rejected() {
    let pinned = "4k3/4r3/8/8/8/8/4B3/4K3 w - - 0 1";
    assert_eq!(internal_can_do_move(pinned, "e2d3"), Ok(false));
    assert_eq!(
        internal_get_applied_move(pinned, "e2d3"),
        Err("king could be attacked then".to_string())
    );
    // the bishop cannot slide along the file, so every bishop move stays illegal
    assert_eq!(internal_can_do_move(pinned, "e2e3"), Ok(false));
    assert_eq!(internal_can_do_move(pinned, "e2d1"), Ok(false));
    // stepping the king off the file is fine
    assert_eq!(internal_can_do_move(pinned, "e1d1"), Ok(true));
}

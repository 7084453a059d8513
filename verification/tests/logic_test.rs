use chess_lib::chess_raw::ChessState;
use chess_lib::helpers::apply_mvp;
use chess_lib::helpers::can_mvp;
use chess_lib::helpers::skip;
use chess_lib::parser::parse_fen;

fn white_vs_king() -> ChessState {
    parse_fen("k7/8/8/8/8/8/PPPPPPPP/RNBQKBNR w KQkq - 0 1").unwrap()
}

#[test]
fn test_king_moves() {
    let mut s = white_vs_king();

    skip(&mut s);
    assert!(can_mvp(&s, "a8a7"));

    assert!(!can_mvp(&s, "a8a9"));

    assert!(can_mvp(&s, "a8b7"));

    assert!(!can_mvp(&s, "a8b6"));

    apply_mvp(&mut s, "a8b7").unwrap();
    skip(&mut s);

    assert!(can_mvp(&s, "b7b6"));
    assert!(can_mvp(&s, "b7b8"));

    assert!(can_mvp(&s, "b7a7"));
    assert!(can_mvp(&s, "b7c7"));

    assert!(can_mvp(&s, "b7a8"));
    assert!(can_mvp(&s, "b7c6"));
    assert!(can_mvp(&s, "b7a6"));
    assert!(can_mvp(&s, "b7c8"));
}

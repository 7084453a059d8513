use std::collections::HashSet;

use chess_lib::chess_raw::Move;
use chess_lib::logic::get_available_moves;
use chess_lib::logic::get_available_moves_slow;
use chess_lib::parser::parse_fen;

fn sets_agree(fen: &str) {
    let s = parse_fen(fen).unwrap();
    let fast: HashSet<Move> = get_available_moves(&s).into_iter().collect();
    let slow: HashSet<Move> = get_available_moves_slow(&s).into_iter().collect();
    assert_eq!(fast, slow, "enumerations disagree on {fen}");
}

#[test]
fn enumerations_agree_on_sample_positions() {
    sets_agree("rnbqkbnr/pppppppp/8/8/8/8/PPPPPPPP/RNBQKBNR w KQkq - 0 1");
    sets_agree("rnbqkbnr/pppppppp/8/8/8/8/PPPPPPPP/R3K2R w KQkq - 0 1");
    sets_agree("r1bqkbnr/pppppppp/2n5/8/4P3/8/PPPP1PPP/RNBQKBNR w KQkq - 0 1");
    sets_agree("rnbqkbnr/ppp1pppp/8/8/3pP3/8/PPPP1PPP/RNBQKBNR b KQkq e3 0 1");
    sets_agree("k7/8/1Q6/8/8/8/8/7K b - - 0 1");
    sets_agree("4k3/P7/8/8/8/8/8/4K3 w - - 0 1");
    sets_agree("rnb1kbnr/pppp1ppp/8/4p3/6Pq/5P2/PPPPP2P/RNBQKBNR w KQkq - 0 1");
}

#[test]
fn enumerations_agree_along_a_played_line() {
    let mut s = parse_fen("rnbqkbnr/pppppppp/8/8/8/8/PPPPPPPP/RNBQKBNR w KQkq - 0 1").unwrap();
    for _ply in 0..12 {
        let fast: HashSet<Move> = get_available_moves(&s).into_iter().collect();
        let slow: HashSet<Move> = get_available_moves_slow(&s).into_iter().collect();
        assert_eq!(fast, slow);
        if fast.is_empty() {
            break;
        }
        // deterministic pick: the lexicographically smallest spelling
        let mut spelled: Vec<(String, Move)> = fast
            .into_iter()
            .map(|m| (chess_lib::serializer::stringify_move(m), m))
            .collect();
        spelled.sort_by(|a, b| a.0.cmp(&b.0));
        let mv = spelled[0].1;
        chess_lib::logic::apply_move(&mut s, mv).unwrap();
    }
}

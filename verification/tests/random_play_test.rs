use std::collections::HashSet;

use rand::Rng;

use chess_lib::chess_raw::Move;
use chess_lib::logic;
use chess_lib::parser;

#[test]
fn get_available_moves_fast_test() {
    let mut r = rand_mt::Mt19937GenRand32::new(3333);
    for _i in 1..100 {
        let mut s = parser::parse_fen("rnbqkbnr/pppppppp/8/8/8/8/PPPPPPPP/RNBQKBNR w KQkq - 0 1")
            .unwrap();
        for _j in 1..100 {
            let fast: HashSet<Move> =
                HashSet::from_iter(logic::get_available_moves(&s).into_iter());
            let mut dif: HashSet<Move> =
                HashSet::from_iter(logic::get_available_moves_slow(&s).into_iter());
            for el in &fast {
                dif.remove(el);
            }
            assert_eq!(dif, HashSet::new());

            let len = fast.len();
            if len == 0 {
                break;
            }
            let any = fast.into_iter().nth(r.gen_range(0..len)).unwrap();
            let _ = logic::apply_move(&mut s, any);
        }
    }
}

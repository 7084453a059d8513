//! Small conveniences for driving the engine with move strings, shared by
//! the test suite.

use vstd::prelude::*;

use crate::chess_raw::ChessState;
use crate::chess_raw::Move;
use crate::chess_raw::StateModel;
use crate::errors::ChessError;
use crate::logic::apply_move;
use crate::logic::can_do_move;
use crate::logic::get_available_moves;
use crate::logic::spec_check_move;
use crate::logic::spec_is_legal;
use crate::parser::parse_move;
use crate::parser::spec_parse_move;

verus! {

/// Parse a move string that is known to be well formed.
pub fn mv(a: &str) -> (r: Move)
    requires
        spec_parse_move(a@) is Ok,
    ensures
        Ok::<Move, ChessError>(r) == spec_parse_move(a@),
{
    match parse_move(a) {
        Ok(m) => m,
        Err(_) => {
            proof {
                assert(false);
            }
            Move::new(crate::chess_raw::Coord(1, 1), crate::chess_raw::Coord(1, 1))
        },
    }
}

/// Apply the move named by the string to the position.
pub fn apply_mvp(state: &mut ChessState, a: &str) -> (r: Result<(), ChessError>)
    requires
        old(state).wf(),
        spec_parse_move(a@) is Ok,
    ensures
        final(state).wf(),
        ({
            let mov = spec_parse_move(a@).unwrap();
            &&& (r is Ok) == (spec_check_move(old(state)@, mov, true, false) is Ok)
            &&& match spec_check_move(old(state)@, mov, true, false) {
                Ok(es) => final(state)@ == crate::chess_raw::apply_effects_model(
                    old(state)@,
                    es,
                ),
                Err(e) => r == Err::<(), ChessError>(e) && final(state)@ == old(state)@,
            }
        }),
{
    let mov = mv(a);
    apply_move(state, mov)
}

fn contains_move(v: &Vec<Move>, m: Move) -> (r: bool)
    ensures
        r == v@.contains(m),
{
    let mut i: usize = 0;
    while i < v.len()
        invariant
            i <= v@.len(),
            forall|k: int| 0 <= k < i ==> v@[k] != m,
        decreases v@.len() - i,
    {
        if v[i] == m {
            return true;
        }
        i += 1;
    }
    proof {
        assert(!v@.contains(m)) by {
            if v@.contains(m) {
                let k = choose|k: int| 0 <= k < v@.len() && v@[k] == m;
            }
        }
    }
    false
}

/// The move named by the string is legal, and the enumeration agrees: it
/// yields that move (so this is false for annotated spellings such as an
/// explicit promotion, which the enumeration never emits).
pub fn can_mvp(state: &ChessState, a: &str) -> (r: bool)
    requires
        state.wf(),
        spec_parse_move(a@) is Ok,
    ensures
        r == spec_is_legal(state@, spec_parse_move(a@).unwrap()),
{
    let mov = mv(a);
    let direct = can_do_move(state, mov, true, false);
    if !direct {
        return false;
    }
    let moves = get_available_moves(state);
    contains_move(&moves, mov)
}

/// Hand the turn to the other color without moving a piece.
pub fn skip(state: &mut ChessState)
    requires
        old(state).wf(),
    ensures
        final(state).wf(),
        final(state)@ == (StateModel { current: old(state)@.current.rev(), ..old(state)@ }),
{
    state.current = state.current.reverse();
}

} // verus!

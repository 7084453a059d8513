//! The engine's cross-cutting laws, each stated and proved over the spec
//! functions that the executable routines are verified against.
//!
//! Two further laws live as contracts rather than lemmas here: both
//! [`crate::logic::get_available_moves`] and
//! [`crate::logic::get_available_moves_slow`] ensure membership exactly on
//! [`crate::logic::spec_is_legal`], and [`crate::logic::apply_move`] ensures
//! that the side to move flips and that no castling flag turns back on.

use vstd::prelude::*;

use crate::chess_raw::apply_effects_model;
use crate::chess_raw::Move;
use crate::chess_raw::StateModel;
use crate::errors::ChessError;
use crate::logic::castling_weaker;
use crate::logic::lemma_effects_castling_weaker;
use crate::logic::lemma_move_flips_side;
use crate::logic::spec_can_be_attacked;
use crate::logic::spec_check_move;
use crate::logic::spec_first_king;
use crate::logic::spec_in_check;
use crate::logic::spec_is_checkmate;
use crate::logic::spec_is_legal;
use crate::logic::spec_is_stalemate;
use crate::logic::spec_no_moves;

verus! {

/// Law: every move the enumeration yields passes the legality check, and
/// applying it succeeds. `can_do_move` answers exactly whether
/// `spec_check_move` accepts, and `apply_move` returns `Ok` exactly when it
/// does, so both follow from this statement over the spec.
pub proof fn lemma_enumerated_moves_performable(m: StateModel, mv: Move)
    requires
        spec_is_legal(m, mv),
    ensures
        spec_check_move(m, mv, true, false) is Ok,
{
}

/// Law: applying a legal move always hands the turn to the other color.
pub proof fn lemma_apply_flips_side(m: StateModel, mv: Move)
    requires
        m.wf(),
        spec_check_move(m, mv, true, false) is Ok,
    ensures
        match spec_check_move(m, mv, true, false) {
            Ok(es) => apply_effects_model(m, es).current == m.current.rev(),
            Err(_) => true,
        },
{
    lemma_move_flips_side(m, mv, true, false);
}

/// Law: a legal move never turns a castling flag from withdrawn back to
/// available; per color and side the flags only ever go down.
pub proof fn lemma_apply_castling_monotone(m: StateModel, mv: Move)
    requires
        m.wf(),
        spec_check_move(m, mv, true, false) is Ok,
    ensures
        match spec_check_move(m, mv, true, false) {
            Ok(es) => castling_weaker(apply_effects_model(m, es), m),
            Err(_) => true,
        },
{
    match spec_check_move(m, mv, true, false) {
        Ok(es) => {
            lemma_effects_castling_weaker(m, es);
        },
        Err(_) => {},
    }
}

/// Law: a checkmated side is in check and has no legal move.
pub proof fn lemma_lost_implies_check_and_no_moves(m: StateModel)
    requires
        spec_is_checkmate(m),
    ensures
        spec_in_check(m),
        spec_no_moves(m),
{
}

/// Law: stalemate is exactly "no legal move, yet not in check"; equally,
/// "no legal move and not checkmated".
pub proof fn lemma_pat_characterization(m: StateModel)
    ensures
        spec_is_stalemate(m) <==> (!spec_in_check(m) && spec_no_moves(m)),
        spec_is_stalemate(m) <==> (spec_no_moves(m) && !spec_is_checkmate(m)),
{
}

/// Law (king safety soundness): after any legal move, the mover's king —
/// wherever it now stands — cannot be captured in one reply.
pub proof fn lemma_king_safety_sound(m: StateModel, mv: Move)
    requires
        m.wf(),
        spec_check_move(m, mv, true, false) is Ok,
    ensures
        match spec_check_move(m, mv, true, false) {
            Ok(es) => {
                let m2 = apply_effects_model(m, es);
                match spec_first_king(m2, m.current) {
                    Some(kc) => spec_can_be_attacked(m2, kc) != Ok::<bool, ChessError>(true),
                    None => true,
                }
            },
            Err(_) => true,
        },
{
}

/// Law: the catalogue-driven enumeration and the all-pairs enumeration
/// agree as sets of moves. Both enumerators ensure membership exactly on
/// `spec_is_legal`, which is what the two hypotheses state.
pub proof fn lemma_enumerations_agree(m: StateModel, fast: Seq<Move>, slow: Seq<Move>)
    requires
        forall|mv: Move| #[trigger] fast.contains(mv) <==> spec_is_legal(m, mv),
        forall|mv: Move| #[trigger] slow.contains(mv) <==> spec_is_legal(m, mv),
    ensures
        fast.to_set() =~= slow.to_set(),
{
    assert forall|mv: Move| fast.to_set().contains(mv) <==> slow.to_set().contains(mv) by {
        assert(fast.contains(mv) <==> spec_is_legal(m, mv));
        assert(slow.contains(mv) <==> spec_is_legal(m, mv));
    }
}

} // verus!

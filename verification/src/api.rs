//! The string-in, string-out library surface: every operation takes a FEN
//! string (and possibly a move string), so the engine is stateless across
//! calls. Errors come back as their human-readable messages.

use vstd::prelude::*;

use crate::chess_raw::apply_effects_model;
use crate::chess_raw::ChessState;
use crate::chess_raw::Color;
use crate::chess_raw::Move;
use crate::chess_raw::StateModel;
use crate::errors::ChessError;
use crate::logic::get_available_moves;
use crate::logic::is_check;
use crate::logic::is_lost_condition;
use crate::logic::spec_check_move;
use crate::logic::spec_in_check;
use crate::logic::spec_is_checkmate;
use crate::logic::spec_is_legal;
use crate::logic::spec_no_moves;
use crate::parser::parse_fen;
use crate::parser::parse_move;
use crate::parser::spec_parse_fen;
use crate::parser::spec_parse_move;
use crate::serializer::serialize_to_fen;
use crate::serializer::spec_fen_chars;
use crate::serializer::spec_move_chars;
use crate::serializer::stringify_move;

verus! {

/// A parsed position holds the king of the side to move — what the status
/// queries need to locate.
pub open spec fn fen_has_current_king(s: Seq<char>) -> bool {
    match spec_parse_fen(s) {
        Ok(m) => m.has_king(m.current),
        Err(_) => true,
    }
}

/// `v` spells out, move by move, some enumeration `mvs` of exactly the
/// legal moves of `m`.
pub open spec fn spells_legal_moves(m: StateModel, mvs: Seq<Move>, v: Seq<String>) -> bool {
    &&& (forall|mv: Move| #[trigger] mvs.contains(mv) <==> spec_is_legal(m, mv))
    &&& v.len() == mvs.len()
    &&& (forall|k: int| 0 <= k < mvs.len() ==> (#[trigger] v[k])@ == spec_move_chars(mvs[k]))
}

/// The strings `v` spell out some enumeration of exactly the legal moves
/// of `m`.
pub open spec fn spells_the_legal_moves(m: StateModel, v: Seq<String>) -> bool {
    exists|mvs: Seq<Move>| #[trigger] spells_legal_moves(m, mvs, v)
}

/// The legal moves of the position, as move strings.
pub fn internal_get_available_moves(board_fen: &str) -> (r: Result<Vec<String>, String>)
    ensures
        (r is Ok) == (spec_parse_fen(board_fen@) is Ok),
        r matches Ok(v) ==> spells_the_legal_moves(spec_parse_fen(board_fen@)->Ok_0, v@),
        r matches Err(msg) ==> spec_parse_fen(board_fen@) matches Err(e) && msg@
            == e.spec_message(),
{
    let f = match parse_fen(board_fen) {
        Ok(f) => f,
        Err(e) => {
            return Err(e.message());
        },
    };
    let moves = get_available_moves(&f);
    let mut out: Vec<String> = Vec::new();
    let mut i: usize = 0;
    while i < moves.len()
        invariant
            i <= moves@.len(),
            out@.len() == i,
            forall|k: int| 0 <= k < i ==> (#[trigger] out@[k])@ == spec_move_chars(moves@[k]),
        decreases moves@.len() - i,
    {
        out.push(stringify_move(moves[i]));
        i += 1;
    }
    proof {
        let mspec = spec_parse_fen(board_fen@)->Ok_0;
        assert(mspec == f@);
        assert(spells_legal_moves(mspec, moves@, out@));
        assert(spells_the_legal_moves(mspec, out@));
    }
    Ok(out)
}

/// Whether the move string names a legal move in the position.
pub fn internal_can_do_move(board_fen: &str, mv: &str) -> (r: Result<bool, String>)
    ensures
        match (r, spec_parse_fen(board_fen@)) {
            (Err(msg), Err(e)) => msg@ == e.spec_message(),
            (rr, Ok(m)) => match (rr, spec_parse_move(mv@)) {
                (Ok(b), Ok(mov)) => b == (spec_check_move(m, mov, true, false) is Ok),
                (Err(msg), Err(e)) => msg@ == e.spec_message(),
                _ => false,
            },
            _ => false,
        },
{
    let f = match parse_fen(board_fen) {
        Ok(f) => f,
        Err(e) => {
            return Err(e.message());
        },
    };
    let mov = match parse_move(mv) {
        Ok(mo) => mo,
        Err(e) => {
            return Err(e.message());
        },
    };
    Ok(crate::logic::can_do_move(&f, mov, true, false))
}

/// Apply the move to the position and hand back the resulting FEN.
pub fn internal_get_applied_move(board_fen: &str, mv: &str) -> (r: Result<String, String>)
    ensures
        match (r, spec_parse_fen(board_fen@)) {
            (Err(msg), Err(e)) => msg@ == e.spec_message(),
            (rr, Ok(m)) => match (rr, spec_parse_move(mv@)) {
                (Err(msg), Err(e)) => msg@ == e.spec_message(),
                (rrr, Ok(mov)) => match (rrr, spec_check_move(m, mov, true, false)) {
                    (Ok(fen), Ok(es)) => fen@ == spec_fen_chars(apply_effects_model(m, es)),
                    (Err(msg), Err(e)) => msg@ == e.spec_message(),
                    _ => false,
                },
                _ => false,
            },
            _ => false,
        },
{
    let mut f = match parse_fen(board_fen) {
        Ok(f) => f,
        Err(e) => {
            return Err(e.message());
        },
    };
    let mov = match parse_move(mv) {
        Ok(mo) => mo,
        Err(e) => {
            return Err(e.message());
        },
    };
    match crate::logic::apply_move(&mut f, mov) {
        Ok(_) => {},
        Err(e) => {
            return Err(e.message());
        },
    }
    Ok(serialize_to_fen(&f))
}

/// Whether White is to move in the position.
pub fn internal_is_white_turn(board_fen: &str) -> (r: Result<bool, String>)
    ensures
        match (r, spec_parse_fen(board_fen@)) {
            (Ok(b), Ok(m)) => b == (m.current == Color::White),
            (Err(msg), Err(e)) => msg@ == e.spec_message(),
            _ => false,
        },
{
    let f = match parse_fen(board_fen) {
        Ok(f) => f,
        Err(e) => {
            return Err(e.message());
        },
    };
    Ok(matches!(f.current, Color::White))
}

/// Whether the side to move is checkmated.
pub fn internal_is_lost_condition(board_fen: &str) -> (r: Result<bool, String>)
    requires
        fen_has_current_king(board_fen@),
    ensures
        match (r, spec_parse_fen(board_fen@)) {
            (Ok(b), Ok(m)) => b == spec_is_checkmate(m),
            (Err(msg), Err(e)) => msg@ == e.spec_message(),
            _ => false,
        },
{
    let f = match parse_fen(board_fen) {
        Ok(f) => f,
        Err(e) => {
            return Err(e.message());
        },
    };
    Ok(is_lost_condition(&f))
}

/// Whether the side to move stands in check.
pub fn internal_is_check(board_fen: &str) -> (r: Result<bool, String>)
    requires
        fen_has_current_king(board_fen@),
    ensures
        match (r, spec_parse_fen(board_fen@)) {
            (Ok(b), Ok(m)) => b == spec_in_check(m),
            (Err(msg), Err(e)) => msg@ == e.spec_message(),
            _ => false,
        },
{
    let f = match parse_fen(board_fen) {
        Ok(f) => f,
        Err(e) => {
            return Err(e.message());
        },
    };
    Ok(is_check(&f))
}

/// Whether the side to move is stalemated: no legal move, yet not
/// checkmated (equally: not in check — see the pat law).
pub fn internal_is_pat(board_fen: &str) -> (r: Result<bool, String>)
    requires
        fen_has_current_king(board_fen@),
    ensures
        match (r, spec_parse_fen(board_fen@)) {
            (Ok(b), Ok(m)) => b == (spec_no_moves(m) && !spec_is_checkmate(m)),
            (Err(msg), Err(e)) => msg@ == e.spec_message(),
            _ => false,
        },
{
    let f = match parse_fen(board_fen) {
        Ok(f) => f,
        Err(e) => {
            return Err(e.message());
        },
    };
    let moves = get_available_moves(&f);
    let no_moves = moves.len() == 0;
    proof {
        if no_moves {
            assert forall|mv: Move| !spec_is_legal(f@, mv) by {
                assert(!moves@.contains(mv));
            }
        } else {
            assert(moves@.contains(moves@[0]));
        }
    }
    let lost = is_lost_condition(&f);
    Ok(no_moves && !lost)
}

} // verus!

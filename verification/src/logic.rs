//! The rules engine: per-piece move legality, castling, king safety, move
//! application, move enumeration and status queries.
//!
//! Every executable routine mirrors a spec-level function over [`StateModel`]
//! exactly; the spec functions are the authoritative definition of what a
//! legal move is and which effects it produces.

use vstd::math::abs;
use vstd::math::max;
use vstd::prelude::*;

use itertools::Itertools;

use crate::chess_raw::AdditionalMoveData;
use crate::chess_raw::apply_effect;
use crate::chess_raw::apply_effects_model;
use crate::chess_raw::coord_plus;
use crate::chess_raw::effect_wf;
use crate::chess_raw::effects_wf;
use crate::chess_raw::forward_of;
use crate::chess_raw::grid_at;
use crate::chess_raw::spec_on_board;
use crate::chess_raw::wf_grid;
use crate::chess_raw::BoardPiecesState;
use crate::chess_raw::CastlingType;
use crate::chess_raw::ChessState;
use crate::chess_raw::Color;
use crate::chess_raw::ColoredPiece;
use crate::chess_raw::Coord;
use crate::chess_raw::Effect;
use crate::chess_raw::EffectHelper;
use crate::chess_raw::Move;
use crate::chess_raw::PieceKind;
use crate::chess_raw::StateModel;
use crate::errors::ChessError;

verus! {

broadcast use vstd::seq_lib::lemma_seq_contains_after_push;

// ------------------------------------------------------------------
// Board scanning order
// ------------------------------------------------------------------
/// The `k`-th square in scanning order: files slowest, ranks fastest,
/// both ascending. `square_at(0)` is a1, `square_at(63)` is h8.
pub open spec fn square_at(k: int) -> Coord {
    Coord((1 + k / 8) as i32, (1 + k % 8) as i32)
}

pub open spec fn square_index(c: Coord) -> int {
    (c.0 - 1) * 8 + (c.1 - 1)
}

pub proof fn lemma_square_index(c: Coord)
    requires
        spec_on_board(c),
    ensures
        0 <= square_index(c) < 64,
        square_at(square_index(c)) == c,
{
    let k = square_index(c);
    assert(k == 8 * (c.0 - 1) + (c.1 - 1));
    assert(k == 8 * (k / 8) + k % 8);
    assert(0 <= k % 8 < 8);
    assert(k / 8 == c.0 - 1 && k % 8 == c.1 - 1) by {
        let d = (k / 8) - (c.0 - 1);
        assert(8 * d == (c.1 - 1) - k % 8);
        assert(-8 < 8 * d < 8);
        assert(d == 0);
    }
}

/// Relies on itertools' `cartesian_product`: yields every pair of a file
/// `1..=8` with a rank `1..=8`, the file varying slowest.
#[verifier::external_body]
fn all_squares() -> (r: Vec<Coord>)
    ensures
        r@.len() == 64,
        forall|k: int| 0 <= k < 64 ==> #[trigger] r@[k] == square_at(k),
{
    (1i32..=8i32).cartesian_product(1i32..=8i32).map(|p: (i32, i32)| Coord(p.0, p.1)).collect()
}

// ------------------------------------------------------------------
// Spec-level geometry
// ------------------------------------------------------------------
/// Largest componentwise distance between the two squares.
pub open spec fn chebdist(a: Coord, b: Coord) -> int {
    max(abs(b.0 - a.0) as int, abs(b.1 - a.1) as int)
}

/// The two squares lie on a common file, rank or diagonal.
pub open spec fn aligned(a: Coord, b: Coord) -> bool {
    b.0 - a.0 == 0 || b.1 - a.1 == 0 || abs(b.0 - a.0) == abs(b.1 - a.1)
}

/// Squares `c`, `c+s`, ..., `c+s*(n-1)` are all empty.
pub open spec fn ray_clear(
    g: Seq<Seq<Option<ColoredPiece>>>,
    c: Coord,
    sx: int,
    sy: int,
    n: int,
) -> bool
    decreases n,
{
    n <= 0 || (grid_at(g, c) is None && ray_clear(
        g,
        Coord((c.0 + sx) as i32, (c.1 + sy) as i32),
        sx,
        sy,
        n - 1,
    ))
}

/// No piece stands strictly between `a` and `b` (exclusive on both ends),
/// walking from `a` toward `b` one componentwise-sign step at a time.
pub open spec fn between_clear(g: Seq<Seq<Option<ColoredPiece>>>, a: Coord, b: Coord) -> bool {
    let sx = Coord::spec_sign(b.0 - a.0);
    let sy = Coord::spec_sign(b.1 - a.1);
    ray_clear(g, Coord((a.0 + sx) as i32, (a.1 + sy) as i32), sx, sy, chebdist(a, b) - 1)
}

// ------------------------------------------------------------------
// Spec-level move handlers
// ------------------------------------------------------------------
/// Pick the piece out of an occupied square (callers establish occupancy).
pub open spec fn piece_of(o: Option<ColoredPiece>) -> ColoredPiece {
    match o {
        Some(p) => p,
        None => ColoredPiece { piece_kind: PieceKind::Pawn, clr: Color::White },
    }
}

/// Lift the piece from the source square onto the destination, then empty
/// the source. The piece value is read from the position as it is now.
pub open spec fn raw_move_effects(m: StateModel, f: Coord, t: Coord) -> Seq<Effect> {
    seq![Effect::SetSquare(t, m.at(f)), Effect::SetSquare(f, None)]
}

pub open spec fn spec_handle_pawn_no_promotion(m: StateModel, b: Move, us: ColoredPiece) -> Option<
    Seq<Effect>,
> {
    let up = forward_of(us.clr);
    let diagonal = (b.to.0 == b.from.0 - 1 || b.to.0 == b.from.0 + 1) && b.to.1 == b.from.1 + up;
    if m.at(b.to) is Some {
        if diagonal {
            Some(raw_move_effects(m, b.from, b.to))
        } else {
            None
        }
    } else if m.en_passant == Some(b.to) {
        if diagonal {
            // the captured pawn's square is off the board only when the
            // en-passant field was parsed from an implausible FEN; such a
            // capture then removes nothing
            let enemy = Coord(b.to.0, (b.to.1 - up) as i32);
            if spec_on_board(enemy) {
                Some(raw_move_effects(m, b.from, b.to).push(Effect::SetSquare(enemy, None)))
            } else {
                Some(raw_move_effects(m, b.from, b.to))
            }
        } else {
            None
        }
    } else {
        let one_up = Coord(b.from.0, (b.from.1 + up) as i32);
        let something_one_up = spec_on_board(one_up) && m.at(one_up) is Some;
        let in_second_row = b.from.1 == Coord::spec_row_pov(2, us.clr);
        let is_one_up = b.to.0 == b.from.0 && b.to.1 == b.from.1 + up;
        let is_two_up = b.to.0 == b.from.0 && b.to.1 == b.from.1 + 2 * up;
        if (in_second_row && is_two_up && !something_one_up) || is_one_up {
            if is_two_up {
                Some(raw_move_effects(m, b.from, b.to).push(Effect::SetEnPassant(one_up)))
            } else {
                Some(raw_move_effects(m, b.from, b.to))
            }
        } else {
            None
        }
    }
}

pub open spec fn promotion_kind(b: Move) -> PieceKind {
    match b.additional {
        Some(AdditionalMoveData::Promotion(p)) => if p == PieceKind::King {
            PieceKind::Queen
        } else {
            p
        },
        _ => PieceKind::Queen,
    }
}

pub open spec fn spec_handle_pawn(m: StateModel, b: Move, us: ColoredPiece) -> Option<
    Seq<Effect>,
> {
    match spec_handle_pawn_no_promotion(m, b, us) {
        None => None,
        Some(es) => if Coord::spec_row_pov(b.to.1 as int, us.clr) != 8 {
            Some(es)
        } else {
            Some(
                es.push(
                    Effect::SetSquare(
                        b.to,
                        Some(ColoredPiece { piece_kind: promotion_kind(b), clr: us.clr }),
                    ),
                ),
            )
        },
    }
}

pub open spec fn spec_handle_rook(m: StateModel, b: Move, us: ColoredPiece) -> Option<
    Seq<Effect>,
> {
    if b.from.0 != b.to.0 && b.from.1 != b.to.1 {
        None
    } else if !between_clear(m.board, b.from, b.to) {
        None
    } else {
        let base = raw_move_effects(m, b.from, b.to);
        let home = Coord::spec_row_pov(1, us.clr);
        if b.from.0 == 1 && b.from.1 == home {
            Some(base.push(Effect::ClearCastlingSide(us.clr, CastlingType::QueenSide)))
        } else if b.from.0 == 8 && b.from.1 == home {
            Some(base.push(Effect::ClearCastlingSide(us.clr, CastlingType::KingSide)))
        } else {
            Some(base)
        }
    }
}

pub open spec fn spec_handle_bishop(m: StateModel, b: Move) -> Option<Seq<Effect>> {
    if abs(b.to.0 - b.from.0) != abs(b.to.1 - b.from.1) {
        None
    } else if !between_clear(m.board, b.from, b.to) {
        None
    } else {
        Some(raw_move_effects(m, b.from, b.to))
    }
}

pub open spec fn spec_handle_queen(m: StateModel, b: Move) -> Option<Seq<Effect>> {
    if (b.from.0 != b.to.0 && b.from.1 != b.to.1) && abs(b.to.0 - b.from.0) != abs(
        b.to.1 - b.from.1,
    ) {
        None
    } else if !between_clear(m.board, b.from, b.to) {
        None
    } else {
        Some(raw_move_effects(m, b.from, b.to))
    }
}

pub open spec fn spec_handle_knight(m: StateModel, b: Move) -> Option<Seq<Effect>> {
    let ax = abs(b.to.0 - b.from.0);
    let ay = abs(b.to.1 - b.from.1);
    if (ax == 2 && ay == 1) || (ax == 1 && ay == 2) {
        Some(raw_move_effects(m, b.from, b.to))
    } else {
        None
    }
}

pub open spec fn spec_handle_king(m: StateModel, b: Move) -> Option<Seq<Effect>> {
    let ax = abs(b.to.0 - b.from.0);
    let ay = abs(b.to.1 - b.from.1);
    if ax + ay == 1 || (ax == ay && ax == 1) {
        Some(raw_move_effects(m, b.from, b.to).push(Effect::ClearCastling(m.current)))
    } else {
        None
    }
}

pub open spec fn spec_handle_castling(m: StateModel, b: Move) -> Option<Seq<Effect>> {
    let t = if b.to.0 < b.from.0 {
        CastlingType::QueenSide
    } else {
        CastlingType::KingSide
    };
    let avail = m.castling_of(m.current);
    if t == CastlingType::KingSide && !avail.king_side {
        None
    } else if t == CastlingType::QueenSide && !avail.queen_side {
        None
    } else {
        match m.at(b.from) {
            None => None,
            Some(piece) => {
                if piece.piece_kind != PieceKind::King {
                    None
                } else if t == CastlingType::KingSide {
                    if !(b.to.0 == b.from.0 + 2 && b.to.1 == b.from.1) {
                        None
                    } else if m.at(Coord((b.from.0 + 1) as i32, b.from.1)) is Some || m.at(b.to)
                        is Some {
                        None
                    } else {
                        Some(
                            raw_move_effects(m, b.from, b.to) + raw_move_effects(
                                m,
                                Coord(8, b.from.1),
                                Coord((b.to.0 - 1) as i32, b.from.1),
                            ) + seq![Effect::ClearCastling(m.current)],
                        )
                    }
                } else {
                    if !(b.to.0 == b.from.0 - 2 && b.to.1 == b.from.1) {
                        None
                    } else if b.from.0 < 4 {
                        // a king this far queenside has no third transit
                        // square on the board, so it cannot castle
                        None
                    } else if m.at(Coord((b.from.0 - 1) as i32, b.from.1)) is Some || m.at(b.to)
                        is Some || m.at(Coord((b.from.0 - 3) as i32, b.from.1)) is Some {
                        None
                    } else {
                        Some(
                            raw_move_effects(m, b.from, b.to) + raw_move_effects(
                                m,
                                Coord(1, b.from.1),
                                Coord((b.to.0 + 1) as i32, b.from.1),
                            ) + seq![Effect::ClearCastling(m.current)],
                        )
                    }
                }
            },
        }
    }
}

pub open spec fn spec_dispatch(m: StateModel, b: Move, us: ColoredPiece) -> Option<Seq<Effect>> {
    match us.piece_kind {
        PieceKind::Pawn => spec_handle_pawn(m, b, us),
        PieceKind::Knight => spec_handle_knight(m, b),
        PieceKind::Bishiop => spec_handle_bishop(m, b),
        PieceKind::Rook => spec_handle_rook(m, b, us),
        PieceKind::Queen => spec_handle_queen(m, b),
        PieceKind::King => spec_handle_king(m, b),
    }
}

// ------------------------------------------------------------------
// Spec-level legality, king lookup and attack test
// ------------------------------------------------------------------
/// The first square in scanning order that holds a king of color `clr`.
pub open spec fn king_scan(m: StateModel, clr: Color, k: int) -> Option<Coord>
    decreases 64 - k,
{
    if k < 0 || k >= 64 {
        None
    } else if m.at(square_at(k)) == Some(ColoredPiece { piece_kind: PieceKind::King, clr }) {
        Some(square_at(k))
    } else {
        king_scan(m, clr, k + 1)
    }
}

pub open spec fn spec_first_king(m: StateModel, clr: Color) -> Option<Coord> {
    king_scan(m, clr, 0)
}

/// The legality pipeline without the king-safety pass: precondition checks,
/// castling, piece dispatch, and the two trailing effects.
pub open spec fn spec_check_move_basic(m: StateModel, b: Move, ic: bool) -> Result<
    Seq<Effect>,
    ChessError,
> {
    if !spec_on_board(b.from) || !spec_on_board(b.to) {
        Err(ChessError::MoveOffBoard)
    } else {
        match m.at(b.from) {
            None => Err(ChessError::NoPieceAtSource),
            Some(piece) => {
                if !ic && piece.clr != m.current {
                    Err(ChessError::WrongTurn(piece.clr))
                } else if m.at(b.to) is Some && piece_of(m.at(b.to)).clr == piece.clr {
                    Err(ChessError::SelfCapture(piece.clr))
                } else {
                    let es_opt = match spec_handle_castling(m, b) {
                        Some(es) => Some(es.push(Effect::FlipSide)),
                        None => match spec_dispatch(m, b, piece) {
                            Some(es0) => Some(
                                es0.push(Effect::ClearEnPassantIfSame(m.en_passant)).push(
                                    Effect::FlipSide,
                                ),
                            ),
                            None => None,
                        },
                    };
                    match es_opt {
                        None => Err(ChessError::ImpossibleMove),
                        Some(es) => Ok(es),
                    }
                }
            },
        }
    }
}

/// Square `a` holds a piece of the other color that could move onto `c`
/// in one move, side-to-move and king safety ignored.
pub open spec fn spec_attacker(m: StateModel, c: Coord, victim_clr: Color, a: Coord) -> bool {
    spec_on_board(a) && match m.at(a) {
        Some(p) => p.clr != victim_clr && spec_check_move_basic(
            m,
            Move { from: a, to: c, additional: None },
            true,
        ) is Ok,
        None => false,
    }
}

/// Some square holds a piece of another color than `victim_clr` that could
/// move onto `c` in one move.
pub open spec fn attacked_by_someone(m: StateModel, c: Coord, victim_clr: Color) -> bool {
    exists|a: Coord| spec_attacker(m, c, victim_clr, a)
}

pub open spec fn spec_can_be_attacked(m: StateModel, c: Coord) -> Result<bool, ChessError> {
    if !spec_on_board(c) {
        Err(ChessError::CoordOutOfBound)
    } else {
        match m.at(c) {
            None => Err(ChessError::NoPieceAtTarget),
            Some(orig) => Ok(attacked_by_someone(m, c, orig.clr)),
        }
    }
}

/// The whole legality pipeline of [`check_move`]: the basic pass, then,
/// when `ks` is set, the king-safety pass on the position the effects
/// would produce.
pub open spec fn spec_check_move(m: StateModel, b: Move, ks: bool, ic: bool) -> Result<
    Seq<Effect>,
    ChessError,
> {
    match spec_check_move_basic(m, b, ic) {
        Err(e) => Err(e),
        Ok(es) => {
            if ks {
                let m2 = apply_effects_model(m, es);
                match spec_first_king(m2, m.current) {
                    None => Ok(es),
                    Some(kc) => {
                        if spec_can_be_attacked(m2, kc) == Ok::<bool, ChessError>(true) {
                            Err(ChessError::KingUnsafe)
                        } else {
                            Ok(es)
                        }
                    },
                }
            } else {
                Ok(es)
            }
        },
    }
}

// ------------------------------------------------------------------
// Relating executable results to spec results
// ------------------------------------------------------------------
pub open spec fn opt_eq(r: Option<Vec<Effect>>, s: Option<Seq<Effect>>) -> bool {
    match (r, s) {
        (Some(v), Some(sq)) => v@ == sq,
        (None, None) => true,
        _ => false,
    }
}

pub open spec fn res_eq(r: Result<Vec<Effect>, ChessError>, s: Result<Seq<Effect>, ChessError>) -> bool {
    match (r, s) {
        (Ok(v), Ok(sq)) => v@ == sq,
        (Err(a), Err(b)) => a == b,
        _ => false,
    }
}

// ------------------------------------------------------------------
// Executable engine
// ------------------------------------------------------------------
/// Append the two effects that lift the moving piece onto its destination.
pub fn raw_move(state: &ChessState, b: Move, effects_ref: &mut Vec<Effect>)
    requires
        state.wf(),
        spec_on_board(b.from),
        spec_on_board(b.to),
    ensures
        final(effects_ref)@ == old(effects_ref)@ + raw_move_effects(state@, b.from, b.to),
{
    effects_ref.push(EffectHelper::get_change(b.to, state.pieces_data.get(b.from)));
    effects_ref.push(EffectHelper::get_change(b.from, None));
    proof {
        assert(final(effects_ref)@ =~= old(effects_ref)@ + raw_move_effects(
            state@,
            b.from,
            b.to,
        ));
    }
}

/// Walk from `start` toward `end` in unit steps of `sign`, and report
/// whether any square strictly between the two is occupied.
pub fn is_anything_in_the_way_excluding(
    state: &ChessState,
    start: Coord,
    sign: Coord,
    end: Coord,
) -> (r: bool)
    requires
        state.wf(),
        spec_on_board(start),
        spec_on_board(end),
        sign.0 as int == Coord::spec_sign(end.0 - start.0),
        sign.1 as int == Coord::spec_sign(end.1 - start.1),
        aligned(start, end),
    ensures
        r == !between_clear(state@.board, start, end),
{
    let mut s = start.add(sign);
    while s != end
        invariant
            state.wf(),
            spec_on_board(start),
            spec_on_board(end),
            spec_on_board(s) || s == end,
            sign.0 as int == Coord::spec_sign(end.0 - start.0),
            sign.1 as int == Coord::spec_sign(end.1 - start.1),
            s != end ==> sign.0 as int == Coord::spec_sign(end.0 - s.0),
            s != end ==> sign.1 as int == Coord::spec_sign(end.1 - s.1),
            aligned(s, end),
            between_clear(state@.board, start, end) == ray_clear(
                state@.board,
                s,
                sign.0 as int,
                sign.1 as int,
                chebdist(s, end),
            ),
        decreases chebdist(s, end),
    {
        if state.pieces_data.get(s).is_some() {
            return true;
        }
        let prev = s;
        s = s.add(sign);
        proof {
            assert(chebdist(s, end) == chebdist(prev, end) - 1);
            assert(s != end ==> spec_on_board(s));
        }
    }
    false
}

/// Pawn displacement, capture, en-passant and double-step logic, without
/// the promotion rewrite.
pub fn handle_pawn_no_promotion(state: &ChessState, b: Move) -> (r: Option<Vec<Effect>>)
    requires
        state.wf(),
        spec_on_board(b.from),
        spec_on_board(b.to),
        state@.at(b.from) is Some,
    ensures
        opt_eq(r, spec_handle_pawn_no_promotion(state@, b, piece_of(state@.at(b.from)))),
{
    let mut effects: Vec<Effect> = Vec::new();
    let us = state.pieces_data.get(b.from).unwrap();
    let maybe_piece_on_target = state.pieces_data.get(b.to);

    let start_pos = b.from;
    let end_pos = b.to;

    let real_up = Coord(0, 1).point_of_view_dir(us.clr);
    let real_down = Coord(0, -1).point_of_view_dir(us.clr);

    let real_up_left = real_up.add(Coord(-1, 0));
    let real_up_right = real_up.add(Coord(1, 0));

    let diagonal = end_pos == start_pos.add(real_up_left) || end_pos == start_pos.add(
        real_up_right,
    );

    if maybe_piece_on_target.is_some() {
        if diagonal {
            raw_move(state, b, &mut effects);
            return Some(effects);
        }
        return None;
    }

    let is_en_passant = match state.en_passant {
        Some(t) => t == end_pos,
        None => false,
    };
    if is_en_passant {
        let enemy_pos = end_pos.add(real_down);
        if diagonal {
            raw_move(state, b, &mut effects);
            if enemy_pos.is_describing_position() {
                effects.push(EffectHelper::get_change(enemy_pos, None));
            }
            return Some(effects);
        }
        return None;
    }

    let one_up = start_pos.add(real_up);
    let is_something_one_up = one_up.is_describing_position() && state.pieces_data.get(
        one_up,
    ).is_some();

    let in_second_row = start_pos.y() == Coord::row_point_of_view(2, us.clr);
    let is_one_up = end_pos == start_pos.add(real_up);
    let is_two_up = end_pos == start_pos.add(real_up.mul(2));

    if (in_second_row && is_two_up && !is_something_one_up) || is_one_up {
        raw_move(state, b, &mut effects);
        if is_two_up {
            effects.push(Effect::SetEnPassant(one_up));
        }
        Some(effects)
    } else {
        None
    }
}

/// Full pawn handling: the displacement logic above, then the promotion
/// rewrite when the pawn reaches its last rank.
pub fn handle_pawn(state: &ChessState, b: Move) -> (r: Option<Vec<Effect>>)
    requires
        state.wf(),
        spec_on_board(b.from),
        spec_on_board(b.to),
        state@.at(b.from) is Some,
    ensures
        opt_eq(r, spec_handle_pawn(state@, b, piece_of(state@.at(b.from)))),
{
    let clr = state.pieces_data.get(b.from).unwrap().clr;

    let maybe_effects = handle_pawn_no_promotion(state, b);
    if maybe_effects.is_none() {
        return None;
    }
    let mut effects = maybe_effects.unwrap();
    if Coord::row_point_of_view(b.to.y(), clr) != 8 {
        return Some(effects);
    }

    let promote_to = match b.additional {
        Some(AdditionalMoveData::Promotion(p)) => if p == PieceKind::King {
            PieceKind::Queen
        } else {
            p
        },
        _ => PieceKind::Queen,
    };

    effects.push(EffectHelper::get_change(b.to, Some(ColoredPiece::new(promote_to, clr))));
    Some(effects)
}

pub fn handle_rook(state: &ChessState, b: Move) -> (r: Option<Vec<Effect>>)
    requires
        state.wf(),
        spec_on_board(b.from),
        spec_on_board(b.to),
        state@.at(b.from) is Some,
    ensures
        opt_eq(r, spec_handle_rook(state@, b, piece_of(state@.at(b.from)))),
{
    let mut effects: Vec<Effect> = Vec::new();
    let us = state.pieces_data.get(b.from).unwrap();
    let (from, to) = (b.from, b.to);

    if from.x() != to.x() && from.y() != to.y() {
        return None;
    }

    let sign = to.sub(from).piecewise_sign();
    if is_anything_in_the_way_excluding(state, from, sign, to) {
        return None;
    }
    raw_move(state, b, &mut effects);

    if from == Coord(1, Coord::row_point_of_view(1, us.clr)) {
        effects.push(Effect::ClearCastlingSide(us.clr, CastlingType::QueenSide));
    } else if from == Coord(8, Coord::row_point_of_view(1, us.clr)) {
        effects.push(Effect::ClearCastlingSide(us.clr, CastlingType::KingSide));
    }

    Some(effects)
}

pub fn handle_bishop(state: &ChessState, b: Move) -> (r: Option<Vec<Effect>>)
    requires
        state.wf(),
        spec_on_board(b.from),
        spec_on_board(b.to),
    ensures
        opt_eq(r, spec_handle_bishop(state@, b)),
{
    let mut effects: Vec<Effect> = Vec::new();
    let (from, to) = (b.from, b.to);
    let dif = to.sub(from);

    let abs_dif = dif.piecewise_abs();
    if abs_dif.x() != abs_dif.y() {
        return None;
    }
    let sign = dif.piecewise_sign();
    if is_anything_in_the_way_excluding(state, from, sign, to) {
        return None;
    }

    raw_move(state, b, &mut effects);
    Some(effects)
}

pub fn handle_queen(state: &ChessState, b: Move) -> (r: Option<Vec<Effect>>)
    requires
        state.wf(),
        spec_on_board(b.from),
        spec_on_board(b.to),
    ensures
        opt_eq(r, spec_handle_queen(state@, b)),
{
    let mut effects: Vec<Effect> = Vec::new();
    let (from, to) = (b.from, b.to);
    let dif = to.sub(from);
    let abs_dif = dif.piecewise_abs();
    if (from.x() != to.x() && from.y() != to.y()) && abs_dif.x() != abs_dif.y() {
        return None;
    }
    let sign = dif.piecewise_sign();
    if is_anything_in_the_way_excluding(state, from, sign, to) {
        return None;
    }
    raw_move(state, b, &mut effects);
    Some(effects)
}

pub fn handle_knight(state: &ChessState, b: Move) -> (r: Option<Vec<Effect>>)
    requires
        state.wf(),
        spec_on_board(b.from),
        spec_on_board(b.to),
    ensures
        opt_eq(r, spec_handle_knight(state@, b)),
{
    let mut effects: Vec<Effect> = Vec::new();
    let (from, to) = (b.from, b.to);
    let dif = to.sub(from);
    let abs_dif = dif.piecewise_abs();
    if (abs_dif.x() == 2 && abs_dif.y() == 1) || (abs_dif.x() == 1 && abs_dif.y() == 2) {
        raw_move(state, b, &mut effects);
        return Some(effects);
    }
    None
}

pub fn handle_king(state: &ChessState, b: Move) -> (r: Option<Vec<Effect>>)
    requires
        state.wf(),
        spec_on_board(b.from),
        spec_on_board(b.to),
    ensures
        opt_eq(r, spec_handle_king(state@, b)),
{
    let mut effects: Vec<Effect> = Vec::new();
    let (from, to) = (b.from, b.to);
    let dif = to.sub(from);
    let abs_dif = dif.piecewise_abs();
    let x_dif_abs = abs_dif.x();
    let y_dif_abs = abs_dif.y();
    if (x_dif_abs + y_dif_abs) == 1 || (x_dif_abs == y_dif_abs && x_dif_abs == 1) {
        raw_move(state, b, &mut effects);
        effects.push(EffectHelper::get_unmark_castling(state.current));
        return Some(effects);
    }
    None
}

/// Castling, recognized from a two-file king displacement. Only the
/// availability flag, the piece, the geometry and the emptiness of the
/// squares between king and rook are checked here; the king-safety pass of
/// [`check_move`] then vets the king's destination square (its start and
/// transit squares are deliberately not vetted).
pub fn handle_castling(state: &ChessState, b: Move) -> (r: Option<Vec<Effect>>)
    requires
        state.wf(),
        spec_on_board(b.from),
        spec_on_board(b.to),
        state@.at(b.from) is Some,
    ensures
        opt_eq(r, spec_handle_castling(state@, b)),
{
    let mut effects: Vec<Effect> = Vec::new();

    let t = if b.to.x() < b.from.x() {
        CastlingType::QueenSide
    } else {
        CastlingType::KingSide
    };

    let avail = state.castling[state.current.repr()];
    match t {
        CastlingType::KingSide => if !avail.king_side {
            return None;
        },
        CastlingType::QueenSide => if !avail.queen_side {
            return None;
        },
    }

    let piece = state.pieces_data.get(b.from).unwrap();
    if piece.piece_kind != PieceKind::King {
        return None;
    }

    match t {
        CastlingType::KingSide => {
            if !(b.to == b.from.add(Coord(2, 0))) {
                return None;
            }
            let c1 = b.from.add(Coord(1, 0));
            if state.pieces_data.get(c1).is_some() || state.pieces_data.get(b.to).is_some() {
                return None;
            }
            raw_move(state, b, &mut effects);
            raw_move(
                state,
                Move::new(Coord(8, b.from.y()), b.to.sub(Coord(1, 0))),
                &mut effects,
            );
        },
        CastlingType::QueenSide => {
            if !(b.to == b.from.sub(Coord(2, 0))) {
                return None;
            }
            if b.from.x() < 4 {
                return None;
            }
            let c1 = b.from.sub(Coord(1, 0));
            let c3 = b.from.sub(Coord(3, 0));
            if state.pieces_data.get(c1).is_some() || state.pieces_data.get(b.to).is_some()
                || state.pieces_data.get(c3).is_some() {
                return None;
            }
            raw_move(state, b, &mut effects);
            raw_move(
                state,
                Move::new(Coord(1, b.from.y()), b.to.add(Coord(1, 0))),
                &mut effects,
            );
        },
    }
    effects.push(EffectHelper::get_unmark_castling(state.current));
    proof {
        assert(effects@ =~= spec_handle_castling(state@, b).unwrap());
    }
    Some(effects)
}

// ------------------------------------------------------------------
// Shape of the effect sequences a legal move produces
// ------------------------------------------------------------------
pub open spec fn no_flip(es: Seq<Effect>) -> bool {
    forall|i: int| 0 <= i < es.len() ==> #[trigger] es[i] != Effect::FlipSide
}

/// Every handler emits only well-formed effects, and never a side flip
/// (the flip is appended once, by `check_move` itself).
pub proof fn lemma_effects_shape(m: StateModel, b: Move, us: ColoredPiece)
    requires
        m.wf(),
        spec_on_board(b.from),
        spec_on_board(b.to),
    ensures
        match spec_handle_castling(m, b) {
            Some(es) => effects_wf(es) && no_flip(es),
            None => true,
        },
        match spec_dispatch(m, b, us) {
            Some(es) => effects_wf(es) && no_flip(es),
            None => true,
        },
{
    match spec_handle_castling(m, b) {
        Some(es) => {
            assert(es.len() == 5);
            assert(effect_wf(es[0]) && es[0] != Effect::FlipSide);
            assert(effect_wf(es[1]) && es[1] != Effect::FlipSide);
            assert(effect_wf(es[2]) && es[2] != Effect::FlipSide);
            assert(effect_wf(es[3]) && es[3] != Effect::FlipSide);
            assert(effect_wf(es[4]) && es[4] != Effect::FlipSide);
        },
        None => {},
    }
    match spec_dispatch(m, b, us) {
        Some(es) => {
            assert(2 <= es.len() <= 4);
            assert forall|i: int| 0 <= i < es.len() implies effect_wf(#[trigger] es[i]) && es[i]
                != Effect::FlipSide by {
                assert(effect_wf(es[0]) && es[0] != Effect::FlipSide);
                assert(effect_wf(es[1]) && es[1] != Effect::FlipSide);
                if es.len() > 2 {
                    assert(effect_wf(es[2]) && es[2] != Effect::FlipSide);
                }
                if es.len() > 3 {
                    assert(effect_wf(es[3]) && es[3] != Effect::FlipSide);
                }
            }
        },
        None => {},
    }
}

/// A legal move's effect list is well formed, and is some flip-free prefix
/// followed by exactly one trailing side flip.
pub proof fn lemma_spec_check_shape(m: StateModel, b: Move, ks: bool, ic: bool)
    requires
        m.wf(),
        spec_check_move(m, b, ks, ic) is Ok,
    ensures
        match spec_check_move(m, b, ks, ic) {
            Ok(es) => effects_wf(es) && es.len() >= 1 && es.last() == Effect::FlipSide && no_flip(
                es.drop_last(),
            ),
            Err(_) => true,
        },
{
    let piece = piece_of(m.at(b.from));
    lemma_effects_shape(m, b, piece);
    let es = match spec_check_move(m, b, ks, ic) {
        Ok(es) => es,
        Err(_) => seq![],
    };
    match spec_handle_castling(m, b) {
        Some(base) => {
            assert(es == base.push(Effect::FlipSide));
            assert(es.drop_last() =~= base);
        },
        None => {
            match spec_dispatch(m, b, piece) {
                Some(es0) => {
                    let base = es0.push(Effect::ClearEnPassantIfSame(m.en_passant));
                    assert(es == base.push(Effect::FlipSide));
                    assert(es.drop_last() =~= base);
                    assert(no_flip(base)) by {
                        assert(forall|i: int|
                            0 <= i < es0.len() ==> #[trigger] base[i] == es0[i]);
                        assert(base[es0.len() as int] == Effect::ClearEnPassantIfSame(
                            m.en_passant,
                        ));
                    }
                    assert(effects_wf(base)) by {
                        assert(forall|i: int|
                            0 <= i < es0.len() ==> #[trigger] base[i] == es0[i]);
                        assert(base[es0.len() as int] == Effect::ClearEnPassantIfSame(
                            m.en_passant,
                        ));
                    }
                },
                None => {
                    assert(false);
                },
            }
        },
    }
    assert(effects_wf(es)) by {
        assert(forall|i: int|
            0 <= i < es.len() - 1 ==> #[trigger] es[i] == es.drop_last()[i]);
        assert(es.last() == Effect::FlipSide);
    }
}

// ------------------------------------------------------------------
// King lookup
// ------------------------------------------------------------------
pub proof fn lemma_king_scan_props(m: StateModel, clr: Color, k: int)
    ensures
        match king_scan(m, clr, k) {
            Some(c) => spec_on_board(c) && m.at(c) == Some(
                ColoredPiece { piece_kind: PieceKind::King, clr },
            ),
            None => true,
        },
    decreases 64 - k,
{
    if 0 <= k < 64 {
        if m.at(square_at(k)) == Some(ColoredPiece { piece_kind: PieceKind::King, clr }) {
        } else {
            lemma_king_scan_props(m, clr, k + 1);
        }
    }
}

pub proof fn lemma_king_scan_finds(m: StateModel, clr: Color, k: int, c: Coord)
    requires
        spec_on_board(c),
        m.at(c) == Some(ColoredPiece { piece_kind: PieceKind::King, clr }),
        0 <= k <= square_index(c),
    ensures
        king_scan(m, clr, k) is Some,
    decreases 64 - k,
{
    lemma_square_index(c);
    if m.at(square_at(k)) == Some(ColoredPiece { piece_kind: PieceKind::King, clr }) {
    } else {
        assert(square_at(k) != c);
        assert(k != square_index(c));
        lemma_king_scan_finds(m, clr, k + 1, c);
    }
}

pub proof fn lemma_has_king_found(m: StateModel, clr: Color)
    requires
        m.has_king(clr),
    ensures
        spec_first_king(m, clr) is Some,
{
    let c = choose|c: Coord|
        spec_on_board(c) && #[trigger] m.at(c) == Some(
            ColoredPiece { piece_kind: PieceKind::King, clr },
        );
    lemma_square_index(c);
    lemma_king_scan_finds(m, clr, 0, c);
}

/// First king of the color in scanning order, if there is one.
pub fn find_king_opt(state: &ChessState, clr: Color) -> (r: Option<Coord>)
    requires
        state.wf(),
    ensures
        r == spec_first_king(state@, clr),
{
    let squares = all_squares();
    let mut k: usize = 0;
    while k < 64
        invariant
            state.wf(),
            squares@.len() == 64,
            forall|kk: int| 0 <= kk < 64 ==> #[trigger] squares@[kk] == square_at(kk),
            k <= 64,
            king_scan(state@, clr, 0) == king_scan(state@, clr, k as int),
        decreases 64 - k,
    {
        let c = squares[k];
        proof {
            assert(spec_on_board(c));
        }
        let p = state.pieces_data.get(c);
        let found: bool = match p {
            Some(pc) => pc.piece_kind == PieceKind::King && pc.clr == clr,
            None => false,
        };
        if found {
            return Some(c);
        }
        k += 1;
    }
    None
}

/// Position of the color's king. The position must hold one.
pub fn find_king_pos(state: &ChessState, clr: Color) -> (r: Coord)
    requires
        state.wf(),
        state@.has_king(clr),
    ensures
        spec_first_king(state@, clr) == Some(r),
        spec_on_board(r),
        state@.at(r) == Some(ColoredPiece { piece_kind: PieceKind::King, clr }),
{
    proof {
        lemma_has_king_found(state@, clr);
        lemma_king_scan_props(state@, clr, 0);
    }
    let r = find_king_opt(state, clr);
    match r {
        Some(c) => c,
        None => {
            proof {
                assert(false);
            }
            Coord(1, 1)
        },
    }
}

// ------------------------------------------------------------------
// Attack test, legality, application
// ------------------------------------------------------------------
/// Whether any piece of the other color could capture onto `c` in one move,
/// side-to-move ignored. Errs when `c` is off the board or empty.
pub fn can_be_attacked_in_one_move(state: &ChessState, c: Coord) -> (r: Result<bool, ChessError>)
    requires
        state.wf(),
    ensures
        r == spec_can_be_attacked(state@, c),
    decreases 2int,
{
    if !c.is_describing_position() {
        return Err(ChessError::CoordOutOfBound);
    }
    let orig = state.pieces_data.get(c);
    if orig.is_none() {
        return Err(ChessError::NoPieceAtTarget);
    }
    let original_piece = orig.unwrap();

    let squares = all_squares();
    let mut k: usize = 0;
    while k < 64
        invariant
            state.wf(),
            spec_on_board(c),
            state@.at(c) == Some(original_piece),
            squares@.len() == 64,
            forall|kk: int| 0 <= kk < 64 ==> #[trigger] squares@[kk] == square_at(kk),
            k <= 64,
            forall|kk: int|
                0 <= kk < k ==> !spec_attacker(state@, c, original_piece.clr, square_at(kk)),
        decreases 64 - k,
    {
        let pc = squares[k];
        proof {
            assert(spec_on_board(pc));
        }
        let piece = state.pieces_data.get(pc);
        let candidate: bool = match piece {
            Some(p) => p.clr != original_piece.clr,
            None => false,
        };
        if candidate {
            let mv = Move::new(pc, c);
            if can_do_move(state, mv, false, true) {
                proof {
                    assert(spec_attacker(state@, c, original_piece.clr, pc));
                    assert(attacked_by_someone(state@, c, original_piece.clr));
                }
                return Ok(true);
            }
        }
        proof {
            assert(!spec_attacker(state@, c, original_piece.clr, square_at(k as int)));
        }
        k += 1;
    }
    proof {
        assert forall|a: Coord| !spec_attacker(state@, c, original_piece.clr, a) by {
            if spec_on_board(a) {
                lemma_square_index(a);
                assert(!spec_attacker(state@, c, original_piece.clr, square_at(square_index(a))));
            }
        }
        assert(!attacked_by_someone(state@, c, original_piece.clr));
    }
    Ok(false)
}

/// Whether the move is legal in this position.
pub fn can_do_move(state: &ChessState, b: Move, consider_king_safety: bool, ignore_clr: bool) -> (r:
    bool)
    requires
        state.wf(),
    ensures
        r == (spec_check_move(state@, b, consider_king_safety, ignore_clr) is Ok),
    decreases (if consider_king_safety { 4int } else { 1int }),
{
    check_move(state, b, consider_king_safety, ignore_clr).is_ok()
}

/// Decide the move's legality and, when it is legal, produce the effect
/// sequence that applies it. The position itself is not touched.
pub fn check_move(state: &ChessState, b: Move, consider_king_safety: bool, ignore_clr: bool) -> (r:
    Result<Vec<Effect>, ChessError>)
    requires
        state.wf(),
    ensures
        res_eq(r, spec_check_move(state@, b, consider_king_safety, ignore_clr)),
    decreases (if consider_king_safety { 3int } else { 0int }),
{
    if !b.from.is_describing_position() || !b.to.is_describing_position() {
        return Err(ChessError::MoveOffBoard);
    }

    let piece = state.pieces_data.get(b.from);
    let maybe_piece_on_target = state.pieces_data.get(b.to);

    if piece.is_none() {
        return Err(ChessError::NoPieceAtSource);
    }
    let piece = piece.unwrap();

    if !ignore_clr && piece.clr != state.current {
        return Err(ChessError::WrongTurn(piece.clr));
    }

    if let Some(piece_on_target) = maybe_piece_on_target {
        if piece_on_target.clr == piece.clr {
            return Err(ChessError::SelfCapture(piece.clr));
        }
    }

    let castle = handle_castling(state, b);
    let mut effects: Vec<Effect>;
    match castle {
        Some(es) => {
            effects = es;
            effects.push(Effect::FlipSide);
        },
        None => {
            let res = match piece.piece_kind {
                PieceKind::Pawn => handle_pawn(state, b),
                PieceKind::Knight => handle_knight(state, b),
                PieceKind::Bishiop => handle_bishop(state, b),
                PieceKind::Rook => handle_rook(state, b),
                PieceKind::Queen => handle_queen(state, b),
                PieceKind::King => handle_king(state, b),
            };
            match res {
                None => {
                    return Err(ChessError::ImpossibleMove);
                },
                Some(es0) => {
                    effects = es0;
                    effects.push(Effect::ClearEnPassantIfSame(state.en_passant));
                    effects.push(Effect::FlipSide);
                },
            }
        },
    }

    proof {
        lemma_spec_check_shape(state@, b, false, ignore_clr);
        assert(match spec_check_move(state@, b, false, ignore_clr) {
            Ok(es) => effects@ == es,
            Err(_) => false,
        });
        assert(effects_wf(effects@));
    }

    if consider_king_safety {
        let mut state_cp = state.duplicate();
        EffectHelper::apply_effects(&effects, &mut state_cp);
        let kp = find_king_opt(&state_cp, state.current);
        match kp {
            None => Ok(effects),
            Some(kc) => {
                proof {
                    lemma_king_scan_props(state_cp@, state@.current, 0);
                }
                let att = can_be_attacked_in_one_move(&state_cp, kc);
                let attacked: bool = match att {
                    Ok(x) => x,
                    Err(_) => false,
                };
                if attacked {
                    Err(ChessError::KingUnsafe)
                } else {
                    Ok(effects)
                }
            },
        }
    } else {
        Ok(effects)
    }
}

// ------------------------------------------------------------------
// Laws over effect sequences: the side always flips, castling rights
// never come back
// ------------------------------------------------------------------
pub proof fn lemma_noflip_preserves_current(m: StateModel, es: Seq<Effect>)
    requires
        no_flip(es),
    ensures
        apply_effects_model(m, es).current == m.current,
    decreases es.len(),
{
    if es.len() > 0 {
        assert(es[0] != Effect::FlipSide);
        assert(apply_effect(m, es[0]).current == m.current);
        assert(no_flip(es.drop_first())) by {
            assert(forall|i: int|
                0 <= i < es.drop_first().len() ==> es.drop_first()[i] == es[i + 1]);
        }
        lemma_noflip_preserves_current(apply_effect(m, es[0]), es.drop_first());
    }
}

/// Law: applying a legal move hands the turn to the other color.
pub proof fn lemma_move_flips_side(m: StateModel, b: Move, ks: bool, ic: bool)
    requires
        m.wf(),
        spec_check_move(m, b, ks, ic) is Ok,
    ensures
        match spec_check_move(m, b, ks, ic) {
            Ok(es) => apply_effects_model(m, es).current == m.current.rev(),
            Err(_) => true,
        },
{
    lemma_spec_check_shape(m, b, ks, ic);
    let es = match spec_check_move(m, b, ks, ic) {
        Ok(es) => es,
        Err(_) => seq![],
    };
    assert(es =~= es.drop_last().push(Effect::FlipSide));
    crate::chess_raw::lemma_apply_effects_model_push(m, es.drop_last(), Effect::FlipSide);
    lemma_noflip_preserves_current(m, es.drop_last());
}

/// Castling rights of `weaker` are at most those of `stronger`, per color
/// and per side.
pub open spec fn castling_weaker(weaker: StateModel, stronger: StateModel) -> bool {
    &&& weaker.castling_of(Color::White).king_side ==> stronger.castling_of(
        Color::White,
    ).king_side
    &&& weaker.castling_of(Color::White).queen_side ==> stronger.castling_of(
        Color::White,
    ).queen_side
    &&& weaker.castling_of(Color::Black).king_side ==> stronger.castling_of(
        Color::Black,
    ).king_side
    &&& weaker.castling_of(Color::Black).queen_side ==> stronger.castling_of(
        Color::Black,
    ).queen_side
}

pub proof fn lemma_effect_castling_weaker(m: StateModel, e: Effect)
    requires
        m.castling.len() == 2,
    ensures
        apply_effect(m, e).castling.len() == 2,
        castling_weaker(apply_effect(m, e), m),
{
    match e {
        Effect::ClearCastlingSide(clr, t) => {
            assert(apply_effect(m, e).castling.len() == 2);
        },
        Effect::ClearCastling(clr) => {
            assert(apply_effect(m, e).castling.len() == 2);
        },
        _ => {},
    }
}

/// Law: no effect sequence a move produces can turn a castling flag back on.
pub proof fn lemma_effects_castling_weaker(m: StateModel, es: Seq<Effect>)
    requires
        m.castling.len() == 2,
    ensures
        apply_effects_model(m, es).castling.len() == 2,
        castling_weaker(apply_effects_model(m, es), m),
    decreases es.len(),
{
    if es.len() > 0 {
        lemma_effect_castling_weaker(m, es[0]);
        lemma_effects_castling_weaker(apply_effect(m, es[0]), es.drop_first());
    }
}

// ------------------------------------------------------------------
// The move-candidate catalogue
// ------------------------------------------------------------------
pub open spec fn pawn_moves(c: Color) -> Seq<Coord> {
    match c {
        Color::White => seq![Coord(0i32, 1i32), Coord(0i32, 2i32), Coord(-1i32, 1i32), Coord(1i32, 1i32)],
        Color::Black => seq![
            Coord(0i32, -1i32),
            Coord(0i32, -2i32),
            Coord(-1i32, -1i32),
            Coord(1i32, -1i32),
        ],
    }
}

pub open spec fn knight_moves() -> Seq<Coord> {
    seq![
        Coord(1i32, 2i32),
        Coord(-1i32, 2i32),
        Coord(1i32, -2i32),
        Coord(-1i32, -2i32),
        Coord(2i32, 1i32),
        Coord(2i32, -1i32),
        Coord(-2i32, 1i32),
        Coord(-2i32, -1i32),
    ]
}

pub open spec fn bishop_rays() -> Seq<Coord> {
    Seq::new(
        32,
        |j: int|
            if j < 8 {
                Coord((j + 1) as i32, (j + 1) as i32)
            } else if j < 16 {
                Coord((7 - j) as i32, (7 - j) as i32)
            } else if j < 24 {
                Coord((j - 15) as i32, (15 - j) as i32)
            } else {
                Coord((23 - j) as i32, (j - 23) as i32)
            },
    )
}

pub open spec fn rook_rays() -> Seq<Coord> {
    Seq::new(
        32,
        |j: int|
            if j < 8 {
                Coord(0, (j + 1) as i32)
            } else if j < 16 {
                Coord(0, (7 - j) as i32)
            } else if j < 24 {
                Coord((j - 15) as i32, 0)
            } else {
                Coord((23 - j) as i32, 0)
            },
    )
}

pub open spec fn king_moves() -> Seq<Coord> {
    seq![
        Coord(-1i32, 0i32),
        Coord(1i32, 0i32),
        Coord(0i32, 1i32),
        Coord(0i32, -1i32),
        Coord(-1i32, 1i32),
        Coord(1i32, 1i32),
        Coord(-1i32, -1i32),
        Coord(1i32, -1i32),
    ]
}

/// Candidate displacements for the piece: a superset of every displacement
/// it could ever legally make, castling aside. Out-of-board candidates are
/// discarded when tried.
pub open spec fn spec_catalogue(k: PieceKind, c: Color) -> Seq<Coord> {
    match k {
        PieceKind::Pawn => pawn_moves(c),
        PieceKind::Knight => knight_moves(),
        PieceKind::Bishiop => bishop_rays(),
        PieceKind::Rook => rook_rays(),
        PieceKind::Queen => bishop_rays() + rook_rays(),
        PieceKind::King => king_moves(),
    }
}

pub proof fn lemma_catalogue_bounded(k: PieceKind, c: Color)
    ensures
        forall|j: int|
            0 <= j < spec_catalogue(k, c).len() ==> -8 <= (#[trigger] spec_catalogue(k, c)[j]).0
                <= 8 && -8 <= spec_catalogue(k, c)[j].1 <= 8,
{
    let cat = spec_catalogue(k, c);
    assert forall|j: int| 0 <= j < cat.len() implies -8 <= (#[trigger] cat[j]).0 <= 8 && -8
        <= cat[j].1 <= 8 by {
        match k {
            PieceKind::Queen => {
                if j < 32 {
                    assert(cat[j] == bishop_rays()[j]);
                } else {
                    assert(cat[j] == rook_rays()[j - 32]);
                }
            },
            _ => {},
        }
    }
}

fn bishop_ray_vec() -> (r: Vec<Coord>)
    ensures
        r@ == bishop_rays(),
{
    let mut r: Vec<Coord> = Vec::new();
    let mut j: usize = 0;
    while j < 32
        invariant
            j <= 32,
            r@.len() == j,
            forall|k: int| 0 <= k < j ==> #[trigger] r@[k] == bishop_rays()[k],
        decreases 32 - j,
    {
        let t = j as i32;
        let c = if t < 8 {
            Coord(t + 1, t + 1)
        } else if t < 16 {
            Coord(7 - t, 7 - t)
        } else if t < 24 {
            Coord(t - 15, 15 - t)
        } else {
            Coord(23 - t, t - 23)
        };
        r.push(c);
        j += 1;
    }
    proof {
        assert(r@ =~= bishop_rays());
    }
    r
}

fn rook_ray_vec() -> (r: Vec<Coord>)
    ensures
        r@ == rook_rays(),
{
    let mut r: Vec<Coord> = Vec::new();
    let mut j: usize = 0;
    while j < 32
        invariant
            j <= 32,
            r@.len() == j,
            forall|k: int| 0 <= k < j ==> #[trigger] r@[k] == rook_rays()[k],
        decreases 32 - j,
    {
        let t = j as i32;
        let c = if t < 8 {
            Coord(0, t + 1)
        } else if t < 16 {
            Coord(0, 7 - t)
        } else if t < 24 {
            Coord(t - 15, 0)
        } else {
            Coord(23 - t, 0)
        };
        r.push(c);
        j += 1;
    }
    proof {
        assert(r@ =~= rook_rays());
    }
    r
}

/// The candidate displacements of one piece, in catalogue order.
pub fn read_max_map(piece: ColoredPiece) -> (r: Vec<Coord>)
    ensures
        r@ == spec_catalogue(piece.piece_kind, piece.clr),
{
    match piece.piece_kind {
        PieceKind::Pawn => {
            let mut r: Vec<Coord> = Vec::new();
            match piece.clr {
                Color::White => {
                    r.push(Coord(0, 1));
                    r.push(Coord(0, 2));
                    r.push(Coord(-1, 1));
                    r.push(Coord(1, 1));
                },
                Color::Black => {
                    r.push(Coord(0, -1));
                    r.push(Coord(0, -2));
                    r.push(Coord(-1, -1));
                    r.push(Coord(1, -1));
                },
            }
            proof {
                assert(r@ =~= spec_catalogue(piece.piece_kind, piece.clr));
            }
            r
        },
        PieceKind::Knight => {
            let mut r: Vec<Coord> = Vec::new();
            r.push(Coord(1, 2));
            r.push(Coord(-1, 2));
            r.push(Coord(1, -2));
            r.push(Coord(-1, -2));
            r.push(Coord(2, 1));
            r.push(Coord(2, -1));
            r.push(Coord(-2, 1));
            r.push(Coord(-2, -1));
            proof {
                assert(r@ =~= spec_catalogue(piece.piece_kind, piece.clr));
            }
            r
        },
        PieceKind::Bishiop => bishop_ray_vec(),
        PieceKind::Rook => rook_ray_vec(),
        PieceKind::Queen => {
            let mut r = bishop_ray_vec();
            let rook = rook_ray_vec();
            let mut j: usize = 0;
            while j < rook.len()
                invariant
                    j <= rook@.len(),
                    rook@ == rook_rays(),
                    r@.len() == 32 + j,
                    forall|k: int| 0 <= k < 32 ==> #[trigger] r@[k] == bishop_rays()[k],
                    forall|k: int| 32 <= k < 32 + j ==> #[trigger] r@[k] == rook_rays()[k - 32],
                decreases rook@.len() - j,
            {
                r.push(rook[j]);
                j += 1;
            }
            proof {
                assert(r@ =~= bishop_rays() + rook_rays());
            }
            r
        },
        PieceKind::King => {
            let mut r: Vec<Coord> = Vec::new();
            r.push(Coord(-1, 0));
            r.push(Coord(1, 0));
            r.push(Coord(0, 1));
            r.push(Coord(0, -1));
            r.push(Coord(-1, 1));
            r.push(Coord(1, 1));
            r.push(Coord(-1, -1));
            r.push(Coord(1, -1));
            proof {
                assert(r@ =~= spec_catalogue(piece.piece_kind, piece.clr));
            }
            r
        },
    }
}

pub open spec fn index_kind(j: int) -> PieceKind {
    if j == 0 {
        PieceKind::Pawn
    } else if j == 1 {
        PieceKind::Knight
    } else if j == 2 {
        PieceKind::Bishiop
    } else if j == 3 {
        PieceKind::Rook
    } else if j == 4 {
        PieceKind::Queen
    } else {
        PieceKind::King
    }
}

pub open spec fn index_color(j: int) -> Color {
    if j == 0 {
        Color::White
    } else {
        Color::Black
    }
}

/// The whole catalogue, assembled as a table: piece kinds outermost, then
/// the two colors (White first), then the displacements.
pub fn generate_max_move_map() -> (r: Vec<Vec<Vec<Coord>>>)
    ensures
        r@.len() == 6,
        forall|kj: int| 0 <= kj < 6 ==> (#[trigger] r@[kj])@.len() == 2,
        forall|kj: int, cj: int|
            0 <= kj < 6 && 0 <= cj < 2 ==> (#[trigger] r@[kj]@[cj])@ == spec_catalogue(
                index_kind(kj),
                index_color(cj),
            ),
{
    let mut r: Vec<Vec<Vec<Coord>>> = Vec::new();
    let mut kj: usize = 0;
    while kj < 6
        invariant
            kj <= 6,
            r@.len() == kj,
            forall|j: int| 0 <= j < kj ==> (#[trigger] r@[j])@.len() == 2,
            forall|j: int, cj: int|
                0 <= j < kj && 0 <= cj < 2 ==> (#[trigger] r@[j]@[cj])@ == spec_catalogue(
                    index_kind(j),
                    index_color(cj),
                ),
        decreases 6 - kj,
    {
        let kind = match kj {
            0 => PieceKind::Pawn,
            1 => PieceKind::Knight,
            2 => PieceKind::Bishiop,
            3 => PieceKind::Rook,
            4 => PieceKind::Queen,
            _ => PieceKind::King,
        };
        let mut pair: Vec<Vec<Coord>> = Vec::new();
        pair.push(read_max_map(ColoredPiece::new(kind, Color::White)));
        pair.push(read_max_map(ColoredPiece::new(kind, Color::Black)));
        r.push(pair);
        kj += 1;
    }
    r
}

// ------------------------------------------------------------------
// Enumeration of legal moves
// ------------------------------------------------------------------
/// A move the engine will accept as given: no annotation, and legal with
/// full king safety for the side to move.
pub open spec fn spec_is_legal(m: StateModel, mv: Move) -> bool {
    mv.additional is None && spec_check_move(m, mv, true, false) is Ok
}

/// Destination reached from `from` by one of the first `j` displacements.
pub open spec fn in_cat_prefix(from: Coord, cat: Seq<Coord>, j: int, to: Coord) -> bool {
    exists|jj: int| 0 <= jj < j && to == coord_plus(from, #[trigger] cat[jj])
}

pub open spec fn castle_candidate(from: Coord, to: Coord) -> bool {
    to.1 == from.1 && (to.0 == from.0 + 2 || to.0 == from.0 - 2)
}

/// A legal move's destination always comes from the mover's catalogue
/// entry, or is one of the two castling king hops.
pub proof fn lemma_catalogue_complete(m: StateModel, mv: Move)
    requires
        m.wf(),
        spec_check_move_basic(m, mv, false) is Ok,
    ensures
        ({
            let piece = piece_of(m.at(mv.from));
            let cat = spec_catalogue(piece.piece_kind, piece.clr);
            in_cat_prefix(mv.from, cat, cat.len() as int, mv.to) || (piece.piece_kind
                == PieceKind::King && castle_candidate(mv.from, mv.to))
        }),
{
    let piece = piece_of(m.at(mv.from));
    let cat = spec_catalogue(piece.piece_kind, piece.clr);
    let from = mv.from;
    let to = mv.to;
    let dx = to.0 - from.0;
    let dy = to.1 - from.1;
    assert(to != from);
    match spec_handle_castling(m, mv) {
        Some(_) => {
            assert(piece.piece_kind == PieceKind::King && castle_candidate(from, to));
        },
        None => {
            match piece.piece_kind {
                PieceKind::Pawn => {
                    let up = forward_of(piece.clr);
                    assert(spec_handle_pawn_no_promotion(m, mv, piece) is Some);
                    if dy == up && (dx == 1 || dx == -1) {
                        if piece.clr == Color::White {
                            if dx == -1 {
                                assert(to == coord_plus(from, cat[2]));
                            } else {
                                assert(to == coord_plus(from, cat[3]));
                            }
                        } else {
                            if dx == -1 {
                                assert(to == coord_plus(from, cat[2]));
                            } else {
                                assert(to == coord_plus(from, cat[3]));
                            }
                        }
                    } else if dx == 0 && dy == up {
                        assert(to == coord_plus(from, cat[0]));
                    } else {
                        assert(dx == 0 && dy == 2 * up);
                        assert(to == coord_plus(from, cat[1]));
                    }
                },
                PieceKind::Knight => {
                    if dx == 1 && dy == 2 {
                        assert(to == coord_plus(from, cat[0]));
                    } else if dx == -1 && dy == 2 {
                        assert(to == coord_plus(from, cat[1]));
                    } else if dx == 1 && dy == -2 {
                        assert(to == coord_plus(from, cat[2]));
                    } else if dx == -1 && dy == -2 {
                        assert(to == coord_plus(from, cat[3]));
                    } else if dx == 2 && dy == 1 {
                        assert(to == coord_plus(from, cat[4]));
                    } else if dx == 2 && dy == -1 {
                        assert(to == coord_plus(from, cat[5]));
                    } else if dx == -2 && dy == 1 {
                        assert(to == coord_plus(from, cat[6]));
                    } else {
                        assert(dx == -2 && dy == -1);
                        assert(to == coord_plus(from, cat[7]));
                    }
                },
                PieceKind::Bishiop => {
                    lemma_diag_in_rays(from, to, cat, 0);
                },
                PieceKind::Rook => {
                    lemma_line_in_rays(from, to, cat, 0);
                },
                PieceKind::Queen => {
                    if dx != 0 && dy != 0 {
                        lemma_diag_in_rays(from, to, bishop_rays(), 0);
                        let jj = choose|jj: int|
                            0 <= jj < 32 && to == coord_plus(from, #[trigger] bishop_rays()[jj]);
                        assert(cat[jj] == bishop_rays()[jj]);
                        assert(to == coord_plus(from, cat[jj]));
                    } else {
                        lemma_line_in_rays(from, to, rook_rays(), 0);
                        let jj = choose|jj: int|
                            0 <= jj < 32 && to == coord_plus(from, #[trigger] rook_rays()[jj]);
                        assert(cat[32 + jj] == rook_rays()[jj]);
                        assert(to == coord_plus(from, cat[32 + jj]));
                    }
                },
                PieceKind::King => {
                    if dx == -1 && dy == 0 {
                        assert(to == coord_plus(from, cat[0]));
                    } else if dx == 1 && dy == 0 {
                        assert(to == coord_plus(from, cat[1]));
                    } else if dx == 0 && dy == 1 {
                        assert(to == coord_plus(from, cat[2]));
                    } else if dx == 0 && dy == -1 {
                        assert(to == coord_plus(from, cat[3]));
                    } else if dx == -1 && dy == 1 {
                        assert(to == coord_plus(from, cat[4]));
                    } else if dx == 1 && dy == 1 {
                        assert(to == coord_plus(from, cat[5]));
                    } else if dx == -1 && dy == -1 {
                        assert(to == coord_plus(from, cat[6]));
                    } else {
                        assert(dx == 1 && dy == -1);
                        assert(to == coord_plus(from, cat[7]));
                    }
                },
            }
        },
    }
}

/// Witness helper: a nonzero diagonal displacement of up to seven squares
/// stands in `bishop_rays()`.
proof fn lemma_diag_in_rays(from: Coord, to: Coord, cat: Seq<Coord>, unused: int)
    requires
        cat == bishop_rays(),
        to.0 - from.0 != 0,
        abs(to.0 - from.0) == abs(to.1 - from.1),
        -7 <= to.0 - from.0 <= 7,
        -7 <= to.1 - from.1 <= 7,
    ensures
        in_cat_prefix(from, cat, 32, to),
{
    let dx = to.0 - from.0;
    let dy = to.1 - from.1;
    if dx > 0 && dy > 0 {
        assert(cat[dx - 1] == Coord(dx as i32, dx as i32));
        assert(to == coord_plus(from, cat[dx - 1]));
    } else if dx < 0 && dy < 0 {
        assert(cat[7 - dx] == Coord(dx as i32, dx as i32));
        assert(to == coord_plus(from, cat[7 - dx]));
    } else if dx > 0 && dy < 0 {
        assert(cat[dx + 15] == Coord(dx as i32, (-dx) as i32));
        assert(to == coord_plus(from, cat[dx + 15]));
    } else {
        assert(dx < 0 && dy > 0);
        assert(cat[23 - dx] == Coord(dx as i32, (-dx) as i32));
        assert(to == coord_plus(from, cat[23 - dx]));
    }
}

/// Witness helper: a straight displacement of up to seven squares stands
/// in `rook_rays()`.
proof fn lemma_line_in_rays(from: Coord, to: Coord, cat: Seq<Coord>, unused: int)
    requires
        cat == rook_rays(),
        to != from,
        to.0 - from.0 == 0 || to.1 - from.1 == 0,
        -7 <= to.0 - from.0 <= 7,
        -7 <= to.1 - from.1 <= 7,
    ensures
        in_cat_prefix(from, cat, 32, to),
{
    let dx = to.0 - from.0;
    let dy = to.1 - from.1;
    if dx == 0 && dy > 0 {
        assert(cat[dy - 1] == Coord(0i32, dy as i32));
        assert(to == coord_plus(from, cat[dy - 1]));
    } else if dx == 0 && dy < 0 {
        assert(cat[7 - dy] == Coord(0i32, dy as i32));
        assert(to == coord_plus(from, cat[7 - dy]));
    } else if dy == 0 && dx > 0 {
        assert(cat[dx + 15] == Coord(dx as i32, 0i32));
        assert(to == coord_plus(from, cat[dx + 15]));
    } else {
        assert(dy == 0 && dx < 0);
        assert(cat[23 - dx] == Coord(dx as i32, 0i32));
        assert(to == coord_plus(from, cat[23 - dx]));
    }
}

/// Enumerate every legal move by trying, for each piece of the side to
/// move, each catalogue displacement, plus the two castling hops for the
/// king. Returns exactly the legal moves (law: it agrees as a set with
/// [`get_available_moves_slow`], whose contract is identical).
pub fn get_available_moves(state: &ChessState) -> (r: Vec<Move>)
    requires
        state.wf(),
    ensures
        forall|mv: Move| #[trigger] r@.contains(mv) <==> spec_is_legal(state@, mv),
{
    let squares = all_squares();
    let mut moves: Vec<Move> = Vec::new();
    let mut k1: usize = 0;
    while k1 < 64
        invariant
            state.wf(),
            squares@.len() == 64,
            forall|kk: int| 0 <= kk < 64 ==> #[trigger] squares@[kk] == square_at(kk),
            k1 <= 64,
            forall|mv: Move| #[trigger] moves@.contains(mv) <==> (spec_is_legal(state@, mv)
                && square_index(mv.from) < k1),
        decreases 64 - k1,
    {
        let left = squares[k1];
        proof {
            assert(spec_on_board(left));
        }
        let maybe_cur_piece = state.pieces_data.get(left);
        let wanted: bool = match maybe_cur_piece {
            Some(p) => p.clr == state.current,
            None => false,
        };
        if wanted {
            let piece = maybe_cur_piece.unwrap();
            let cat = read_max_map(piece);
            proof {
                lemma_catalogue_bounded(piece.piece_kind, piece.clr);
            }
            let ghost catspec = spec_catalogue(piece.piece_kind, piece.clr);
            let mut j: usize = 0;
            while j < cat.len()
                invariant
                    state.wf(),
                    k1 < 64,
                    left == square_at(k1 as int),
                    spec_on_board(left),
                    state@.at(left) == Some(piece),
                    piece.clr == state@.current,
                    cat@ == catspec,
                    catspec == spec_catalogue(piece.piece_kind, piece.clr),
                    forall|jj: int|
                        0 <= jj < catspec.len() ==> -8 <= (#[trigger] catspec[jj]).0 <= 8 && -8
                            <= catspec[jj].1 <= 8,
                    j <= cat@.len(),
                    forall|mv: Move| #[trigger] moves@.contains(mv) <==> (spec_is_legal(state@, mv)
                        && (square_index(mv.from) < k1 || (mv.from == left && in_cat_prefix(
                        left,
                        catspec,
                        j as int,
                        mv.to,
                    )))),
                decreases cat@.len() - j,
            {
                let right = left.add(cat[j]);
                let mv = Move::new(left, right);
                let ok = can_do_move(state, mv, true, false);
                if ok {
                    moves.push(mv);
                }
                proof {
                    assert(right == coord_plus(left, catspec[j as int]));
                    assert forall|mv2: Move| #[trigger] moves@.contains(mv2) <==> (spec_is_legal(
                        state@,
                        mv2,
                    ) && (square_index(mv2.from) < k1 || (mv2.from == left && in_cat_prefix(
                        left,
                        catspec,
                        j as int + 1,
                        mv2.to,
                    )))) by {
                        if ok && mv2 == mv {
                            assert(in_cat_prefix(left, catspec, j as int + 1, mv2.to));
                        }
                        if in_cat_prefix(left, catspec, j as int, mv2.to) {
                            let jj = choose|jj: int|
                                0 <= jj < j as int && mv2.to == coord_plus(
                                    left,
                                    #[trigger] catspec[jj],
                                );
                            assert(in_cat_prefix(left, catspec, j as int + 1, mv2.to));
                        }
                        if spec_is_legal(state@, mv2) && mv2.from == left && in_cat_prefix(
                            left,
                            catspec,
                            j as int + 1,
                            mv2.to,
                        ) && !in_cat_prefix(left, catspec, j as int, mv2.to) {
                            let jj = choose|jj: int|
                                0 <= jj < j as int + 1 && mv2.to == coord_plus(
                                    left,
                                    #[trigger] catspec[jj],
                                );
                            assert(jj == j as int);
                            assert(mv2.to == right);
                            assert(mv2 == mv);
                            assert(ok);
                        }
                    }
                }
                j += 1;
            }
            if piece.piece_kind == PieceKind::King {
                let mv1 = Move::new_with(left, left.add(Coord(2, 0)), None);
                if can_do_move(state, mv1, true, false) {
                    moves.push(mv1);
                }
                let mv2c = Move::new_with(left, left.add(Coord(-2, 0)), None);
                if can_do_move(state, mv2c, true, false) {
                    moves.push(mv2c);
                }
                proof {
                    assert forall|mv2: Move| #[trigger] moves@.contains(mv2) <==> (spec_is_legal(
                        state@,
                        mv2,
                    ) && (square_index(mv2.from) < k1 + 1)) by {
                        if spec_is_legal(state@, mv2) && square_index(mv2.from) < k1 + 1
                            && !moves@.contains(mv2) {
                            if square_index(mv2.from) == k1 {
                                lemma_square_index(mv2.from);
                                assert(mv2.from == left);
                                lemma_catalogue_complete(state@, mv2);
                                if castle_candidate(mv2.from, mv2.to) && !in_cat_prefix(
                                    left,
                                    catspec,
                                    catspec.len() as int,
                                    mv2.to,
                                ) {
                                    if mv2.to.0 == mv2.from.0 + 2 {
                                        assert(mv2 == mv1);
                                    } else {
                                        assert(mv2 == mv2c);
                                    }
                                    assert(false);
                                } else {
                                    assert(false);
                                }
                            }
                        }
                    }
                }
            } else {
                proof {
                    assert forall|mv2: Move| #[trigger] moves@.contains(mv2) <==> (spec_is_legal(
                        state@,
                        mv2,
                    ) && (square_index(mv2.from) < k1 + 1)) by {
                        if spec_is_legal(state@, mv2) && square_index(mv2.from) < k1 + 1
                            && !moves@.contains(mv2) {
                            if square_index(mv2.from) == k1 {
                                lemma_square_index(mv2.from);
                                assert(mv2.from == left);
                                lemma_catalogue_complete(state@, mv2);
                                assert(false);
                            }
                        }
                    }
                }
            }
        } else {
            proof {
                assert forall|mv2: Move| #[trigger] moves@.contains(mv2) <==> (spec_is_legal(
                    state@,
                    mv2,
                ) && (square_index(mv2.from) < k1 + 1)) by {
                    if spec_is_legal(state@, mv2) && square_index(mv2.from) == k1 {
                        lemma_square_index(mv2.from);
                        assert(mv2.from == left);
                        assert(false);
                    }
                }
            }
        }
        k1 += 1;
    }
    proof {
        assert forall|mv: Move| #[trigger] moves@.contains(mv) <==> spec_is_legal(state@, mv) by {
            if spec_is_legal(state@, mv) {
                lemma_square_index(mv.from);
            }
        }
    }
    moves
}

/// Enumerate every legal move by brute force: try all from-to square
/// pairs. A slower oracle with the same contract as
/// [`get_available_moves`]; both therefore agree as sets of moves.
pub fn get_available_moves_slow(state: &ChessState) -> (r: Vec<Move>)
    requires
        state.wf(),
    ensures
        forall|mv: Move| #[trigger] r@.contains(mv) <==> spec_is_legal(state@, mv),
{
    let squares = all_squares();
    let mut moves: Vec<Move> = Vec::new();
    let mut k1: usize = 0;
    while k1 < 64
        invariant
            state.wf(),
            squares@.len() == 64,
            forall|kk: int| 0 <= kk < 64 ==> #[trigger] squares@[kk] == square_at(kk),
            k1 <= 64,
            forall|mv: Move| #[trigger] moves@.contains(mv) <==> (spec_is_legal(state@, mv)
                && square_index(mv.from) < k1),
        decreases 64 - k1,
    {
        let left = squares[k1];
        proof {
            assert(spec_on_board(left));
        }
        let maybe_cur_piece = state.pieces_data.get(left);
        let wanted: bool = match maybe_cur_piece {
            Some(p) => p.clr == state.current,
            None => false,
        };
        if wanted {
            let mut k2: usize = 0;
            while k2 < 64
                invariant
                    state.wf(),
                    squares@.len() == 64,
                    forall|kk: int| 0 <= kk < 64 ==> #[trigger] squares@[kk] == square_at(kk),
                    k1 < 64,
                    left == square_at(k1 as int),
                    k2 <= 64,
                    forall|mv: Move| #[trigger] moves@.contains(mv) <==> (spec_is_legal(state@, mv)
                        && (square_index(mv.from) < k1 || (mv.from == left && square_index(mv.to)
                        < k2))),
                decreases 64 - k2,
            {
                let right = squares[k2];
                let mv = Move::new(left, right);
                let ok = can_do_move(state, mv, true, false);
                if ok {
                    moves.push(mv);
                }
                proof {
                    assert forall|mv2: Move| #[trigger] moves@.contains(mv2) <==> (spec_is_legal(
                        state@,
                        mv2,
                    ) && (square_index(mv2.from) < k1 || (mv2.from == left && square_index(mv2.to)
                        < k2 + 1))) by {
                        if spec_is_legal(state@, mv2) && mv2.from == left && square_index(mv2.to)
                            == k2 && !(square_index(mv2.from) < k1) {
                            lemma_square_index(mv2.to);
                            assert(mv2.to == right);
                            assert(mv2 == mv);
                        }
                    }
                }
                k2 += 1;
            }
            proof {
                assert forall|mv2: Move| #[trigger] moves@.contains(mv2) <==> (spec_is_legal(
                    state@,
                    mv2,
                ) && (square_index(mv2.from) < k1 + 1)) by {
                    if spec_is_legal(state@, mv2) && square_index(mv2.from) == k1 {
                        lemma_square_index(mv2.from);
                        lemma_square_index(mv2.to);
                    }
                }
            }
        } else {
            proof {
                assert forall|mv2: Move| #[trigger] moves@.contains(mv2) <==> (spec_is_legal(
                    state@,
                    mv2,
                ) && (square_index(mv2.from) < k1 + 1)) by {
                    if spec_is_legal(state@, mv2) && square_index(mv2.from) == k1 {
                        lemma_square_index(mv2.from);
                        assert(mv2.from == left);
                        assert(false);
                    }
                }
            }
        }
        k1 += 1;
    }
    proof {
        assert forall|mv: Move| #[trigger] moves@.contains(mv) <==> spec_is_legal(state@, mv) by {
            if spec_is_legal(state@, mv) {
                lemma_square_index(mv.from);
            }
        }
    }
    moves
}

// ------------------------------------------------------------------
// Status queries
// ------------------------------------------------------------------
/// The side to move stands in check.
pub open spec fn spec_in_check(m: StateModel) -> bool {
    match spec_first_king(m, m.current) {
        Some(kc) => spec_can_be_attacked(m, kc) == Ok::<bool, ChessError>(true),
        None => false,
    }
}

pub open spec fn spec_no_moves(m: StateModel) -> bool {
    forall|mv: Move| !spec_is_legal(m, mv)
}

pub open spec fn spec_is_checkmate(m: StateModel) -> bool {
    spec_in_check(m) && spec_no_moves(m)
}

pub open spec fn spec_is_stalemate(m: StateModel) -> bool {
    !spec_in_check(m) && spec_no_moves(m)
}

/// Whether the side to move is in check. The position must hold its king.
pub fn is_check(state: &ChessState) -> (r: bool)
    requires
        state.wf(),
        state@.has_king(state@.current),
    ensures
        r == spec_in_check(state@),
{
    let king_pos = find_king_pos(state, state.current);
    let att = can_be_attacked_in_one_move(state, king_pos);
    match att {
        Ok(x) => x,
        Err(_) => false,
    }
}

/// Whether the side to move is checkmated: in check with no legal move.
/// The position must hold the side's king.
pub fn is_lost_condition(state: &ChessState) -> (r: bool)
    requires
        state.wf(),
        state@.has_king(state@.current),
    ensures
        r == spec_is_checkmate(state@),
{
    let king_pos = find_king_pos(state, state.current);
    let att = can_be_attacked_in_one_move(state, king_pos);
    let checked: bool = match att {
        Ok(x) => x,
        Err(_) => false,
    };
    if !checked {
        return false;
    }
    let moves = get_available_moves(state);
    let none_left = moves.len() == 0;
    proof {
        if none_left {
            assert forall|mv: Move| !spec_is_legal(state@, mv) by {
                assert(!moves@.contains(mv));
            }
        } else {
            assert(moves@.contains(moves@[0]));
        }
    }
    none_left
}

/// Run legality; if the move is legal, fold its effects into the position.
/// On an error the position is left untouched.
pub fn apply_move(state: &mut ChessState, b: Move) -> (r: Result<(), ChessError>)
    requires
        old(state).wf(),
    ensures
        final(state).wf(),
        (r is Ok) == (spec_check_move(old(state)@, b, true, false) is Ok),
        match spec_check_move(old(state)@, b, true, false) {
            Ok(es) => r is Ok && final(state)@ == apply_effects_model(old(state)@, es),
            Err(e) => r == Err::<(), ChessError>(e) && final(state)@ == old(state)@,
        },
        r is Ok ==> final(state)@.current == old(state)@.current.rev(),
        r is Ok ==> castling_weaker(final(state)@, old(state)@),
{
    let res = check_move(state, b, true, false);
    match res {
        Err(e) => Err(e),
        Ok(effects) => {
            proof {
                lemma_spec_check_shape(old(state)@, b, true, false);
                lemma_move_flips_side(old(state)@, b, true, false);
                lemma_effects_castling_weaker(old(state)@, effects@);
            }
            EffectHelper::apply_effects(&effects, state);
            Ok(())
        },
    }
}

} // verus!

//! Core data model: coordinates, pieces, the board container, positions,
//! moves, and the primitive mutations ("effects") a legal move compiles to.
//!
//! Coordinates are pairs `(file, rank)`, both in `1..=8` when they describe a
//! board square. Rank 8 is stored in row 0 of the board grid, so the grid
//! prints top-down the way a board diagram does.

use vstd::math::abs;
use vstd::prelude::*;

verus! {

#[derive(Debug, Clone, Copy, PartialEq, Eq, Hash, Structural)]
pub enum PieceKind {
    Pawn,
    Knight,
    Bishiop,
    Rook,
    Queen,
    King,
}

#[derive(Debug, Clone, Copy, PartialEq, Eq, Hash, Structural)]
pub enum Color {
    Black,
    White,
}

#[derive(Debug, Clone, Copy, PartialEq, Eq, Structural)]
pub struct ColoredPiece {
    pub piece_kind: PieceKind,
    pub clr: Color,
}

impl ColoredPiece {
    pub fn new(piece_kind: PieceKind, clr: Color) -> (r: ColoredPiece)
        ensures
            r == (ColoredPiece { piece_kind, clr }),
    {
        ColoredPiece { piece_kind, clr }
    }
}

/// A `(file, rank)` pair. `Coord(1, 1)` is square a1, `Coord(8, 8)` is h8.
#[derive(Debug, Clone, Copy, PartialEq, Eq, Hash, Structural)]
pub struct Coord(pub i32, pub i32);

#[derive(Debug, Clone, Copy, PartialEq, Eq, Structural)]
pub enum CastlingType {
    KingSide,
    QueenSide,
}

#[derive(Debug, Clone, Copy, PartialEq, Eq, Structural)]
pub struct CastlingAvailability {
    pub king_side: bool,
    pub queen_side: bool,
}

impl CastlingAvailability {
    pub fn none() -> (r: CastlingAvailability)
        ensures
            r == (CastlingAvailability { king_side: false, queen_side: false }),
    {
        CastlingAvailability { king_side: false, queen_side: false }
    }
}

impl Color {
    pub open spec fn rev(self) -> Color {
        match self {
            Color::Black => Color::White,
            Color::White => Color::Black,
        }
    }

    pub fn reverse(&self) -> (r: Color)
        ensures
            r == self.rev(),
    {
        match self {
            Color::Black => Color::White,
            Color::White => Color::Black,
        }
    }

    /// Index of this color in the castling table: White is 0, Black is 1.
    pub open spec fn index(self) -> int {
        match self {
            Color::Black => 1int,
            Color::White => 0int,
        }
    }

    pub fn repr(&self) -> (r: usize)
        ensures
            r as int == self.index(),
    {
        match self {
            Color::Black => 1,
            Color::White => 0,
        }
    }
}

/// Rank step that means "forward" for this color: +1 for White, -1 for Black.
pub open spec fn forward_of(c: Color) -> int {
    match c {
        Color::Black => -1int,
        Color::White => 1int,
    }
}

/// Spec-level coordinate displacement (componentwise sum).
pub open spec fn coord_plus(a: Coord, b: Coord) -> Coord {
    Coord((a.0 + b.0) as i32, (a.1 + b.1) as i32)
}

pub open spec fn spec_on_board(c: Coord) -> bool {
    1 <= c.0 <= 8 && 1 <= c.1 <= 8
}

impl Coord {
    /// Reflect a displacement through the rank axis for Black, so that pawn
    /// "forward" can be written once for both colors.
    pub open spec fn pov_dir(self, c: Color) -> Coord {
        match c {
            Color::Black => Coord(self.0, (-(self.1 as int)) as i32),
            Color::White => self,
        }
    }

    pub fn point_of_view_dir(&self, c: Color) -> (r: Coord)
        requires
            self.1 > i32::MIN,
        ensures
            r == self.pov_dir(c),
    {
        match c {
            Color::Black => Coord(self.0, -self.1),
            Color::White => *self,
        }
    }

    pub fn is_describing_position(self) -> (r: bool)
        ensures
            r == spec_on_board(self),
    {
        self.0 >= 1 && self.0 <= 8 && self.1 >= 1 && self.1 <= 8
    }

    pub open spec fn spec_row_pov(u: int, c: Color) -> int {
        match c {
            Color::Black => 9 - u,
            Color::White => u,
        }
    }

    /// A rank seen from this color's side: rank `u` for White, `9 - u` for Black.
    pub fn row_point_of_view(u: i32, c: Color) -> (r: i32)
        requires
            u >= -2147483638,
        ensures
            r as int == Coord::spec_row_pov(u as int, c),
    {
        match c {
            Color::Black => 9 - u,
            Color::White => u,
        }
    }

    pub fn make_x(u: i32) -> (r: Coord)
        ensures
            r == Coord(u, 0),
    {
        Coord(u, 0)
    }

    pub fn make_y(u: i32) -> (r: Coord)
        ensures
            r == Coord(0, u),
    {
        Coord(0, u)
    }

    pub fn x(&self) -> (r: i32)
        ensures
            r == self.0,
    {
        self.0
    }

    pub fn y(&self) -> (r: i32)
        ensures
            r == self.1,
    {
        self.1
    }

    pub fn map<F: Fn(i32) -> i32>(&self, f: F) -> (r: Coord)
        requires
            call_requires(f, (self.0,)),
            call_requires(f, (self.1,)),
        ensures
            call_ensures(f, (self.0,), r.0),
            call_ensures(f, (self.1,), r.1),
    {
        Coord(f(self.0), f(self.1))
    }

    pub open spec fn spec_sign(v: int) -> int {
        if v > 0 {
            1int
        } else if v < 0 {
            -1int
        } else {
            0int
        }
    }

    pub fn piecewise_sign(&self) -> (r: Coord)
        ensures
            r.0 as int == Coord::spec_sign(self.0 as int),
            r.1 as int == Coord::spec_sign(self.1 as int),
    {
        let x: i32 = if self.0 > 0 {
            1
        } else if self.0 < 0 {
            -1
        } else {
            0
        };
        let y: i32 = if self.1 > 0 {
            1
        } else if self.1 < 0 {
            -1
        } else {
            0
        };
        Coord(x, y)
    }

    pub fn piecewise_abs(&self) -> (r: Coord)
        requires
            self.0 > i32::MIN,
            self.1 > i32::MIN,
        ensures
            r.0 as int == abs(self.0 as int),
            r.1 as int == abs(self.1 as int),
    {
        let x: i32 = if self.0 < 0 {
            -self.0
        } else {
            self.0
        };
        let y: i32 = if self.1 < 0 {
            -self.1
        } else {
            self.1
        };
        Coord(x, y)
    }

    /// Componentwise sum.
    pub fn add(self, rhs: Coord) -> (r: Coord)
        requires
            i32::MIN <= self.0 + rhs.0 <= i32::MAX,
            i32::MIN <= self.1 + rhs.1 <= i32::MAX,
        ensures
            r == coord_plus(self, rhs),
    {
        Coord(self.0 + rhs.0, self.1 + rhs.1)
    }

    /// Componentwise difference.
    pub fn sub(self, rhs: Coord) -> (r: Coord)
        requires
            i32::MIN <= self.0 - rhs.0 <= i32::MAX,
            i32::MIN <= self.1 - rhs.1 <= i32::MAX,
        ensures
            r.0 == self.0 - rhs.0,
            r.1 == self.1 - rhs.1,
    {
        Coord(self.0 - rhs.0, self.1 - rhs.1)
    }

    /// Componentwise scaling.
    pub fn mul(self, rhs: i32) -> (r: Coord)
        requires
            i32::MIN <= self.0 * rhs <= i32::MAX,
            i32::MIN <= self.1 * rhs <= i32::MAX,
        ensures
            r.0 == self.0 * rhs,
            r.1 == self.1 * rhs,
    {
        Coord(self.0 * rhs, self.1 * rhs)
    }
}

/// The 8×8 grid of squares. Row 0 holds rank 8, row 7 holds rank 1.
#[derive(Debug, Clone)]
pub struct BoardPiecesState {
    v: Vec<Vec<Option<ColoredPiece>>>,
}

pub open spec fn wf_grid(g: Seq<Seq<Option<ColoredPiece>>>) -> bool {
    g.len() == 8 && forall|i: int| 0 <= i < 8 ==> (#[trigger] g[i]).len() == 8
}

/// The piece (if any) on square `c` of grid `g`; meaningful when `c` is on
/// the board and `g` is well formed.
pub open spec fn grid_at(g: Seq<Seq<Option<ColoredPiece>>>, c: Coord) -> Option<ColoredPiece> {
    g[8 - c.1 as int][c.0 as int - 1]
}

pub open spec fn grid_set(
    g: Seq<Seq<Option<ColoredPiece>>>,
    c: Coord,
    p: Option<ColoredPiece>,
) -> Seq<Seq<Option<ColoredPiece>>> {
    g.update(8 - c.1 as int, g[8 - c.1 as int].update(c.0 as int - 1, p))
}

impl View for BoardPiecesState {
    type V = Seq<Seq<Option<ColoredPiece>>>;

    closed spec fn view(&self) -> Seq<Seq<Option<ColoredPiece>>> {
        Seq::new(self.v@.len(), |i: int| self.v@[i]@)
    }
}

impl BoardPiecesState {
    pub fn new(v: Vec<Vec<Option<ColoredPiece>>>) -> (r: Option<BoardPiecesState>)
        ensures
            match r {
                Some(b) => wf_grid(b@) && b@ == Seq::new(v@.len(), |i: int| v@[i]@),
                None => !(v@.len() == 8 && forall|i: int|
                    0 <= i < 8 ==> (#[trigger] v@[i]@).len() == 8),
            },
    {
        if v.len() != 8 {
            return None;
        }
        let mut i: usize = 0;
        while i < 8
            invariant
                i <= 8,
                v@.len() == 8,
                forall|k: int| 0 <= k < i ==> (#[trigger] v@[k]@).len() == 8,
            decreases 8 - i,
        {
            if v[i].len() != 8 {
                return None;
            }
            i += 1;
        }
        Some(BoardPiecesState { v })
    }

    pub fn get_ref(&self) -> (r: &Vec<Vec<Option<ColoredPiece>>>)
        ensures
            r@.len() == self@.len(),
            forall|i: int| 0 <= i < r@.len() ==> (#[trigger] r@[i]@) == self@[i],
    {
        &self.v
    }

    /// Grid indices `(row, column)` of an on-board coordinate.
    pub fn translate_to_raw(c: Coord) -> (r: Option<(usize, usize)>)
        ensures
            match r {
                Some(t) => spec_on_board(c) && t.0 as int == 8 - c.1 as int && t.1 as int == c.0
                    as int - 1,
                None => !spec_on_board(c),
            },
    {
        if !Coord::is_describing_position(c) {
            return None;
        }
        Some(((8 - c.1) as usize, (c.0 - 1) as usize))
    }

    pub fn get(&self, c: Coord) -> (r: Option<ColoredPiece>)
        requires
            wf_grid(self@),
            spec_on_board(c),
        ensures
            r == grid_at(self@, c),
    {
        let (a, b) = Self::translate_to_raw(c).unwrap();
        proof {
            assert(self@[a as int] == self.v@[a as int]@);
        }
        self.v[a][b]
    }

    pub fn set(&mut self, c: Coord, p: Option<ColoredPiece>)
        requires
            wf_grid(old(self)@),
            spec_on_board(c),
        ensures
            final(self)@ == grid_set(old(self)@, c, p),
            wf_grid(final(self)@),
    {
        let (a, b) = Self::translate_to_raw(c).unwrap();
        proof {
            assert(self@[a as int] == self.v@[a as int]@);
        }
        let row: &mut Vec<Option<ColoredPiece>> = &mut self.v[a];
        row[b] = p;
        proof {
            assert(final(self)@ =~= grid_set(old(self)@, c, p));
            assert forall|i: int| 0 <= i < 8 implies (#[trigger] final(self)@[i]).len() == 8 by {
                assert(old(self)@[i].len() == 8);
            }
        }
    }

    /// A fresh board holding the same pieces.
    pub fn duplicate(&self) -> (r: BoardPiecesState)
        requires
            wf_grid(self@),
        ensures
            r@ == self@,
    {
        let mut v: Vec<Vec<Option<ColoredPiece>>> = Vec::new();
        let mut i: usize = 0;
        while i < 8
            invariant
                wf_grid(self@),
                i <= 8,
                v@.len() == i,
                forall|k: int| 0 <= k < i ==> (#[trigger] v@[k]@) == self@[k],
            decreases 8 - i,
        {
            let mut row: Vec<Option<ColoredPiece>> = Vec::new();
            let mut j: usize = 0;
            while j < 8
                invariant
                    wf_grid(self@),
                    i < 8,
                    j <= 8,
                    row@.len() == j,
                    forall|k: int| 0 <= k < j ==> row@[k] == self@[i as int][k],
                decreases 8 - j,
            {
                proof {
                    assert(self@[i as int] == self.v@[i as int]@);
                }
                row.push(self.v[i][j]);
                j += 1;
            }
            proof {
                assert(row@ =~= self@[i as int]);
            }
            v.push(row);
            i += 1;
        }
        let r = BoardPiecesState { v };
        proof {
            assert(r@ =~= self@);
        }
        r
    }
}

/// A whole position: pieces, side to move, castling rights, en-passant target.
#[derive(Debug, Clone)]
pub struct ChessState {
    pub pieces_data: BoardPiecesState,
    pub current: Color,
    /// White's rights at index 0, Black's at index 1.
    pub castling: [CastlingAvailability; 2],
    pub en_passant: Option<Coord>,
}

/// The mathematical value of a [`ChessState`].
pub ghost struct StateModel {
    pub board: Seq<Seq<Option<ColoredPiece>>>,
    pub current: Color,
    pub castling: Seq<CastlingAvailability>,
    pub en_passant: Option<Coord>,
}

impl View for ChessState {
    type V = StateModel;

    open spec fn view(&self) -> StateModel {
        StateModel {
            board: self.pieces_data@,
            current: self.current,
            castling: self.castling@,
            en_passant: self.en_passant,
        }
    }
}

impl StateModel {
    pub open spec fn wf(self) -> bool {
        wf_grid(self.board) && self.castling.len() == 2
    }

    pub open spec fn at(self, c: Coord) -> Option<ColoredPiece> {
        grid_at(self.board, c)
    }

    pub open spec fn castling_of(self, c: Color) -> CastlingAvailability {
        self.castling[c.index()]
    }

    /// There is a king of color `clr` somewhere on the board.
    pub open spec fn has_king(self, clr: Color) -> bool {
        exists|c: Coord|
            spec_on_board(c) && #[trigger] self.at(c) == Some(
                ColoredPiece { piece_kind: PieceKind::King, clr },
            )
    }
}

impl ChessState {
    pub fn new(
        pieces_data: BoardPiecesState,
        current: Color,
        castling: [CastlingAvailability; 2],
        en_passant: Option<Coord>,
    ) -> (r: ChessState)
        ensures
            r@ == (StateModel {
                board: pieces_data@,
                current,
                castling: castling@,
                en_passant,
            }),
    {
        ChessState { pieces_data, current, castling, en_passant }
    }

    pub open spec fn wf(self) -> bool {
        self@.wf()
    }

    /// A fresh position equal to this one.
    pub fn duplicate(&self) -> (r: ChessState)
        requires
            self.wf(),
        ensures
            r@ == self@,
            r.wf(),
    {
        let r = ChessState {
            pieces_data: self.pieces_data.duplicate(),
            current: self.current,
            castling: [self.castling[0], self.castling[1]],
            en_passant: self.en_passant,
        };
        proof {
            assert(r@.castling =~= self@.castling);
        }
        r
    }
}

/// One primitive mutation of a position. A legal move compiles to a sequence
/// of these, which can be replayed onto the real position or onto a scratch
/// copy for king-safety testing.
#[derive(Debug, Clone, Copy, PartialEq, Eq, Structural)]
pub enum Effect {
    /// Put `p` (or nothing) on the square.
    SetSquare(Coord, Option<ColoredPiece>),
    /// Record a fresh en-passant target square.
    SetEnPassant(Coord),
    /// Clear the en-passant target, but only if it still has the given value
    /// (a pawn double step in the same move may have replaced it).
    ClearEnPassantIfSame(Option<Coord>),
    /// Withdraw one castling right of the color.
    ClearCastlingSide(Color, CastlingType),
    /// Withdraw both castling rights of the color.
    ClearCastling(Color),
    /// Hand the turn to the other color.
    FlipSide,
}

pub open spec fn effect_wf(e: Effect) -> bool {
    match e {
        Effect::SetSquare(c, _) => spec_on_board(c),
        _ => true,
    }
}

pub open spec fn effects_wf(es: Seq<Effect>) -> bool {
    forall|i: int| 0 <= i < es.len() ==> effect_wf(#[trigger] es[i])
}

pub open spec fn clear_side(a: CastlingAvailability, t: CastlingType) -> CastlingAvailability {
    match t {
        CastlingType::KingSide => CastlingAvailability { king_side: false, ..a },
        CastlingType::QueenSide => CastlingAvailability { queen_side: false, ..a },
    }
}

pub open spec fn apply_effect(m: StateModel, e: Effect) -> StateModel {
    match e {
        Effect::SetSquare(c, p) => StateModel { board: grid_set(m.board, c, p), ..m },
        Effect::SetEnPassant(c) => StateModel { en_passant: Some(c), ..m },
        Effect::ClearEnPassantIfSame(o) => if m.en_passant == o {
            StateModel { en_passant: None, ..m }
        } else {
            m
        },
        Effect::ClearCastlingSide(clr, t) => StateModel {
            castling: m.castling.update(clr.index(), clear_side(m.castling[clr.index()], t)),
            ..m
        },
        Effect::ClearCastling(clr) => StateModel {
            castling: m.castling.update(
                clr.index(),
                CastlingAvailability { king_side: false, queen_side: false },
            ),
            ..m
        },
        Effect::FlipSide => StateModel { current: m.current.rev(), ..m },
    }
}

pub open spec fn apply_effects_model(m: StateModel, es: Seq<Effect>) -> StateModel
    decreases es.len(),
{
    if es.len() == 0 {
        m
    } else {
        apply_effects_model(apply_effect(m, es[0]), es.drop_first())
    }
}

pub proof fn lemma_apply_effect_wf(m: StateModel, e: Effect)
    requires
        m.wf(),
        effect_wf(e),
    ensures
        apply_effect(m, e).wf(),
{
    match e {
        Effect::SetSquare(c, p) => {
            let g = grid_set(m.board, c, p);
            assert forall|i: int| 0 <= i < 8 implies (#[trigger] g[i]).len() == 8 by {
                assert(m.board[i].len() == 8);
            }
        },
        _ => {},
    }
}

pub proof fn lemma_apply_effects_model_wf(m: StateModel, es: Seq<Effect>)
    requires
        m.wf(),
        effects_wf(es),
    ensures
        apply_effects_model(m, es).wf(),
    decreases es.len(),
{
    if es.len() > 0 {
        lemma_apply_effect_wf(m, es[0]);
        assert(effects_wf(es.drop_first())) by {
            assert(forall|i: int|
                0 <= i < es.drop_first().len() ==> es.drop_first()[i] == es[i + 1]);
        }
        lemma_apply_effects_model_wf(apply_effect(m, es[0]), es.drop_first());
    }
}

/// Unfolding step: applying `es.push(e)` is applying `es`, then `e`.
pub proof fn lemma_apply_effects_model_push(m: StateModel, es: Seq<Effect>, e: Effect)
    ensures
        apply_effects_model(m, es.push(e)) == apply_effect(apply_effects_model(m, es), e),
    decreases es.len(),
{
    if es.len() == 0 {
        assert(es.push(e).drop_first() =~= es);
        assert(es.push(e)[0] == e);
        assert(apply_effects_model(m, es.push(e)) == apply_effects_model(
            apply_effect(m, e),
            es,
        ));
        assert(apply_effects_model(apply_effect(m, e), es) == apply_effect(m, e));
        assert(apply_effects_model(m, es) == m);
    } else {
        assert(es.push(e)[0] == es[0]);
        assert(es.push(e).drop_first() =~= es.drop_first().push(e));
        lemma_apply_effects_model_push(apply_effect(m, es[0]), es.drop_first(), e);
        assert(apply_effects_model(m, es.push(e)) == apply_effects_model(
            apply_effect(m, es[0]),
            es.drop_first().push(e),
        ));
        assert(apply_effects_model(m, es) == apply_effects_model(
            apply_effect(m, es[0]),
            es.drop_first(),
        ));
    }
}

pub struct EffectHelper {}

impl EffectHelper {
    pub fn get_change(c: Coord, p: Option<ColoredPiece>) -> (r: Effect)
        ensures
            r == Effect::SetSquare(c, p),
    {
        Effect::SetSquare(c, p)
    }

    pub fn get_unmark_castling(c: Color) -> (r: Effect)
        ensures
            r == Effect::ClearCastling(c),
    {
        Effect::ClearCastling(c)
    }

    /// Replay one effect onto a position.
    pub fn apply_one(state: &mut ChessState, e: Effect)
        requires
            old(state).wf(),
            effect_wf(e),
        ensures
            final(state)@ == apply_effect(old(state)@, e),
            final(state).wf(),
    {
        match e {
            Effect::SetSquare(c, p) => {
                state.pieces_data.set(c, p);
            },
            Effect::SetEnPassant(c) => {
                state.en_passant = Some(c);
            },
            Effect::ClearEnPassantIfSame(o) => {
                let same: bool = match (state.en_passant, o) {
                    (Some(a), Some(b)) => a == b,
                    (None, None) => true,
                    _ => false,
                };
                if same {
                    state.en_passant = None;
                }
            },
            Effect::ClearCastlingSide(clr, t) => {
                let i = clr.repr();
                let cur = state.castling[i];
                let updated = match t {
                    CastlingType::KingSide => CastlingAvailability {
                        king_side: false,
                        queen_side: cur.queen_side,
                    },
                    CastlingType::QueenSide => CastlingAvailability {
                        king_side: cur.king_side,
                        queen_side: false,
                    },
                };
                if i == 0 {
                    state.castling = [updated, state.castling[1]];
                } else {
                    state.castling = [state.castling[0], updated];
                }
                proof {
                    assert(final(state)@.castling =~= apply_effect(old(state)@, e).castling);
                }
            },
            Effect::ClearCastling(clr) => {
                let i = clr.repr();
                let updated = CastlingAvailability { king_side: false, queen_side: false };
                if i == 0 {
                    state.castling = [updated, state.castling[1]];
                } else {
                    state.castling = [state.castling[0], updated];
                }
                proof {
                    assert(final(state)@.castling =~= apply_effect(old(state)@, e).castling);
                }
            },
            Effect::FlipSide => {
                state.current = state.current.reverse();
            },
        }
    }

    /// Replay a whole effect sequence, in order.
    pub fn apply_effects(effects: &Vec<Effect>, state: &mut ChessState)
        requires
            old(state).wf(),
            effects_wf(effects@),
        ensures
            final(state)@ == apply_effects_model(old(state)@, effects@),
            final(state).wf(),
    {
        proof {
            assert(effects@.skip(0) =~= effects@);
        }
        let mut i: usize = 0;
        while i < effects.len()
            invariant
                i <= effects@.len(),
                effects_wf(effects@),
                state.wf(),
                apply_effects_model(old(state)@, effects@) == apply_effects_model(
                    state@,
                    effects@.skip(i as int),
                ),
            decreases effects@.len() - i,
        {
            proof {
                let rest = effects@.skip(i as int);
                assert(rest[0] == effects@[i as int]);
                assert(rest.drop_first() =~= effects@.skip(i as int + 1));
            }
            EffectHelper::apply_one(state, effects[i]);
            i += 1;
        }
        proof {
            assert(effects@.skip(effects@.len() as int) =~= Seq::<Effect>::empty());
        }
    }
}

/// A move order: source square, destination square, and an optional
/// promotion or castling annotation.
#[derive(Debug, Clone, Copy, PartialEq, Eq, Hash, Structural)]
pub struct Move {
    pub from: Coord,
    pub to: Coord,
    pub additional: Option<AdditionalMoveData>,
}

#[derive(Debug, Clone, Copy, PartialEq, Eq, Hash, Structural)]
pub enum AdditionalMoveData {
    Promotion(PieceKind),
    Castling,
}

impl Move {
    pub fn new(from: Coord, to: Coord) -> (r: Move)
        ensures
            r == (Move { from, to, additional: None }),
    {
        Move { from, to, additional: None }
    }

    pub fn new_with(from: Coord, to: Coord, additional: Option<AdditionalMoveData>) -> (r: Move)
        ensures
            r == (Move { from, to, additional }),
    {
        Move { from, to, additional }
    }
}

} // verus!

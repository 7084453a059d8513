//! FEN and move-string parsing.
//!
//! Each executable parser mirrors a spec function over the string's
//! character sequence; the spec functions are the authoritative grammar.

use vstd::prelude::*;

use crate::chess_raw::wf_grid;
use crate::chess_raw::AdditionalMoveData;
use crate::chess_raw::BoardPiecesState;
use crate::chess_raw::CastlingAvailability;
use crate::chess_raw::ChessState;
use crate::chess_raw::Color;
use crate::chess_raw::ColoredPiece;
use crate::chess_raw::Coord;
use crate::chess_raw::Move;
use crate::chess_raw::PieceKind;
use crate::chess_raw::StateModel;
use crate::errors::ChessError;

verus! {

// ------------------------------------------------------------------
// Piece letters
// ------------------------------------------------------------------
pub open spec fn spec_parse_piece(t: char) -> Option<ColoredPiece> {
    if t == 'P' {
        Some(ColoredPiece { piece_kind: PieceKind::Pawn, clr: Color::White })
    } else if t == 'N' {
        Some(ColoredPiece { piece_kind: PieceKind::Knight, clr: Color::White })
    } else if t == 'B' {
        Some(ColoredPiece { piece_kind: PieceKind::Bishiop, clr: Color::White })
    } else if t == 'R' {
        Some(ColoredPiece { piece_kind: PieceKind::Rook, clr: Color::White })
    } else if t == 'Q' {
        Some(ColoredPiece { piece_kind: PieceKind::Queen, clr: Color::White })
    } else if t == 'K' {
        Some(ColoredPiece { piece_kind: PieceKind::King, clr: Color::White })
    } else if t == 'p' {
        Some(ColoredPiece { piece_kind: PieceKind::Pawn, clr: Color::Black })
    } else if t == 'n' {
        Some(ColoredPiece { piece_kind: PieceKind::Knight, clr: Color::Black })
    } else if t == 'b' {
        Some(ColoredPiece { piece_kind: PieceKind::Bishiop, clr: Color::Black })
    } else if t == 'r' {
        Some(ColoredPiece { piece_kind: PieceKind::Rook, clr: Color::Black })
    } else if t == 'q' {
        Some(ColoredPiece { piece_kind: PieceKind::Queen, clr: Color::Black })
    } else if t == 'k' {
        Some(ColoredPiece { piece_kind: PieceKind::King, clr: Color::Black })
    } else {
        None
    }
}

/// The piece a FEN letter stands for: uppercase White, lowercase Black.
pub fn parse_piece_repr(t: char) -> (r: Option<ColoredPiece>)
    ensures
        r == spec_parse_piece(t),
{
    match t {
        'P' => Some(ColoredPiece::new(PieceKind::Pawn, Color::White)),
        'N' => Some(ColoredPiece::new(PieceKind::Knight, Color::White)),
        'B' => Some(ColoredPiece::new(PieceKind::Bishiop, Color::White)),
        'R' => Some(ColoredPiece::new(PieceKind::Rook, Color::White)),
        'Q' => Some(ColoredPiece::new(PieceKind::Queen, Color::White)),
        'K' => Some(ColoredPiece::new(PieceKind::King, Color::White)),
        'p' => Some(ColoredPiece::new(PieceKind::Pawn, Color::Black)),
        'n' => Some(ColoredPiece::new(PieceKind::Knight, Color::Black)),
        'b' => Some(ColoredPiece::new(PieceKind::Bishiop, Color::Black)),
        'r' => Some(ColoredPiece::new(PieceKind::Rook, Color::Black)),
        'q' => Some(ColoredPiece::new(PieceKind::Queen, Color::Black)),
        'k' => Some(ColoredPiece::new(PieceKind::King, Color::Black)),
        _ => None,
    }
}

// ------------------------------------------------------------------
// The placement field
// ------------------------------------------------------------------
pub open spec fn is_digit_char(c: char) -> bool {
    48 <= c as int <= 57
}

pub open spec fn digit_val(c: char) -> int {
    c as int - 48
}

pub open spec fn empty_grid() -> Seq<Seq<Option<ColoredPiece>>> {
    Seq::new(8, |i: int| Seq::new(8, |j: int| None::<ColoredPiece>))
}

pub open spec fn grid_of(v: Seq<Vec<Option<ColoredPiece>>>) -> Seq<Seq<Option<ColoredPiece>>> {
    Seq::new(v.len(), |i: int| v[i]@)
}

/// One placement square written at cell index `it` (row-major from the
/// top-left, so row 0 is rank 8).
pub open spec fn grid_write(
    g: Seq<Seq<Option<ColoredPiece>>>,
    it: int,
    p: ColoredPiece,
) -> Seq<Seq<Option<ColoredPiece>>> {
    g.update(it / 8, g[it / 8].update(it % 8, Some(p)))
}

/// The placement parser, one character at a time. `it` is the running cell
/// index; `lss` records the last rank boundary where a `/` was consumed.
pub open spec fn board_step(
    s: Seq<char>,
    i: int,
    it: int,
    lss: int,
    g: Seq<Seq<Option<ColoredPiece>>>,
) -> Result<Seq<Seq<Option<ColoredPiece>>>, ChessError>
    decreases s.len() - i,
{
    if i < 0 || i >= s.len() {
        Ok(g)
    } else {
        let c = s[i];
        if it % 8 == 0 && lss < it / 8 {
            if c == '/' {
                board_step(s, i + 1, it, it / 8, g)
            } else {
                Err(ChessError::ExpectedSlash(i as usize, c))
            }
        } else if is_digit_char(c) {
            if 8 - it % 8 < digit_val(c) {
                Err(ChessError::NumberOverflow(i as usize))
            } else {
                board_step(s, i + 1, it + digit_val(c), lss, g)
            }
        } else {
            match spec_parse_piece(c) {
                Some(p) => {
                    if it >= 64 {
                        Err(ChessError::UnknownPieceSymbol(i as usize))
                    } else {
                        board_step(s, i + 1, it + 1, lss, grid_write(g, it, p))
                    }
                },
                None => Err(ChessError::UnknownPieceSymbol(i as usize)),
            }
        }
    }
}

pub open spec fn spec_parse_board(s: Seq<char>) -> Result<
    Seq<Seq<Option<ColoredPiece>>>,
    ChessError,
> {
    board_step(s, 0, 0, 0, empty_grid())
}

pub proof fn lemma_grid_write_wf(g: Seq<Seq<Option<ColoredPiece>>>, it: int, p: ColoredPiece)
    requires
        wf_grid(g),
        0 <= it < 64,
    ensures
        wf_grid(grid_write(g, it, p)),
{
    let g2 = grid_write(g, it, p);
    assert forall|i: int| 0 <= i < 8 implies (#[trigger] g2[i]).len() == 8 by {
        assert(g[i].len() == 8);
    }
}

/// Parse the placement field into a board.
pub fn try_parse_fen_board(s: &str) -> (r: Result<BoardPiecesState, ChessError>)
    ensures
        match (r, spec_parse_board(s@)) {
            (Ok(b), Ok(g)) => b@ == g && wf_grid(b@),
            (Err(a), Err(e)) => a == e,
            _ => false,
        },
{
    let mut builder: Vec<Vec<Option<ColoredPiece>>> = Vec::new();
    let mut row_i: usize = 0;
    while row_i < 8
        invariant
            row_i <= 8,
            builder@.len() == row_i,
            forall|k: int| 0 <= k < row_i ==> (#[trigger] builder@[k])@ == Seq::new(
                8,
                |j: int| None::<ColoredPiece>,
            ),
        decreases 8 - row_i,
    {
        let mut row: Vec<Option<ColoredPiece>> = Vec::new();
        let mut col: usize = 0;
        while col < 8
            invariant
                col <= 8,
                row@.len() == col,
                forall|k: int| 0 <= k < col ==> row@[k] is None,
            decreases 8 - col,
        {
            row.push(None);
            col += 1;
        }
        proof {
            assert(row@ =~= Seq::new(8, |j: int| None::<ColoredPiece>));
        }
        builder.push(row);
        row_i += 1;
    }
    proof {
        assert(grid_of(builder@) =~= empty_grid());
    }

    let n = s.unicode_len();
    let mut i: usize = 0;
    let mut it: u128 = 0;
    let mut lss: u128 = 0;
    while i < n
        invariant
            n == s@.len(),
            i <= n,
            it <= 8 * (i as int),
            builder@.len() == 8,
            forall|k: int| 0 <= k < 8 ==> (#[trigger] builder@[k])@.len() == 8,
            wf_grid(grid_of(builder@)),
            spec_parse_board(s@) == board_step(
                s@,
                i as int,
                it as int,
                lss as int,
                grid_of(builder@),
            ),
        decreases n - i,
    {
        let c = s.get_char(i);
        if it % 8 == 0 && lss < it / 8 {
            lss = it / 8;
            if c == '/' {
                i += 1;
                continue ;
            } else {
                return Err(ChessError::ExpectedSlash(i, c));
            }
        }
        let cu = c as u32;
        if 48 <= cu && cu <= 57 {
            let number = (cu - 48) as u128;
            if 8 - it % 8 < number {
                return Err(ChessError::NumberOverflow(i));
            }
            it = it + number;
            i += 1;
            continue ;
        }
        let as_piece_maybe = parse_piece_repr(c);
        if let Some(as_piece) = as_piece_maybe {
            if it >= 64 {
                return Err(ChessError::UnknownPieceSymbol(i));
            }
            let ghost gpre = grid_of(builder@);
            let r_idx = (it / 8) as usize;
            let c_idx = (it % 8) as usize;
            let row: &mut Vec<Option<ColoredPiece>> = &mut builder[r_idx];
            row[c_idx] = Some(as_piece);
            proof {
                assert(grid_of(builder@) =~= grid_write(gpre, it as int, as_piece));
                lemma_grid_write_wf(gpre, it as int, as_piece);
            }
            it = it + 1;
            i += 1;
            continue ;
        }
        return Err(ChessError::UnknownPieceSymbol(i));
    }
    let res = BoardPiecesState::new(builder);
    match res {
        Some(b) => Ok(b),
        None => {
            proof {
                assert(false);
            }
            Err(ChessError::MalformedFen)
        },
    }
}

// ------------------------------------------------------------------
// The remaining FEN fields
// ------------------------------------------------------------------
pub open spec fn spec_parse_color(s: Seq<char>) -> Result<Color, ChessError> {
    if s == seq!['w'] {
        Ok(Color::White)
    } else if s == seq!['b'] {
        Ok(Color::Black)
    } else {
        Err(ChessError::UnknownColorLetter)
    }
}

/// Parse the side-to-move field: `w` or `b`.
pub fn try_parse_color(s: &str) -> (r: Result<Color, ChessError>)
    ensures
        r == spec_parse_color(s@),
{
    let n = s.unicode_len();
    if n == 1 {
        let c = s.get_char(0);
        if c == 'w' {
            proof {
                assert(s@ =~= seq!['w']);
            }
            return Ok(Color::White);
        }
        if c == 'b' {
            proof {
                assert(s@ =~= seq!['b']);
            }
            return Ok(Color::Black);
        }
    }
    proof {
        assert(s@ != seq!['w'] && s@ != seq!['b']) by {
            if s@ == seq!['w'] || s@ == seq!['b'] {
                assert(s@.len() == 1);
            }
        }
    }
    Err(ChessError::UnknownColorLetter)
}

fn str_contains_char(s: &str, ch: char) -> (r: bool)
    ensures
        r == s@.contains(ch),
{
    let n = s.unicode_len();
    let mut i: usize = 0;
    while i < n
        invariant
            n == s@.len(),
            i <= n,
            forall|k: int| 0 <= k < i ==> s@[k] != ch,
        decreases n - i,
    {
        if s.get_char(i) == ch {
            return true;
        }
        i += 1;
    }
    proof {
        assert(!s@.contains(ch)) by {
            if s@.contains(ch) {
                let k = choose|k: int| 0 <= k < s@.len() && s@[k] == ch;
            }
        }
    }
    false
}

pub open spec fn spec_parse_castling(s: Seq<char>) -> Result<Seq<CastlingAvailability>, ChessError> {
    if s.len() > 4 {
        Err(ChessError::CastlingTooLong)
    } else if s == seq!['-'] {
        Ok(
            seq![
                CastlingAvailability { king_side: false, queen_side: false },
                CastlingAvailability { king_side: false, queen_side: false },
            ],
        )
    } else {
        let white = CastlingAvailability { king_side: s.contains('K'), queen_side: s.contains('Q') };
        let black = CastlingAvailability { king_side: s.contains('k'), queen_side: s.contains('q') };
        let amount = (if s.contains('K') {
            1int
        } else {
            0int
        }) + (if s.contains('Q') {
            1int
        } else {
            0int
        }) + (if s.contains('k') {
            1int
        } else {
            0int
        }) + (if s.contains('q') {
            1int
        } else {
            0int
        });
        if amount < s.len() {
            Err(ChessError::CastlingIllegalSymbol)
        } else {
            Ok(seq![white, black])
        }
    }
}

/// Parse the castling field: `-`, or a subset of the distinct letters
/// `KQkq`. White's availability first, Black's second.
pub fn try_parse_castling(s: &str) -> (r: Result<[CastlingAvailability; 2], ChessError>)
    ensures
        match (r, spec_parse_castling(s@)) {
            (Ok(a), Ok(sq)) => a@ == sq,
            (Err(a), Err(e)) => a == e,
            _ => false,
        },
{
    let n = s.unicode_len();
    if n > 4 {
        return Err(ChessError::CastlingTooLong);
    }
    if n == 1 && s.get_char(0) == '-' {
        proof {
            assert(s@ =~= seq!['-']);
        }
        let r = [CastlingAvailability::none(), CastlingAvailability::none()];
        proof {
            assert(r@ =~= spec_parse_castling(s@).unwrap());
        }
        return Ok(r);
    }
    proof {
        assert(s@ != seq!['-']) by {
            if s@ == seq!['-'] {
                assert(s@.len() == 1);
            }
        }
    }
    let has_wk = str_contains_char(s, 'K');
    let has_wq = str_contains_char(s, 'Q');
    let has_bk = str_contains_char(s, 'k');
    let has_bq = str_contains_char(s, 'q');
    let mut amount: usize = 0;
    if has_wk {
        amount += 1;
    }
    if has_wq {
        amount += 1;
    }
    if has_bk {
        amount += 1;
    }
    if has_bq {
        amount += 1;
    }
    if amount < n {
        return Err(ChessError::CastlingIllegalSymbol);
    }
    let white = CastlingAvailability { king_side: has_wk, queen_side: has_wq };
    let black = CastlingAvailability { king_side: has_bk, queen_side: has_bq };
    let r = [white, black];
    proof {
        assert(r@ =~= spec_parse_castling(s@).unwrap());
    }
    Ok(r)
}

// ------------------------------------------------------------------
// Squares and moves
// ------------------------------------------------------------------
pub open spec fn spec_parse_optional_coord(s: Seq<char>) -> Result<Option<Coord>, ChessError> {
    if s == seq!['-'] {
        Ok(None)
    } else if s.len() != 2 {
        Err(ChessError::CoordLength)
    } else {
        Ok(Some(Coord(((s[0] as int) - 96) as i32, ((s[1] as int) - 48) as i32)))
    }
}

/// Parse a square field: `-` for "absent", else two characters read as a
/// file letter and a rank digit. No range check is made beyond the length.
pub fn try_parse_optional_coord(coord: &str) -> (r: Result<Option<Coord>, ChessError>)
    ensures
        r == spec_parse_optional_coord(coord@),
{
    let n = coord.unicode_len();
    if n == 1 && coord.get_char(0) == '-' {
        proof {
            assert(coord@ =~= seq!['-']);
        }
        return Ok(None);
    }
    proof {
        assert(coord@ != seq!['-']) by {
            if coord@ == seq!['-'] {
                assert(coord@.len() == 1);
            }
        }
    }
    if n != 2 {
        return Err(ChessError::CoordLength);
    }
    let a = coord.get_char(0);
    let b = coord.get_char(1);
    let x = (a as i32) - 96;
    let y = (b as i32) - 48;
    Ok(Some(Coord(x, y)))
}

pub open spec fn spec_parse_coord(s: Seq<char>) -> Result<Coord, ChessError> {
    match spec_parse_optional_coord(s) {
        Ok(Some(c)) => Ok(c),
        Ok(None) => Err(ChessError::DashNotAllowed),
        Err(e) => Err(e),
    }
}

/// Parse a square field that must name a real square.
pub fn try_parse_coord(coord: &str) -> (r: Result<Coord, ChessError>)
    ensures
        r == spec_parse_coord(coord@),
{
    match try_parse_optional_coord(coord) {
        Ok(Some(c)) => Ok(c),
        Ok(None) => Err(ChessError::DashNotAllowed),
        Err(e) => Err(e),
    }
}

pub open spec fn spec_parse_move(s: Seq<char>) -> Result<Move, ChessError> {
    if s.len() != 4 && s.len() != 5 {
        Err(ChessError::MoveLength)
    } else {
        match spec_parse_coord(s.subrange(0, 2)) {
            Err(e) => Err(e),
            Ok(left) => match spec_parse_coord(s.subrange(2, 4)) {
                Err(e) => Err(e),
                Ok(right) => {
                    if s.len() == 5 {
                        let chr = s[4];
                        if chr == 'c' {
                            Ok(
                                Move {
                                    from: left,
                                    to: right,
                                    additional: Some(AdditionalMoveData::Castling),
                                },
                            )
                        } else {
                            match spec_parse_piece(chr) {
                                None => Err(ChessError::WrongPromotionSymbol),
                                Some(p) => Ok(
                                    Move {
                                        from: left,
                                        to: right,
                                        additional: Some(
                                            AdditionalMoveData::Promotion(p.piece_kind),
                                        ),
                                    },
                                ),
                            }
                        }
                    } else {
                        Ok(Move { from: left, to: right, additional: None })
                    }
                },
            },
        }
    }
}

/// Parse a move string: two squares, optionally followed by `c` (a
/// castling hint) or a piece letter (a promotion request).
pub fn parse_move(a: &str) -> (r: Result<Move, ChessError>)
    ensures
        r == spec_parse_move(a@),
{
    let n = a.unicode_len();
    if n != 4 && n != 5 {
        return Err(ChessError::MoveLength);
    }
    let left = match try_parse_coord(a.substring_char(0, 2)) {
        Ok(c) => c,
        Err(e) => {
            return Err(e);
        },
    };
    let right = match try_parse_coord(a.substring_char(2, 4)) {
        Ok(c) => c,
        Err(e) => {
            return Err(e);
        },
    };
    if n == 5 {
        let chr = a.get_char(4);
        if chr == 'c' {
            return Ok(Move::new_with(left, right, Some(AdditionalMoveData::Castling)));
        }
        let promotion_kind = match parse_piece_repr(chr) {
            Some(p) => p,
            None => {
                return Err(ChessError::WrongPromotionSymbol);
            },
        };
        return Ok(
            Move::new_with(
                left,
                right,
                Some(AdditionalMoveData::Promotion(promotion_kind.piece_kind)),
            ),
        );
    }
    Ok(Move::new(left, right))
}

// ------------------------------------------------------------------
// The whole FEN string
// ------------------------------------------------------------------
/// Fields of `s` from `start` on, split at every space; `i` is the scan
/// position, `start..i` the part of the current field read so far.
pub open spec fn fields_from(s: Seq<char>, start: int, i: int) -> Seq<Seq<char>>
    decreases s.len() - i,
{
    if i < 0 || i >= s.len() {
        seq![s.subrange(start, s.len() as int)]
    } else if s[i] == ' ' {
        seq![s.subrange(start, i)] + fields_from(s, i + 1, i + 1)
    } else {
        fields_from(s, start, i + 1)
    }
}

/// The string split at every space character; empty fields kept.
pub open spec fn spec_fields(s: Seq<char>) -> Seq<Seq<char>> {
    fields_from(s, 0, 0)
}

pub open spec fn spec_parse_fen(s: Seq<char>) -> Result<StateModel, ChessError> {
    let f = spec_fields(s);
    if f.len() != 6 {
        Err(ChessError::MalformedFen)
    } else {
        match spec_parse_board(f[0]) {
            Err(e) => Err(e),
            Ok(g) => match spec_parse_color(f[1]) {
                Err(e) => Err(e),
                Ok(clr) => match spec_parse_castling(f[2]) {
                    Err(e) => Err(e),
                    Ok(castling) => match spec_parse_optional_coord(f[3]) {
                        Err(_) => Err(ChessError::EnPassantCoordLength),
                        Ok(ep) => Ok(
                            StateModel { board: g, current: clr, castling, en_passant: ep },
                        ),
                    },
                },
            },
        }
    }
}

/// Parse a whole FEN string into a position. The halfmove and fullmove
/// fields must be present but are kept opaque: they are not read.
pub fn parse_fen(s: &str) -> (r: Result<ChessState, ChessError>)
    ensures
        match (r, spec_parse_fen(s@)) {
            (Ok(st), Ok(model)) => st@ == model && st.wf(),
            (Err(a), Err(e)) => a == e,
            _ => false,
        },
{
    let n = s.unicode_len();
    let mut fields: Vec<&str> = Vec::new();
    let mut start: usize = 0;
    let mut i: usize = 0;
    while i < n
        invariant
            n == s@.len(),
            start <= i <= n,
            spec_fields(s@) == fields@.map_values(|f: &str| f@) + fields_from(
                s@,
                start as int,
                i as int,
            ),
        decreases n - i,
    {
        if s.get_char(i) == ' ' {
            let ghost pre = fields@;
            fields.push(s.substring_char(start, i));
            proof {
                assert(fields@.map_values(|f: &str| f@) =~= pre.map_values(|f: &str| f@).push(
                    s@.subrange(start as int, i as int),
                ));
                assert(spec_fields(s@) == fields@.map_values(|f: &str| f@) + fields_from(
                    s@,
                    i as int + 1,
                    i as int + 1,
                ));
            }
            start = i + 1;
        }
        i += 1;
    }
    let ghost pre = fields@;
    fields.push(s.substring_char(start, n));
    proof {
        assert(fields@.map_values(|f: &str| f@) =~= pre.map_values(|f: &str| f@).push(
            s@.subrange(start as int, n as int),
        ));
        assert(spec_fields(s@) =~= fields@.map_values(|f: &str| f@));
    }
    if fields.len() != 6 {
        return Err(ChessError::MalformedFen);
    }
    proof {
        assert(fields@.map_values(|f: &str| f@).len() == 6);
        assert(fields@[0]@ == spec_fields(s@)[0]);
        assert(fields@[1]@ == spec_fields(s@)[1]);
        assert(fields@[2]@ == spec_fields(s@)[2]);
        assert(fields@[3]@ == spec_fields(s@)[3]);
    }
    let pieces = match try_parse_fen_board(fields[0]) {
        Ok(b) => b,
        Err(e) => {
            return Err(e);
        },
    };
    let color = match try_parse_color(fields[1]) {
        Ok(c) => c,
        Err(e) => {
            return Err(e);
        },
    };
    let castling = match try_parse_castling(fields[2]) {
        Ok(c) => c,
        Err(e) => {
            return Err(e);
        },
    };
    let en_passant = match try_parse_optional_coord(fields[3]) {
        Ok(c) => c,
        Err(_) => {
            return Err(ChessError::EnPassantCoordLength);
        },
    };
    Ok(ChessState::new(pieces, color, castling, en_passant))
}

} // verus!

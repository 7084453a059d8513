//! FEN and move-string serialization: the exact inverse direction of the
//! parser, emitting the canonical six-field form.

use vstd::prelude::*;

use crate::chess_raw::grid_at;
use crate::chess_raw::spec_on_board;
use crate::chess_raw::wf_grid;
use crate::chess_raw::AdditionalMoveData;
use crate::chess_raw::CastlingAvailability;
use crate::chess_raw::ChessState;
use crate::chess_raw::Color;
use crate::chess_raw::ColoredPiece;
use crate::chess_raw::Coord;
use crate::chess_raw::Move;
use crate::chess_raw::PieceKind;
use crate::chess_raw::StateModel;
use crate::errors::dec_digits;
use crate::errors::dec_string;
use crate::errors::digit_char;
use crate::errors::digit_str;
use crate::errors::push_char;

verus! {

// ------------------------------------------------------------------
// Single characters
// ------------------------------------------------------------------
pub open spec fn spec_charify_piece(piece: Option<ColoredPiece>) -> char {
    match piece {
        None => ' ',
        Some(p) => {
            let lower = match p.piece_kind {
                PieceKind::Pawn => 'p',
                PieceKind::Knight => 'n',
                PieceKind::Bishiop => 'b',
                PieceKind::Rook => 'r',
                PieceKind::Queen => 'q',
                PieceKind::King => 'k',
            };
            if p.clr == Color::White {
                match p.piece_kind {
                    PieceKind::Pawn => 'P',
                    PieceKind::Knight => 'N',
                    PieceKind::Bishiop => 'B',
                    PieceKind::Rook => 'R',
                    PieceKind::Queen => 'Q',
                    PieceKind::King => 'K',
                }
            } else {
                lower
            }
        },
    }
}

/// The FEN letter for a square's content: uppercase White, lowercase
/// Black, a space for an empty square.
pub fn charify_piece(piece: Option<ColoredPiece>) -> (r: char)
    ensures
        r == spec_charify_piece(piece),
{
    match piece {
        None => ' ',
        Some(p) => match (p.piece_kind, p.clr) {
            (PieceKind::Pawn, Color::White) => 'P',
            (PieceKind::Knight, Color::White) => 'N',
            (PieceKind::Bishiop, Color::White) => 'B',
            (PieceKind::Rook, Color::White) => 'R',
            (PieceKind::Queen, Color::White) => 'Q',
            (PieceKind::King, Color::White) => 'K',
            (PieceKind::Pawn, Color::Black) => 'p',
            (PieceKind::Knight, Color::Black) => 'n',
            (PieceKind::Bishiop, Color::Black) => 'b',
            (PieceKind::Rook, Color::Black) => 'r',
            (PieceKind::Queen, Color::Black) => 'q',
            (PieceKind::King, Color::Black) => 'k',
        },
    }
}

fn piece_str(p: ColoredPiece) -> (r: &'static str)
    ensures
        r@ =~= seq![spec_charify_piece(Some(p))],
{
    proof {
        reveal_strlit("P");
        reveal_strlit("N");
        reveal_strlit("B");
        reveal_strlit("R");
        reveal_strlit("Q");
        reveal_strlit("K");
        reveal_strlit("p");
        reveal_strlit("n");
        reveal_strlit("b");
        reveal_strlit("r");
        reveal_strlit("q");
        reveal_strlit("k");
    }
    match (p.piece_kind, p.clr) {
        (PieceKind::Pawn, Color::White) => "P",
        (PieceKind::Knight, Color::White) => "N",
        (PieceKind::Bishiop, Color::White) => "B",
        (PieceKind::Rook, Color::White) => "R",
        (PieceKind::Queen, Color::White) => "Q",
        (PieceKind::King, Color::White) => "K",
        (PieceKind::Pawn, Color::Black) => "p",
        (PieceKind::Knight, Color::Black) => "n",
        (PieceKind::Bishiop, Color::Black) => "b",
        (PieceKind::Rook, Color::Black) => "r",
        (PieceKind::Queen, Color::Black) => "q",
        (PieceKind::King, Color::Black) => "k",
    }
}

pub open spec fn spec_charify_color(clr: Color) -> char {
    match clr {
        Color::Black => 'b',
        Color::White => 'w',
    }
}

/// The FEN letter for the side to move.
pub fn charify_color(clr: Color) -> (r: char)
    ensures
        r == spec_charify_color(clr),
{
    match clr {
        Color::Black => 'b',
        Color::White => 'w',
    }
}

// ------------------------------------------------------------------
// Coordinates and moves
// ------------------------------------------------------------------
pub open spec fn spec_file_char(x: int) -> char {
    if x == 1 {
        'a'
    } else if x == 2 {
        'b'
    } else if x == 3 {
        'c'
    } else if x == 4 {
        'd'
    } else if x == 5 {
        'e'
    } else if x == 6 {
        'f'
    } else if x == 7 {
        'g'
    } else {
        'h'
    }
}

fn file_str(x: i32) -> (r: &'static str)
    requires
        1 <= x <= 8,
    ensures
        r@ =~= seq![spec_file_char(x as int)],
{
    proof {
        reveal_strlit("a");
        reveal_strlit("b");
        reveal_strlit("c");
        reveal_strlit("d");
        reveal_strlit("e");
        reveal_strlit("f");
        reveal_strlit("g");
        reveal_strlit("h");
    }
    match x {
        1 => "a",
        2 => "b",
        3 => "c",
        4 => "d",
        5 => "e",
        6 => "f",
        7 => "g",
        _ => "h",
    }
}

/// The signed decimal digits of `v`.
pub open spec fn int_chars(v: int) -> Seq<char> {
    if v < 0 {
        seq!['-'] + dec_digits((-v) as nat)
    } else {
        dec_digits(v as nat)
    }
}

fn int_string(v: i32) -> (r: String)
    ensures
        r@ == int_chars(v as int),
{
    if v < 0 {
        let mut s = String::from_str("-");
        let magnitude = (-(v as i64)) as u64;
        s.append(dec_string(magnitude as usize).as_str());
        proof {
            reveal_strlit("-");
            assert(s@ =~= int_chars(v as int));
        }
        s
    } else {
        dec_string(v as usize)
    }
}

/// The text of a coordinate: algebraic like `e4` when it names a board
/// square, a diagnostic spelling otherwise.
pub open spec fn spec_coord_chars(c: Coord) -> Seq<char> {
    if spec_on_board(c) {
        seq![spec_file_char(c.0 as int), digit_char(c.1 as nat)]
    } else {
        "Corrupted("@ + int_chars(c.0 as int) + seq![','] + int_chars(c.1 as int) + seq![')']
    }
}

pub fn stringify_coord(c: Coord) -> (r: String)
    ensures
        r@ == spec_coord_chars(c),
{
    if c.is_describing_position() {
        let mut s = String::from_str(file_str(c.0));
        s.append(digit_str(c.1 as usize));
        proof {
            assert(s@ =~= spec_coord_chars(c));
        }
        s
    } else {
        let mut s = String::from_str("Corrupted(");
        s.append(int_string(c.0).as_str());
        s.append(",");
        s.append(int_string(c.1).as_str());
        s.append(")");
        proof {
            reveal_strlit(",");
            reveal_strlit(")");
            assert(","@ =~= seq![',']);
            assert(")"@ =~= seq![')']);
            assert(s@ =~= spec_coord_chars(c));
        }
        s
    }
}

/// The text of a move: the two squares, then `c` for a castling hint or
/// an uppercase piece letter for a promotion request.
pub open spec fn spec_move_chars(m: Move) -> Seq<char> {
    spec_coord_chars(m.from) + spec_coord_chars(m.to) + match m.additional {
        None => Seq::<char>::empty(),
        Some(AdditionalMoveData::Castling) => seq!['c'],
        Some(AdditionalMoveData::Promotion(kind)) => seq![
            spec_charify_piece(Some(ColoredPiece { piece_kind: kind, clr: Color::White })),
        ],
    }
}

pub fn stringify_move(m: Move) -> (r: String)
    ensures
        r@ == spec_move_chars(m),
{
    let mut s = stringify_coord(m.from);
    s.append(stringify_coord(m.to).as_str());
    match m.additional {
        None => {},
        Some(AdditionalMoveData::Castling) => {
            s.append("c");
            proof {
                reveal_strlit("c");
            }
        },
        Some(AdditionalMoveData::Promotion(kind)) => {
            s.append(piece_str(ColoredPiece::new(kind, Color::White)));
        },
    }
    proof {
        assert(s@ =~= spec_move_chars(m));
    }
    s
}

// ------------------------------------------------------------------
// The castling field
// ------------------------------------------------------------------
/// `KQkq` letters for the available rights in that fixed order, or `-`
/// when no right is left on either side.
pub open spec fn spec_castling_chars(cs: Seq<CastlingAvailability>) -> Seq<char> {
    let white = cs[0];
    let black = cs[1];
    if !white.king_side && !white.queen_side && !black.king_side && !black.queen_side {
        seq!['-']
    } else {
        (if white.king_side {
            seq!['K']
        } else {
            Seq::<char>::empty()
        }) + (if white.queen_side {
            seq!['Q']
        } else {
            Seq::<char>::empty()
        }) + (if black.king_side {
            seq!['k']
        } else {
            Seq::<char>::empty()
        }) + (if black.queen_side {
            seq!['q']
        } else {
            Seq::<char>::empty()
        })
    }
}

pub fn serialize_fen_castling_av(a: [CastlingAvailability; 2]) -> (r: String)
    ensures
        r@ == spec_castling_chars(a@),
{
    proof {
        reveal_strlit("-");
        reveal_strlit("K");
        reveal_strlit("Q");
        reveal_strlit("k");
        reveal_strlit("q");
    }
    let white = a[0];
    let black = a[1];
    if !white.king_side && !white.queen_side && !black.king_side && !black.queen_side {
        let r = String::from_str("-");
        proof {
            assert(r@ =~= spec_castling_chars(a@));
        }
        return r;
    }
    let mut builder = String::new();
    if white.king_side {
        builder.append("K");
    }
    if white.queen_side {
        builder.append("Q");
    }
    if black.king_side {
        builder.append("k");
    }
    if black.queen_side {
        builder.append("q");
    }
    proof {
        assert(builder@ =~= spec_castling_chars(a@));
    }
    builder
}

// ------------------------------------------------------------------
// The placement field
// ------------------------------------------------------------------
/// The text of one rank from file `x` on, with `counter` empty squares
/// pending from the files already walked.
pub open spec fn row_chars(
    g: Seq<Seq<Option<ColoredPiece>>>,
    y: int,
    x: int,
    counter: int,
) -> Seq<char>
    decreases 9 - x,
{
    if x < 1 || x > 8 {
        if counter > 0 {
            seq![digit_char(counter as nat)]
        } else {
            Seq::<char>::empty()
        }
    } else {
        match grid_at(g, Coord(x as i32, y as i32)) {
            Some(p) => (if counter > 0 {
                seq![digit_char(counter as nat)]
            } else {
                Seq::<char>::empty()
            }) + seq![spec_charify_piece(Some(p))] + row_chars(g, y, x + 1, 0),
            None => row_chars(g, y, x + 1, counter + 1),
        }
    }
}

/// The placement text from rank `y` down to rank 1, ranks joined by `/`.
pub open spec fn placement_from(g: Seq<Seq<Option<ColoredPiece>>>, y: int) -> Seq<char>
    decreases y,
{
    if y < 1 {
        Seq::<char>::empty()
    } else if y > 1 {
        row_chars(g, y, 1, 0) + seq!['/'] + placement_from(g, y - 1)
    } else {
        row_chars(g, y, 1, 0)
    }
}

pub open spec fn spec_placement_chars(g: Seq<Seq<Option<ColoredPiece>>>) -> Seq<char> {
    placement_from(g, 8)
}

pub fn serialize_fen_placement(s: &ChessState) -> (r: String)
    requires
        s.wf(),
    ensures
        r@ == spec_placement_chars(s@.board),
{
    let ghost g = s@.board;
    let mut builder = String::new();
    let mut y: i32 = 8;
    while y >= 1
        invariant
            s.wf(),
            g == s@.board,
            0 <= y <= 8,
            spec_placement_chars(g) == builder@ + placement_from(g, y as int),
        decreases y,
    {
        let mut counter: usize = 0;
        let mut x: i32 = 1;
        while x <= 8
            invariant
                s.wf(),
                g == s@.board,
                1 <= y <= 8,
                1 <= x <= 9,
                0 <= counter < x,
                spec_placement_chars(g) == builder@ + row_chars(g, y as int, x as int, counter as int)
                    + (if y > 1 {
                    seq!['/'] + placement_from(g, y as int - 1)
                } else {
                    Seq::<char>::empty()
                }),
            decreases 9 - x,
        {
            let c = Coord(x, y);
            match s.pieces_data.get(c) {
                Some(p) => {
                    if counter > 0 {
                        builder.append(digit_str(counter));
                        counter = 0;
                    }
                    builder.append(piece_str(p));
                },
                None => {
                    counter += 1;
                },
            }
            x += 1;
        }
        if counter > 0 {
            builder.append(digit_str(counter));
        }
        if y != 1 {
            builder.append("/");
            proof {
                reveal_strlit("/");
                assert("/"@ =~= seq!['/']);
            }
        }
        y -= 1;
    }
    proof {
        assert(builder@ =~= spec_placement_chars(g));
    }
    builder
}

// ------------------------------------------------------------------
// The whole FEN string
// ------------------------------------------------------------------
/// The canonical FEN text of a position. The halfmove and fullmove fields
/// are not tracked by the engine and are emitted as `0 1`.
pub open spec fn spec_fen_chars(m: StateModel) -> Seq<char> {
    spec_placement_chars(m.board) + seq![' '] + seq![spec_charify_color(m.current)] + seq![' ']
        + spec_castling_chars(m.castling) + seq![' '] + (match m.en_passant {
        None => seq!['-'],
        Some(c) => spec_coord_chars(c),
    }) + seq![' ', '0', ' ', '1']
}

pub fn serialize_to_fen(s: &ChessState) -> (r: String)
    requires
        s.wf(),
    ensures
        r@ == spec_fen_chars(s@),
{
    proof {
        reveal_strlit(" ");
        reveal_strlit("-");
        reveal_strlit(" 0 1");
        assert(" "@ =~= seq![' ']);
        assert("-"@ =~= seq!['-']);
        assert(" 0 1"@ =~= seq![' ', '0', ' ', '1']);
    }
    let mut builder = serialize_fen_placement(s);
    builder.append(" ");
    push_char(&mut builder, charify_color(s.current));
    builder.append(" ");
    builder.append(serialize_fen_castling_av(s.castling).as_str());
    builder.append(" ");
    match s.en_passant {
        None => {
            builder.append("-");
        },
        Some(c) => {
            builder.append(stringify_coord(c).as_str());
        },
    }
    builder.append(" 0 1");
    proof {
        assert(builder@ =~= spec_fen_chars(s@));
    }
    builder
}

} // verus!

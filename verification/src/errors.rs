//! Error values of the engine. Each variant corresponds to one stable,
//! human-readable message; [`ChessError::message`] renders it.

use vstd::prelude::*;

verus! {

use crate::chess_raw::Color;

#[derive(Debug, Clone, Copy, PartialEq, Eq, Structural)]
pub enum ChessError {
    /// A move names a square outside the board.
    MoveOffBoard,
    /// The move's source square is empty.
    NoPieceAtSource,
    /// The piece on the source square is of the color given, and it is not
    /// that color's turn.
    WrongTurn(Color),
    /// Source and destination hold pieces of the same color (the color given).
    SelfCapture(Color),
    /// The move fits no piece's geometry.
    ImpossibleMove,
    /// The move would leave the mover's own king attackable.
    KingUnsafe,
    /// An attack query names a square outside the board.
    CoordOutOfBound,
    /// An attack query names an empty square.
    NoPieceAtTarget,
    /// The FEN string does not consist of exactly six space-separated fields.
    MalformedFen,
    /// A rank boundary of the placement field lacks its `/`; carries the
    /// character index and the character found there.
    ExpectedSlash(usize, char),
    /// A digit in the placement field runs past the end of its rank; carries
    /// the character index.
    NumberOverflow(usize),
    /// The placement field holds a character that is neither a digit nor a
    /// piece letter, or a piece letter past the end of the grid; carries the
    /// character index.
    UnknownPieceSymbol(usize),
    /// The side-to-move field is neither `w` nor `b`.
    UnknownColorLetter,
    /// The castling field is longer than four characters.
    CastlingTooLong,
    /// The castling field holds a character outside `KQkq`, or repeats one.
    CastlingIllegalSymbol,
    /// The en-passant field is neither `-` nor exactly two characters.
    EnPassantCoordLength,
    /// A square field is not exactly two characters.
    CoordLength,
    /// A square field is `-` where a real square is required.
    DashNotAllowed,
    /// A move string is neither four nor five characters long.
    MoveLength,
    /// The fifth character of a move string is not a piece letter or `c`.
    WrongPromotionSymbol,
}

/// Decimal digits of `n`, most significant first.
pub open spec fn dec_digits(n: nat) -> Seq<char>
    decreases n,
{
    if n < 10 {
        seq![digit_char(n)]
    } else {
        dec_digits(n / 10).push(digit_char(n % 10))
    }
}

pub open spec fn digit_char(d: nat) -> char {
    if d == 0 {
        '0'
    } else if d == 1 {
        '1'
    } else if d == 2 {
        '2'
    } else if d == 3 {
        '3'
    } else if d == 4 {
        '4'
    } else if d == 5 {
        '5'
    } else if d == 6 {
        '6'
    } else if d == 7 {
        '7'
    } else if d == 8 {
        '8'
    } else {
        '9'
    }
}

/// Relies on std's `String::push`: appends exactly the one character.
#[verifier::external_body]
pub(crate) fn push_char(s: &mut String, c: char)
    ensures
        final(s)@ == old(s)@.push(c),
{
    s.push(c);
}

pub fn digit_str(d: usize) -> (r: &'static str)
    requires
        d < 10,
    ensures
        r@ =~= seq![digit_char(d as nat)],
{
    proof {
        reveal_strlit("0");
        reveal_strlit("1");
        reveal_strlit("2");
        reveal_strlit("3");
        reveal_strlit("4");
        reveal_strlit("5");
        reveal_strlit("6");
        reveal_strlit("7");
        reveal_strlit("8");
        reveal_strlit("9");
    }
    match d {
        0 => "0",
        1 => "1",
        2 => "2",
        3 => "3",
        4 => "4",
        5 => "5",
        6 => "6",
        7 => "7",
        8 => "8",
        _ => "9",
    }
}

/// `n` written in decimal.
pub fn dec_string(n: usize) -> (r: String)
    ensures
        r@ == dec_digits(n as nat),
    decreases n,
{
    if n < 10 {
        String::from_str(digit_str(n))
    } else {
        let mut s = dec_string(n / 10);
        push_char(&mut s, digit_str(n % 10).get_char(0));
        s
    }
}

impl ChessError {
    /// The message a caller sees for this error.
    pub open spec fn spec_message(self) -> Seq<char> {
        match self {
            ChessError::MoveOffBoard => "One of the positions in move are not on the board"@,
            ChessError::NoPieceAtSource => "Can't move non existing piece"@,
            ChessError::WrongTurn(c) => "This is not a "@ + color_name(c) + " turn"@,
            ChessError::SelfCapture(c) => "Can't move "@ + color_name(c) + " piece into another "@
                + color_name(c) + " piece"@,
            ChessError::ImpossibleMove => "Impossible move"@,
            ChessError::KingUnsafe => "king could be attacked then"@,
            ChessError::CoordOutOfBound => "coord is out of bound"@,
            ChessError::NoPieceAtTarget => "No piece at that point"@,
            ChessError::MalformedFen => "Incorrect format, fen should be 6 strings split by space"@,
            ChessError::ExpectedSlash(i, c) => "Expected \"/\" at "@ + dec_digits(i as nat)
                + " index instead found "@ + seq![c],
            ChessError::NumberOverflow(i) => "number overflows at index "@ + dec_digits(i as nat),
            ChessError::UnknownPieceSymbol(i) => "Unknown/unexpected symbol as a piece at "@
                + dec_digits(i as nat) + " index"@,
            ChessError::UnknownColorLetter => "Unknown letter color"@,
            ChessError::CastlingTooLong => "Castling data is too long"@,
            ChessError::CastlingIllegalSymbol => "Castling data contains illegal symbol"@,
            ChessError::EnPassantCoordLength => "during parsing en_passant:Coord contains more or less than two chars"@,
            ChessError::CoordLength => "Coord contains more or less than two chars"@,
            ChessError::DashNotAllowed => "\"-\" value not allowed"@,
            ChessError::MoveLength => "move should have len 4 or len 5"@,
            ChessError::WrongPromotionSymbol => "promotion data includes wrong piece symbol"@,
        }
    }

    pub fn message(&self) -> (r: String)
        ensures
            r@ == self.spec_message(),
    {
        match self {
            ChessError::MoveOffBoard => String::from_str(
                "One of the positions in move are not on the board",
            ),
            ChessError::NoPieceAtSource => String::from_str("Can't move non existing piece"),
            ChessError::WrongTurn(c) => {
                let mut s = String::from_str("This is not a ");
                s.append(color_name_str(*c));
                s.append(" turn");
                s
            },
            ChessError::SelfCapture(c) => {
                let mut s = String::from_str("Can't move ");
                s.append(color_name_str(*c));
                s.append(" piece into another ");
                s.append(color_name_str(*c));
                s.append(" piece");
                s
            },
            ChessError::ImpossibleMove => String::from_str("Impossible move"),
            ChessError::KingUnsafe => String::from_str("king could be attacked then"),
            ChessError::CoordOutOfBound => String::from_str("coord is out of bound"),
            ChessError::NoPieceAtTarget => String::from_str("No piece at that point"),
            ChessError::MalformedFen => String::from_str(
                "Incorrect format, fen should be 6 strings split by space",
            ),
            ChessError::ExpectedSlash(i, c) => {
                let mut s = String::from_str("Expected \"/\" at ");
                s.append(dec_string(*i).as_str());
                s.append(" index instead found ");
                push_char(&mut s, *c);
                s
            },
            ChessError::NumberOverflow(i) => {
                let mut s = String::from_str("number overflows at index ");
                s.append(dec_string(*i).as_str());
                s
            },
            ChessError::UnknownPieceSymbol(i) => {
                let mut s = String::from_str("Unknown/unexpected symbol as a piece at ");
                s.append(dec_string(*i).as_str());
                s.append(" index");
                s
            },
            ChessError::UnknownColorLetter => String::from_str("Unknown letter color"),
            ChessError::CastlingTooLong => String::from_str("Castling data is too long"),
            ChessError::CastlingIllegalSymbol => String::from_str(
                "Castling data contains illegal symbol",
            ),
            ChessError::EnPassantCoordLength => String::from_str(
                "during parsing en_passant:Coord contains more or less than two chars",
            ),
            ChessError::CoordLength => String::from_str(
                "Coord contains more or less than two chars",
            ),
            ChessError::DashNotAllowed => String::from_str("\"-\" value not allowed"),
            ChessError::MoveLength => String::from_str("move should have len 4 or len 5"),
            ChessError::WrongPromotionSymbol => String::from_str(
                "promotion data includes wrong piece symbol",
            ),
        }
    }
}

pub open spec fn color_name(c: Color) -> Seq<char> {
    match c {
        Color::White => "White"@,
        Color::Black => "Black"@,
    }
}

pub fn color_name_str(c: Color) -> (r: &'static str)
    ensures
        r@ == color_name(c),
{
    match c {
        Color::White => "White",
        Color::Black => "Black",
    }
}

} // verus!

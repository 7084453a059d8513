//! A chess rules engine.
//!
//! A board position travels as a FEN string at the boundary: the parser turns
//! it into a [`chess_raw::ChessState`], the rules engine enumerates or applies
//! moves on that state, and the serializer turns the state back into FEN text.
//!
//! The engine's cross-cutting guarantees are stated as proof functions in
//! [`laws`] (legality, side alternation, castling-right monotonicity, king
//! safety, status characterizations, agreement of the two move enumerators)
//! and in [`fen_laws`] (the FEN round trip).

pub mod api;
pub mod chess_raw;
pub mod errors;
pub mod fen_laws;
pub mod helpers;
pub mod laws;
pub mod logic;
pub mod parser;
pub mod serializer;

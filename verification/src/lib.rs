//! An engine for 5x5 Minishogi.
//!
//! The board is held as sets of squares, one bit for each of the 25
//! squares, beside an array of the pieces. A position carries its hands,
//! the side to move, the ply, a key that follows every change, and the keys
//! of the positions before it. Moves are generated with the rules of
//! promotion and of drops, and filtered for legality. The search is an
//! iterative-deepening alpha-beta search with a transposition table, killer
//! moves, history scores and a quiescence search, and the engine behind the
//! text protocol sets up positions and plays the moves that the search finds.
//!
//! What each function does is stated over mathematical models: `state`
//! holds the model of a position, `rules` the rules of the game,
//! `movelist` the moves in the order of their generation, `sfen` the
//! position text, and `model` the search. `theorems` and `round_trip` hold
//! what is proved of them.
pub mod attacks;
pub mod bitboard;
pub mod board;
pub mod evaluation;
pub mod hand;
pub mod model;
pub mod movegen;
pub mod movelist;
pub mod moves;
pub mod ordering;
pub mod piece;
pub mod position;
pub mod round_trip;
pub mod rules;
pub mod search;
pub mod sfen;
pub mod state;
pub mod table;
pub mod text;
pub mod theorems;
pub mod usi;
pub mod zobrist;

pub use board::Square;
pub use moves::{Move, MoveList};
pub use piece::{Color, Piece, PieceKind};
pub use position::Position;
pub use search::{SearchLimits, SearchResult, Searcher};

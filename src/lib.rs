//! A chess position and move-legality engine: board state, move generation,
//! the legality filter, the move applier and the game status.
pub mod types;
pub mod board;
pub mod rules;
pub mod movegen;
pub mod game;
pub mod laws;
pub mod codec;

pub use types::{CastlingRights, ChessError, Color, DrawReason, GameStatus, Move, Piece, PieceKind, Square};
pub use rules::Position;
pub use game::GameState;

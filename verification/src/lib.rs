//! Core state engine for a tetromino falling-block game: playfield,
//! piece table with rotation states and wall kicks, bag randomizer,
//! line clearing, and hold mechanic.

pub mod game;
pub mod misc;
pub mod pieces;
mod rng;

pub use game::ActivePiece;
pub use game::Game;
pub use game::Playfield;
pub use game::RandomGenerator;
pub use game::PLAYFIELD_HEIGHT;
pub use game::PLAYFIELD_WIDTH;
pub use game::TRUE_PLAYFIELD_HEIGHT;
pub use game::rotate_piece;
pub use game::try_move_piece;
pub use misc::Color;
pub use misc::Vec2;
pub use misc::Vec2I8;
pub use pieces::PieceBoolMatrix;
pub use pieces::PieceData;
pub use pieces::PieceMatrix;
pub use pieces::PieceState;
pub use pieces::PIECE_COUNT;

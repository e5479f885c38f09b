//! Rules engine of a six-sided star-board pegging game.
//!
//! The library models the hexagonal board geometry, generates the
//! star-shaped cell set, seeds the starting zones of the active sides,
//! validates shift and chained-jump moves, and rotates turns.

pub mod board;
pub mod hex;
pub mod laws;
pub mod moves;
pub mod phase;
pub mod side;

pub use board::Board;
pub use board::Spot;
pub use hex::HexCoord;
pub use phase::Phase;
pub use side::Player;
pub use side::SideOfStar;

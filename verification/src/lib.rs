//! A rover on a bounded rectangular grid.
//!
//! The rover is built from a textual boundary spec, can be repositioned from
//! a textual position spec, and advances by processing a command string:
//! 'L' and 'R' rotate the heading, 'M' moves one unit forward unless the move
//! would leave the grid, and every other character is ignored.

pub mod direction;
pub mod laws;
pub mod rover;
pub mod text;

pub use direction::Direction;
pub use rover::Rover;

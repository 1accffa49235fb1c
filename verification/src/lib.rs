//! Game-state core of a falling-block puzzle: grid points, four-cell blocks,
//! and the board that collects them.
//!
//! Every executable function in this crate carries a contract that is checked
//! by Verus; the few items that reach into the `arrayvec` crate are documented
//! as such where they are declared.

pub mod block;
pub mod board;
pub mod cells;
pub mod game;
pub mod point;
pub mod render;
pub mod sorting;

pub use block::{Block, BlockError, BlockShape};
pub use board::Board;
pub use game::{Command, Game, Outcome};
pub use point::Point;

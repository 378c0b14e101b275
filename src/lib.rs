//! Game-state engine for a minesweeper-style puzzle in which gophers hide
//! under the cells of a rectangular field.
//!
//! `config` resolves a field size and a difficulty into dimensions and a
//! gopher count; `placement` draws the gophers' cells at random; `grid` holds
//! the field and the game played on it.

pub mod cell;
pub mod config;
pub mod grid;
pub mod placement;

pub use cell::Cell;
pub use config::{Difficulty, FieldSize, GameConfig};
pub use grid::{ExposeResult, GopherSweeper, ToggleFlagResult};

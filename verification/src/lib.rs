//! The core of a snake game for character terminals, in the manner of
//! Nibbles: a snake eats the numbers from one to ten on a board with walls,
//! level by level.
//!
//! The board has twice the rows of the terminal: half blocks show two rows
//! of the board in one row of characters. The game is drawn into a frame
//! buffer, and the terminal is brought up to date by the difference between
//! that frame and the one drawn before.
//!
//! - [`board`]: the grid of cells, and the walk over it two rows at a time.
//! - [`raster`]: the cells of a straight wall between two cells.
//! - [`levels`]: the walls of each level, and where its snake starts.
//! - [`game`]: the rules, as a step from one state of the game to the next.
//! - [`terminal`]: the frame buffer, with its cursor and its pen.
//! - [`projector`]: how the game and its board become a frame.
//! - [`diff`]: the operations that turn the last frame into the next one.
//! - [`display`]: a model of the terminal, and the proof that those
//!   operations make it show the frame.
//! - [`session`]: what an event does to the game, and the drawing of a
//!   tick.
//! - [`clamp`]: a value held inside an interval.

pub mod board;
pub mod clamp;
pub mod diff;
pub mod display;
pub mod game;
pub mod levels;
pub mod projector;
pub mod raster;
mod rng;
pub mod session;
pub mod terminal;

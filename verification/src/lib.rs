//! Decision logic of an observatory on a planet: what the controls, the
//! notebook puzzle, the scene files and the sample accumulation do.
pub mod board;
pub mod config;
pub mod game;
pub mod input;
pub mod menu;
mod number;
pub mod order;
pub mod pathtracer;
pub mod presets;
pub mod shell;
pub mod sight;
pub mod sim;
pub mod stars;
pub mod startup;
pub mod state;
pub mod text;
pub mod topology;
pub mod ui;

pub use crate::number::{Number, Real};

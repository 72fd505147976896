use vstd::prelude::*;

pub mod food_chain;
pub mod grid;
pub mod text;
pub mod universe;

pub use food_chain::{Cell, Universe};
pub use grid::GridError;

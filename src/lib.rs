use vstd::prelude::*;

pub mod game;
pub mod grid;

pub use game::{MainGame, OutOfRange, CELLS_HEIGHT, CELLS_WIDTH, SCREEN_HEIGHT, SCREEN_WIDTH};

verus! {

} // verus!

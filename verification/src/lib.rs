//! Core of a falling-block puzzle game: board, pieces, collision,
//! gravity ticks, line clearing and scoring, all verified.
//!
//! Rendering, input polling and timing live outside this crate; the
//! engine exposes its state for drawing and takes discrete commands.

pub mod board;
pub mod game;
pub mod piece;

use vstd::prelude::*;

verus! {

/// Board width in cells.
pub const BOARD_WIDTH: usize = 10;

/// Board height in cells (row 0 is the top).
pub const BOARD_HEIGHT: usize = 20;

/// The mathematical value of a grid held as a vector of rows.
pub open spec fn grid_view<T>(v: Seq<Vec<T>>) -> Seq<Seq<T>> {
    Seq::new(v.len(), |i: int| v[i]@)
}

} // verus!

//! Conway's Game of Life on a fixed-size toroidal grid.
//!
//! The engine owns a row-major buffer of binary cells together with its
//! dimensions, counts live neighbors under wraparound at the edges, and
//! advances the whole grid one generation per call of `tick`. Callers can
//! inspect the buffer, edit single cells, reset or re-randomize the grid,
//! and obtain a text rendering of the current state.

mod cell;
mod rng;
mod universe;

pub use cell::Cell;
pub use cell::next_cell;
pub use cell::lemma_rule_table;
pub use universe::Universe;
pub use universe::dead_grid;
pub use universe::glyph;
pub use universe::lemma_corner_wrap;
pub use universe::lemma_reset_render;
pub use universe::lemma_toggle_twice;
pub use universe::names_cell;
pub use universe::wrap_dec;
pub use universe::wrap_inc;

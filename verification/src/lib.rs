//! Conway's Game of Life on a bounded grid with hard edges.
//!
//! [`grid`] holds the mathematical model of a generation and the rule that
//! leads from one generation to the next; [`conway`] holds the executable
//! engine, whose contracts are stated over that model. [`patterns`] proves
//! the fate of the empty grid, the block and the blinker, [`pixel`] names
//! the colours of the pixel projection, and [`size`] reads grid sizes
//! written as `<width>x<height>`.

pub mod conway;
pub mod error;
pub mod grid;
pub mod patterns;
pub mod pixel;
pub mod size;

//! Conway's Game of Life on a bounded grid, with the mapping from a pointer
//! position to the grid cell under it.

pub mod grid;
pub mod life;
pub mod spatial;
pub mod session;
pub mod layout;
pub mod patterns;

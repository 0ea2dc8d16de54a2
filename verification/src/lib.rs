//! Conway's Game of Life on a torus: the grid, its wrap-around coordinates,
//! the generation step and the half-height text rendering.

pub mod grid;
pub mod life;
pub mod model;
pub mod patterns;
pub mod random;
pub mod render;

pub use grid::{modulo, Grid, GridError};
pub use life::{alive_neighbours, generation};
pub use model::GridModel;
pub use render::stringify_row_pair;

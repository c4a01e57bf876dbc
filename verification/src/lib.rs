//! A static, in-memory index over a fixed set of points in 3-dimensional
//! space, built once and asked many times for the point nearest to a query.
//!
//! The points lie on an integer lattice. They are bucketed into the
//! cube-shaped cells of a uniform grid over their bounding cube; a query
//! looks at the cell it falls into, then at the cells around it, then goes
//! outward through the shells of a spiral search order that the caller
//! supplies, and scans every point if all of these are empty.
//!
//! `grid_view` says what a grid is and what a query looks at, `uniform_grid`
//! holds the grid and its search, and `grid_laws` and `spiral_laws` state
//! when the point found is the nearest of all.

pub mod bounding_box;
pub mod cube_root;
pub mod grid_laws;
pub mod grid_view;
pub mod offset3;
pub mod point;
pub mod search;
pub mod spiral_cells;
pub mod spiral_laws;
pub mod uniform_grid;

pub use crate::bounding_box::BoundingBox;
pub use crate::offset3::Offset3;
pub use crate::point::Point3;
pub use crate::spiral_cells::SpiralCell;
pub use crate::uniform_grid::UniformGrid;

//! Field of view on a bounded grid by recursive shadowcasting.
//!
//! A [`ShadowMap`] stores one state per cell. A full scan walks outward from
//! a viewer position, one row of cells per distance step and one quadrant
//! after the other, and marks every clear cell that the blocking cells leave
//! in line of sight. Slopes are exact fractions, so a cell whose centre lies
//! on the edge of an arc belongs to the arc on every machine.
//!
//! - [`grid`]: the grid, its constructors, and reads and writes that accept
//!   any position.
//! - [`slope`]: the fractions that bound an arc, and the first and last cell
//!   of a row between them.
//! - [`rotation`]: the four quarter turns that carry a sweep around the
//!   viewer.
//! - [`scan`]: what a sweep reaches, stated as a function of the obstacles,
//!   and the sweep itself.
//! - [`laws`]: what holds of every scan: obstacles stay, a second scan changes
//!   nothing, a larger radius shows no less, nothing is seen past the radius,
//!   and an obstacle beside the viewer hides exactly what lies behind it.

pub mod grid;
pub mod laws;
pub mod rotation;
pub mod scan;
pub mod slope;

pub use grid::{ShadowMap, BLOCK, EMPTY, PLAYER, VISIBLE};
pub use scan::SIGHT_RADIUS;

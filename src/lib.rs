//! Sierpinski-triangle rendering, planned as exact geometry and verified.
//!
//! Coordinates live on dyadic grids: a point at grid level `k` with integer
//! coordinates `(x, y)` stands for `(x / 2^k, y / 2^k)` in the caller's units.
//! Halving a triangle moves its children one level down, where every midpoint
//! is an integer point, so no rounding ever happens.
pub mod geometry;
pub mod paint;
pub mod render;
pub mod startup;

//! A voxel-sandbox simulation library: a dense 3D grid of cells ("atoms")
//! holding a discrete variant (solid, gas, or gas source) together with a
//! scalar pressure and a velocity vector, advanced step by step by a toy
//! diffusion process.
//!
//! Quantities are integers: one unit of pressure stands for the simulation's
//! unit pressure, and velocity components are integer counts of the same
//! scale. All update rules are exact integer arithmetic, so every contract
//! below pins the produced values down completely.

pub mod atom;
pub mod engine;
pub mod fixed;
pub mod grid;
pub mod grid2d;
pub mod math;
pub mod spread;
pub mod store;
pub mod user;

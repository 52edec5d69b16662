//! Simulation core of a falling-sand toy: a fixed-size grid of cells in
//! which particles fall under gravity, are pushed around by point forces,
//! collide and settle.  All continuous quantities (velocities, force
//! fields) are carried as fixed-point integers counting thousandths, so
//! that every step of the algorithm is exact integer arithmetic.

pub mod coords;
pub mod math;
pub mod physics;
pub mod raster;
pub mod rng;
pub mod world;

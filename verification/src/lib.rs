//! Particle-life simulation core: an attraction-matrix model, a piecewise
//! linear force law, and a per-tick integrator over a snapshot of particle
//! positions. All quantities are fixed-point numbers (see `math::SCALE`).

pub mod force;
pub mod friction;
pub mod math;
pub mod matrix;
pub mod sim;
pub mod time;

//! A two-dimensional lattice-Boltzmann (D2Q9) fluid solver on a fixed
//! rectangular grid with a circular obstacle.
//!
//! All state is kept in fixed-point integer arithmetic (see [`lattice::SCALE`]),
//! so that every stage of the per-timestep pipeline — streaming, collision,
//! and boundary enforcement — carries an exact contract.

pub mod arith;
pub mod lattice;
pub mod laws;
pub mod model;
pub mod sim;

pub use lattice::opp_of;
pub use model::EdgePolicy;
pub use model::InitProfile;
pub use sim::FluidSim;
pub use sim::Instability;

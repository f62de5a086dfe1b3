//! Lattice models on a 2D torus: geometry, per-site state containers, the
//! Ising and contact-process lattices, and the decision steps of their
//! Monte Carlo samplers.
//!
//! Randomness is supplied by callers, through closures that draw site
//! states and through the outcomes handed to the sampler steps, so the
//! same core serves any source of random numbers.

pub mod binary;
pub mod contact_process;
pub mod ising;
pub mod lattice;
pub mod mcmc;
pub mod spin;
pub mod spin_lattice;
pub mod torus;

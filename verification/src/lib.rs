//! Verified core of a diatomic-molecule simulator.
//!
//! The library computes the time evolution of a diatomic bond length under
//! one of three interatomic potentials (harmonic, Morse, Lennard-Jones):
//! element lookup, temperature-derived initial conditions, a fixed-timestep
//! velocity-Verlet integrator, and the non-negative distance post-processing.
//!
//! All quantities are held in `Fx`, a saturating fixed-point scalar with a
//! resolution of one part in 10^12, so that every arithmetic step has an
//! exact integer meaning that the contracts pin down.


pub mod elements;
pub mod fixed;
pub mod sim;

pub use elements::get_element_properties;
pub use elements::ElementProperties;
pub use fixed::Fx;

pub use sim::parse_model;
pub use sim::simulate_harmonic_oscillator;
pub use sim::simulate_lennard_jones;
pub use sim::simulate_molecule;
pub use sim::simulate_morse_potential;
pub use sim::SimError;
pub use sim::SimModel;
pub use sim::SimulationParameters;
pub use sim::SimulationResult;
pub use sim::SimulationState;

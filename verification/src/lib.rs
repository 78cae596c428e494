//! Simulation and draw planning for a radial projectile burst that is rendered
//! frame by frame into a looping animation.
//!
//! All quantities are integers in fixed-point units: lengths in millionths of
//! a pixel, angles in millionths of a degree, direction components and
//! normalized device coordinates in millionths, times in microseconds.
pub mod batch;
pub mod clock;
pub mod fixed;
pub mod spell_card;

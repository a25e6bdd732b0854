//! A deterministic particle sandbox on fixed-point integers.
//!
//! Particles of a small set of colours move in a rectangular world. Each
//! colour has a mass and a speed cap, and treats every other colour by a
//! rule: it is attracted or repelled, removes the other, or brings forth a
//! new particle. A tick decides all of that from the state at its start and
//! then moves, removes and inserts particles, so that a run is a function of
//! its start.
//!
//! The choices that a simulation of this kind has to make are made as
//! follows.
//!
//! - Numbers are fixed-point with ten fractional bits ([`fixed`]); every
//!   quotient is rounded toward zero.
//! - A particle that would leave the world stops at its edge and keeps its
//!   velocity ([`tick`]).
//! - The speed cap limits each component of the velocity ([`tick`]).
//! - Of two rules that remove or bring forth a particle on one pair of
//!   particles, only that of the particle with the lower id takes effect
//!   ([`interact`]).
//! - A particle brings forth at most one particle per tick, at rest and in
//!   its own place ([`interact`], [`tick`]).
//! - The colour of a particle never changes.
//!
//! [`rules`] holds the rule table, [`store`] the particles, [`grid`] the
//! spatial index that finds the neighbours of a particle, [`forces`] the
//! forces between pairs, [`sim`] the simulation as a whole, [`render`] what
//! a frame shows, and [`laws`] what holds of every tick. [`shell`] and
//! [`surface`] decide for a window what to do about its events.

pub mod fixed;
pub mod forces;
pub mod grid;
pub mod interact;
pub mod laws;
pub mod render;
pub mod rules;
pub mod shell;
pub mod sim;
pub mod store;
pub mod surface;
pub mod tick;

//! Particle-life interaction engine.
//!
//! Populations of coloured point particles move under pairwise,
//! colour-dependent attraction and repulsion on a toroidal plane: a
//! per-pair coefficient matrix is drawn once at startup, and every frame
//! folds a distance-banded force law over each ordered pair of particle
//! groups.  All simulation arithmetic is saturating fixed-point — a
//! quantity is a count of 1/`SCALE` units held in an `i64` — so every
//! update step is a total, deterministic function of its inputs, and the
//! contracts here pin each step exactly.  Randomness is confined to
//! matrix construction and population seeding.

pub mod config;
pub mod engine;
pub mod fixed;
pub mod matrix;
pub mod particle;
pub mod rng;
pub mod species;

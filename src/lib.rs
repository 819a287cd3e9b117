//! Procedural terrain generation: coherent fixed-point noise, threshold
//! painting, a cellular-automaton smoothing pass, random scattering and a
//! border stamp, all over a rectangular grid of typed cells.
//!
//! Every grid and noise field is addressed as `m[x][y]`, with `x` below the
//! width and `y` below the height; no stage transposes it. Noise values,
//! blend fractions and thresholds are fixed-point fractions of
//! `noise::UNIT`. All randomness is drawn from a `rand::rngs::StdRng` that
//! the caller passes in, so a seeded generator reproduces a run.
pub mod cell;
pub mod grid;
pub mod noise;
pub mod random;
pub mod map_generator;

//! Verified core of the `grass` foliage runtime: the integer logic behind
//! deterministic scattering, chunk partitioning, blade mesh topology, the
//! interaction map pixel buffer, runtime dirty tracking and diagnostics.

pub mod diagnostics;
pub mod interaction;
pub mod materials;
pub mod mesh;
pub mod rng;
pub mod scatter;
pub mod surface;
pub mod systems;
pub mod wind;

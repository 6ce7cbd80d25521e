//! Seeded gradient ("Perlin-style") noise over the unit hypercube.
//!
//! The crate verifies the deterministic integer core of the noise scheme:
//! the xorshift64 mixer, the lattice-point hash fold, the gradient bit-pattern
//! generator, the corner enumerator that walks every vertex of a unit
//! hypercube, and the row-major cell layout used when a field is sampled.
//! The floating-point interpolation around this core lives outside the
//! verified library.

pub mod corner;
pub mod field;
pub mod perlin;

//! Polynomial-ring arithmetic and encoding for a lattice-based key-encapsulation
//! mechanism over Z_q[X]/(X^256 + 1) with q = 3329: serialization, lossy
//! compression, noise sampling, the number-theoretic transform, and message
//! embedding, all bit-exact and branchless on secret data.

pub mod params;
pub mod reduce;
pub mod ntt;
pub mod cbd;
pub mod symmetric;
pub mod poly;
pub mod laws;

use vstd::prelude::*;

verus! {

/// Number of coefficients in a ring element.
pub const KYBER_N: usize = 256;

/// The prime modulus of the coefficient field.
pub const KYBER_Q: i16 = 3329;

/// Centered-binomial noise parameter.
pub const KYBER_ETA: usize = 2;

/// Length in bytes of a seed for the noise sampler.
pub const KYBER_SYMBYTES: usize = 32;

/// Length in bytes of a serialized polynomial: 256 coefficients at 12 bits each.
pub const KYBER_POLYBYTES: usize = 384;

} // verus!

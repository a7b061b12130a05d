//! The pseudorandom function used by the noise sampler: SHAKE-256 over the
//! seed and a one-byte domain-separation nonce.

use sha3::digest::{ExtendableOutput, Update, XofReader};
use vstd::prelude::*;

verus! {

/// The byte stream that SHAKE-256 produces from `seed || nonce`, truncated to
/// `len` bytes.  A pure function of its arguments: SHAKE-256 is deterministic,
/// so naming its output is sound, and no shorter description of it exists.
pub uninterp spec fn prf_bytes(seed: Seq<u8>, nonce: u8, len: int) -> Seq<u8>;

/// Relies on sha3::Shake256 (together with digest's Update, ExtendableOutput
/// and XofReader): absorbing `seed` then `nonce` and squeezing `len` bytes
/// yields a stream that depends only on those inputs, and fills the buffer
/// completely.
#[verifier::external_body]
pub fn prf(seed: &[u8], nonce: u8, len: usize) -> (out: Vec<u8>)
    ensures
        out@.len() == len,
        out@ == prf_bytes(seed@, nonce, len as int),
{
    let mut hasher = sha3::Shake256::default();
    hasher.update(seed);
    hasher.update(&[nonce]);
    let mut reader = hasher.finalize_xof();
    let mut out = vec![0u8; len];
    reader.read(&mut out);
    out
}

} // verus!

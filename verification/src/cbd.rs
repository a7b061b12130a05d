//! Centered-binomial noise: folds a pseudorandom byte stream into 256 small
//! signed coefficients.  With noise parameter eta = 2, each coefficient
//! consumes one nibble of the stream: the low two bits are added, the high
//! two bits subtracted, giving a value in [-2, 2].

use vstd::prelude::*;

verus! {

/// The coefficient that the centered-binomial fold assigns to index `k` of a
/// 128-byte stream: bits 4k and 4k+1 minus bits 4k+2 and 4k+3.
pub open spec fn cbd_coeff(buf: Seq<u8>, k: int) -> int {
    let by = buf[k / 2] as u32;
    let nib = if k % 2 == 0 {
        by & 0x0F
    } else {
        (by >> 4) & 0x0F
    };
    ((nib & 1) + ((nib >> 1) & 1)) - (((nib >> 2) & 1) + ((nib >> 3) & 1))
}

/// The low and high nibble of a byte each fold to a value whose positive and
/// negative parts are at most 2.
proof fn lemma_nibble_parts(nib: u32)
    by (bit_vector)
    ensures
        (nib & 1) + ((nib >> 1) & 1) <= 2,
        ((nib >> 2) & 1) + ((nib >> 3) & 1) <= 2,
{
}

/// Fold a 128-byte pseudorandom stream into the 256 centered-binomial
/// coefficients it determines.
pub fn cbd(buf: &Vec<u8>) -> (r: [i16; 256])
    requires
        buf@.len() == 128,
    ensures
        forall|k: int| 0 <= k < 256 ==> #[trigger] r@[k] == cbd_coeff(buf@, k),
        forall|k: int| 0 <= k < 256 ==> -2 <= #[trigger] r@[k] <= 2,
{
    let mut r: [i16; 256] = [0i16; 256];
    let mut i: usize = 0;
    while i < 128
        invariant
            buf@.len() == 128,
            i <= 128,
            forall|k: int| 0 <= k < 2 * i ==> #[trigger] r@[k] == cbd_coeff(buf@, k),
            forall|k: int| 0 <= k < 2 * i ==> -2 <= #[trigger] r@[k] <= 2,
        decreases 128 - i,
    {
        let by: u32 = buf[i] as u32;
        let lo: u32 = by & 0x0F;
        let hi: u32 = (by >> 4) & 0x0F;
        proof {
            lemma_nibble_parts(lo);
            lemma_nibble_parts(hi);
        }
        let a0: u32 = (lo & 1) + ((lo >> 1) & 1);
        let b0: u32 = ((lo >> 2) & 1) + ((lo >> 3) & 1);
        let a1: u32 = (hi & 1) + ((hi >> 1) & 1);
        let b1: u32 = ((hi >> 2) & 1) + ((hi >> 3) & 1);
        r[2 * i] = a0 as i16 - b0 as i16;
        r[2 * i + 1] = a1 as i16 - b1 as i16;
        i = i + 1;
    }
    r
}

} // verus!

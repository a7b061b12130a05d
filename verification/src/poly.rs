//! The ring element of Z_q[X]/(X^256 + 1) and every operation the
//! key-encapsulation layer above needs on it: construction, byte
//! serialization, lossy compression, deterministic noise sampling, the
//! number-theoretic transform, twisted base multiplication, domain
//! conversion, reduction, linear arithmetic, and message embedding.

use vstd::prelude::*;

verus! {

use crate::cbd::{cbd, cbd_coeff};
use crate::ntt::{basemul, basemul_even_ok, basemul_odd_ok, block_zeta, fwd_image, inv_image, invntt, lemma_mod_zero_add, ntt, to_ints, zeta64};
use crate::params::{KYBER_ETA, KYBER_N};
use vstd::arithmetic::div_mod::lemma_fundamental_div_mod_converse;
use crate::reduce::{barrett_reduce, csubq, montgomery_reduce, spec_csubq};
use crate::symmetric::{prf, prf_bytes};

/// A ring element: 256 signed 16-bit coefficients.  Depending on the last
/// operation applied, a coefficient may represent its residue class mod q by
/// any value in (-q, 2q); canonicalization to [0, q) is always explicit,
/// through `poly_csubq`.  Whether the element is in the normal or the
/// transform domain, and whether it carries Montgomery scaling, is tracked by
/// the caller through which operations were applied, as the layer above
/// expects.
#[derive(Clone, Copy)]
pub struct Poly {
    pub coeffs: [i16; 256],
}

/// All coefficients of `s` lie in `[lo, hi]`.
pub open spec fn coeffs_within(s: Seq<i16>, lo: int, hi: int) -> bool {
    forall|i: int| 0 <= i < 256 ==> lo <= #[trigger] s[i] <= hi
}

impl Default for Poly {
    /// The zero polynomial.
    fn default() -> (r: Self)
        ensures
            forall|i: int| 0 <= i < 256 ==> #[trigger] r.coeffs@[i] == 0,
    {
        Poly { coeffs: [0i16; 256] }
    }
}

impl Poly {
    /// The zero polynomial: the canonical starting point before
    /// deserialization, noise sampling, or message encoding fills it.
    pub fn new() -> (r: Self)
        ensures
            forall|i: int| 0 <= i < 256 ==> #[trigger] r.coeffs@[i] == 0,
    {
        Self::default()
    }
}

/// Canonicalize every coefficient: conditionally subtract q, mapping [0, 2q)
/// into [0, q).  Required before any byte-exact encoding.
pub fn poly_csubq(r: &mut Poly)
    requires
        coeffs_within(old(r).coeffs@, 0, 6657),
    ensures
        forall|i: int|
            0 <= i < 256 ==> #[trigger] final(r).coeffs@[i] == spec_csubq(old(r).coeffs@[i] as int),
        coeffs_within(final(r).coeffs@, 0, 3328),
{
    let mut i: usize = 0;
    while i < KYBER_N
        invariant
            coeffs_within(old(r).coeffs@, 0, 6657),
            i <= 256,
            forall|k: int| i <= k < 256 ==> #[trigger] r.coeffs@[k] == old(r).coeffs@[k],
            forall|k: int|
                0 <= k < i ==> #[trigger] r.coeffs@[k] == spec_csubq(old(r).coeffs@[k] as int),
            forall|k: int| 0 <= k < i ==> 0 <= #[trigger] r.coeffs@[k] <= 3328,
        decreases 256 - i,
    {
        r.coeffs[i] = csubq(r.coeffs[i]);
        i = i + 1;
    }
}

/// Barrett-reduce every coefficient into [0, q), preserving its residue
/// class; cheaper than a full modulo and accepts any 16-bit value.
pub fn poly_reduce(r: &mut Poly)
    ensures
        forall|i: int|
            0 <= i < 256 ==> (#[trigger] final(r).coeffs@[i] - old(r).coeffs@[i]) % 3329 == 0,
        coeffs_within(final(r).coeffs@, 0, 3328),
{
    let mut i: usize = 0;
    while i < KYBER_N
        invariant
            i <= 256,
            forall|k: int| i <= k < 256 ==> #[trigger] r.coeffs@[k] == old(r).coeffs@[k],
            forall|k: int|
                0 <= k < i ==> (#[trigger] r.coeffs@[k] - old(r).coeffs@[k]) % 3329 == 0,
            forall|k: int| 0 <= k < i ==> 0 <= #[trigger] r.coeffs@[k] <= 3328,
        decreases 256 - i,
    {
        r.coeffs[i] = barrett_reduce(r.coeffs[i]);
        i = i + 1;
    }
}

/// Convert every coefficient out of Montgomery form: multiply by
/// 2^32 mod q (= 1353) and Montgomery-reduce, so the result represents
/// `c * 2^16` in Z_q — the inverse of the 2^-16 scaling the transform
/// pipeline introduces.
pub fn poly_frommont(r: &mut Poly)
    ensures
        forall|i: int|
            0 <= i < 256 ==> ((#[trigger] final(r).coeffs@[i]) * 65536 - old(r).coeffs@[i] * 1353) % 3329
                == 0,
        coeffs_within(final(r).coeffs@, -3328, 3328),
{
    let mut i: usize = 0;
    while i < KYBER_N
        invariant
            i <= 256,
            forall|k: int| i <= k < 256 ==> #[trigger] r.coeffs@[k] == old(r).coeffs@[k],
            forall|k: int|
                0 <= k < i ==> ((#[trigger] r.coeffs@[k]) * 65536 - old(r).coeffs@[k] * 1353)
                    % 3329 == 0,
            forall|k: int| 0 <= k < i ==> -3328 <= #[trigger] r.coeffs@[k] <= 3328,
        decreases 256 - i,
    {
        r.coeffs[i] = montgomery_reduce((r.coeffs[i] as i32) * 1353);
        i = i + 1;
    }
}

/// Coefficient-wise addition, valid in both domains since the transform is
/// linear.  No reduction is performed: the caller keeps the ranges in bounds,
/// as stated by the precondition.
pub fn poly_add(r: &mut Poly, b: &Poly)
    requires
        forall|i: int|
            0 <= i < 256 ==> -32768 <= old(r).coeffs@[i] + #[trigger] b.coeffs@[i] <= 32767,
    ensures
        forall|i: int|
            0 <= i < 256 ==> #[trigger] final(r).coeffs@[i] == old(r).coeffs@[i] + b.coeffs@[i],
{
    let mut i: usize = 0;
    while i < KYBER_N
        invariant
            i <= 256,
            forall|k: int|
                0 <= k < 256 ==> -32768 <= old(r).coeffs@[k] + #[trigger] b.coeffs@[k] <= 32767,
            forall|k: int| i <= k < 256 ==> #[trigger] r.coeffs@[k] == old(r).coeffs@[k],
            forall|k: int|
                0 <= k < i ==> #[trigger] r.coeffs@[k] == old(r).coeffs@[k] + b.coeffs@[k],
        decreases 256 - i,
    {
        r.coeffs[i] = r.coeffs[i] + b.coeffs[i];
        i = i + 1;
    }
}

/// Coefficient-wise subtraction: replaces `r` by `a - r`, the operand order
/// the layer above relies on.  No reduction is performed.
pub fn poly_sub(r: &mut Poly, a: &Poly)
    requires
        forall|i: int|
            0 <= i < 256 ==> -32768 <= #[trigger] a.coeffs@[i] - old(r).coeffs@[i] <= 32767,
    ensures
        forall|i: int|
            0 <= i < 256 ==> #[trigger] final(r).coeffs@[i] == a.coeffs@[i] - old(r).coeffs@[i],
{
    let mut i: usize = 0;
    while i < KYBER_N
        invariant
            i <= 256,
            forall|k: int|
                0 <= k < 256 ==> -32768 <= #[trigger] a.coeffs@[k] - old(r).coeffs@[k] <= 32767,
            forall|k: int| i <= k < 256 ==> #[trigger] r.coeffs@[k] == old(r).coeffs@[k],
            forall|k: int|
                0 <= k < i ==> #[trigger] r.coeffs@[k] == a.coeffs@[k] - old(r).coeffs@[k],
        decreases 256 - i,
    {
        r.coeffs[i] = a.coeffs[i] - r.coeffs[i];
        i = i + 1;
    }
}

/// Apply the forward transform in place (normal order in, bit-reversed order
/// out), then Barrett-reduce every coefficient, since the butterfly
/// arithmetic leaves coefficients outside the reduced range.  Every output
/// coefficient is congruent mod q to the forward-transform image of the
/// input and lies in [0, q).
pub fn poly_ntt(r: &mut Poly)
    requires
        coeffs_within(old(r).coeffs@, -8192, 8192),
    ensures
        forall|i: int|
            0 <= i < 256 ==> ((#[trigger] final(r).coeffs@[i]) - fwd_image(
                to_ints(old(r).coeffs@),
            )[i]) % 3329 == 0,
        coeffs_within(final(r).coeffs@, 0, 3328),
{
    r.coeffs = ntt(r.coeffs);
    let ghost mid = r.coeffs@;
    poly_reduce(r);
    proof {
        assert forall|i: int| 0 <= i < 256 implies ((#[trigger] r.coeffs@[i]) - fwd_image(
            to_ints(old(r).coeffs@),
        )[i]) % 3329 == 0 by {
            lemma_mod_zero_add(
                mid[i] as int - fwd_image(to_ints(old(r).coeffs@))[i],
                r.coeffs@[i] as int - mid[i] as int,
            );
        }
    }
}

/// Apply the inverse transform in place (bit-reversed order in, normal order
/// out).  Any further reduction is the caller's responsibility, mirroring
/// the call sites of the layer above.  Every output coefficient is congruent
/// mod q to the inverse-transform image of the input (final scaling folded
/// in) and is below q in magnitude.
pub fn poly_invntt(r: &mut Poly)
    requires
        coeffs_within(old(r).coeffs@, -8192, 8192),
    ensures
        forall|i: int|
            0 <= i < 256 ==> ((#[trigger] final(r).coeffs@[i]) - inv_image(
                to_ints(old(r).coeffs@),
            )[i]) % 3329 == 0,
        coeffs_within(final(r).coeffs@, -3328, 3328),
{
    r.coeffs = invntt(r.coeffs);
}

/// Multiply two transform-domain polynomials pointwise, in blocks of four
/// coefficients: each block is two independent degree-one multiplications
/// over F_q[X]/(X^2 - z) and F_q[X]/(X^2 + z) for the block's twiddle z.
/// Outputs carry Montgomery scaling and stay below 2q in magnitude; the
/// residue class of every output is pinned exactly, and `poly_frommont`
/// converts the scaling back out.
pub fn poly_basemul(r: &mut Poly, a: &Poly, b: &Poly)
    requires
        coeffs_within(a.coeffs@, -4096, 4096),
        coeffs_within(b.coeffs@, -4096, 4096),
    ensures
        coeffs_within(final(r).coeffs@, -6657, 6657),
        forall|i: int|
            #![trigger final(r).coeffs@[4 * i]]
            0 <= i < 64 ==> {
                &&& basemul_even_ok(
                    final(r).coeffs@[4 * i] as int,
                    a.coeffs@[4 * i] as int,
                    a.coeffs@[4 * i + 1] as int,
                    b.coeffs@[4 * i] as int,
                    b.coeffs@[4 * i + 1] as int,
                    block_zeta(i),
                )
                &&& basemul_odd_ok(
                    final(r).coeffs@[4 * i + 1] as int,
                    a.coeffs@[4 * i] as int,
                    a.coeffs@[4 * i + 1] as int,
                    b.coeffs@[4 * i] as int,
                    b.coeffs@[4 * i + 1] as int,
                )
                &&& basemul_even_ok(
                    final(r).coeffs@[4 * i + 2] as int,
                    a.coeffs@[4 * i + 2] as int,
                    a.coeffs@[4 * i + 3] as int,
                    b.coeffs@[4 * i + 2] as int,
                    b.coeffs@[4 * i + 3] as int,
                    -block_zeta(i),
                )
                &&& basemul_odd_ok(
                    final(r).coeffs@[4 * i + 3] as int,
                    a.coeffs@[4 * i + 2] as int,
                    a.coeffs@[4 * i + 3] as int,
                    b.coeffs@[4 * i + 2] as int,
                    b.coeffs@[4 * i + 3] as int,
                )
            },
{
    let mut i: usize = 0;
    while i < 64
        invariant
            coeffs_within(a.coeffs@, -4096, 4096),
            coeffs_within(b.coeffs@, -4096, 4096),
            i <= 64,
            forall|k: int| 0 <= k < 4 * i ==> -6657 <= #[trigger] r.coeffs@[k] <= 6657,
            forall|m: int|
                #![trigger r.coeffs@[4 * m]]
                0 <= m < i ==> {
                    &&& basemul_even_ok(
                        r.coeffs@[4 * m] as int,
                        a.coeffs@[4 * m] as int,
                        a.coeffs@[4 * m + 1] as int,
                        b.coeffs@[4 * m] as int,
                        b.coeffs@[4 * m + 1] as int,
                        block_zeta(m),
                    )
                    &&& basemul_odd_ok(
                        r.coeffs@[4 * m + 1] as int,
                        a.coeffs@[4 * m] as int,
                        a.coeffs@[4 * m + 1] as int,
                        b.coeffs@[4 * m] as int,
                        b.coeffs@[4 * m + 1] as int,
                    )
                    &&& basemul_even_ok(
                        r.coeffs@[4 * m + 2] as int,
                        a.coeffs@[4 * m + 2] as int,
                        a.coeffs@[4 * m + 3] as int,
                        b.coeffs@[4 * m + 2] as int,
                        b.coeffs@[4 * m + 3] as int,
                        -block_zeta(m),
                    )
                    &&& basemul_odd_ok(
                        r.coeffs@[4 * m + 3] as int,
                        a.coeffs@[4 * m + 2] as int,
                        a.coeffs@[4 * m + 3] as int,
                        b.coeffs@[4 * m + 2] as int,
                        b.coeffs@[4 * m + 3] as int,
                    )
                },
        decreases 64 - i,
    {
        let ghost rpre = r.coeffs@;
        let z: i16 = zeta64(i);
        let (c0, c1) = basemul(
            a.coeffs[4 * i],
            a.coeffs[4 * i + 1],
            b.coeffs[4 * i],
            b.coeffs[4 * i + 1],
            z,
        );
        r.coeffs[4 * i] = c0;
        r.coeffs[4 * i + 1] = c1;
        let (c2, c3) = basemul(
            a.coeffs[4 * i + 2],
            a.coeffs[4 * i + 3],
            b.coeffs[4 * i + 2],
            b.coeffs[4 * i + 3],
            -z,
        );
        r.coeffs[4 * i + 2] = c2;
        r.coeffs[4 * i + 3] = c3;
        proof {
            let gi = i as int;
            assert(r.coeffs@[4 * gi] == c0);
            assert(r.coeffs@[4 * gi + 1] == c1);
            assert(r.coeffs@[4 * gi + 2] == c2);
            assert(r.coeffs@[4 * gi + 3] == c3);
            assert((-z) as int == -block_zeta(gi));
            assert(basemul_even_ok(
                c0 as int,
                a.coeffs@[4 * gi] as int,
                a.coeffs@[4 * gi + 1] as int,
                b.coeffs@[4 * gi] as int,
                b.coeffs@[4 * gi + 1] as int,
                block_zeta(gi),
            ));
            assert(basemul_even_ok(
                c2 as int,
                a.coeffs@[4 * gi + 2] as int,
                a.coeffs@[4 * gi + 3] as int,
                b.coeffs@[4 * gi + 2] as int,
                b.coeffs@[4 * gi + 3] as int,
                -block_zeta(gi),
            ));
            assert(basemul_odd_ok(
                c1 as int,
                a.coeffs@[4 * gi] as int,
                a.coeffs@[4 * gi + 1] as int,
                b.coeffs@[4 * gi] as int,
                b.coeffs@[4 * gi + 1] as int,
            ));
            assert(basemul_odd_ok(
                c3 as int,
                a.coeffs@[4 * gi + 2] as int,
                a.coeffs@[4 * gi + 3] as int,
                b.coeffs@[4 * gi + 2] as int,
                b.coeffs@[4 * gi + 3] as int,
            ));
            assert forall|m: int|
                #![trigger r.coeffs@[4 * m]]
                0 <= m < gi + 1 implies {
                &&& basemul_even_ok(
                    r.coeffs@[4 * m] as int,
                    a.coeffs@[4 * m] as int,
                    a.coeffs@[4 * m + 1] as int,
                    b.coeffs@[4 * m] as int,
                    b.coeffs@[4 * m + 1] as int,
                    block_zeta(m),
                )
                &&& basemul_odd_ok(
                    r.coeffs@[4 * m + 1] as int,
                    a.coeffs@[4 * m] as int,
                    a.coeffs@[4 * m + 1] as int,
                    b.coeffs@[4 * m] as int,
                    b.coeffs@[4 * m + 1] as int,
                )
                &&& basemul_even_ok(
                    r.coeffs@[4 * m + 2] as int,
                    a.coeffs@[4 * m + 2] as int,
                    a.coeffs@[4 * m + 3] as int,
                    b.coeffs@[4 * m + 2] as int,
                    b.coeffs@[4 * m + 3] as int,
                    -block_zeta(m),
                )
                &&& basemul_odd_ok(
                    r.coeffs@[4 * m + 3] as int,
                    a.coeffs@[4 * m + 2] as int,
                    a.coeffs@[4 * m + 3] as int,
                    b.coeffs@[4 * m + 2] as int,
                    b.coeffs@[4 * m + 3] as int,
                )
            } by {
                if m < gi {
                    assert(r.coeffs@[4 * m] == rpre[4 * m]);
                    assert(r.coeffs@[4 * m + 1] == rpre[4 * m + 1]);
                    assert(r.coeffs@[4 * m + 2] == rpre[4 * m + 2]);
                    assert(r.coeffs@[4 * m + 3] == rpre[4 * m + 3]);
                } else {
                    assert(m == gi);
                }
            }
        }
        i = i + 1;
    }
}

/// Sample a noise polynomial deterministically from a 32-byte seed and a
/// one-byte nonce: 128 pseudorandom bytes from the PRF, folded through the
/// centered-binomial transform.  Identical inputs always give identical
/// output.
pub fn poly_getnoise(r: &mut Poly, seed: &[u8], nonce: u8)
    requires
        seed@.len() == 32,
    ensures
        forall|k: int|
            0 <= k < 256 ==> #[trigger] final(r).coeffs@[k] == cbd_coeff(
                prf_bytes(seed@, nonce, 128),
                k,
            ),
        coeffs_within(final(r).coeffs@, -2, 2),
{
    let buf = prf(seed, nonce, KYBER_ETA * KYBER_N / 4);
    r.coeffs = cbd(&buf);
}


// ---------------------------------------------------------------------------
// Byte serialization: 12 bits per coefficient, two coefficients per 3 bytes.
// ---------------------------------------------------------------------------

/// Low byte of a 12-bit coefficient.
pub open spec fn tb0(c0: int) -> int {
    c0 % 256
}

/// Middle byte: high nibble of the first coefficient, low nibble of the
/// second.
pub open spec fn tb1(c0: int, c1: int) -> int {
    c0 / 256 + 16 * (c1 % 16)
}

/// High byte of the second coefficient.
pub open spec fn tb2(c1: int) -> int {
    c1 / 16
}

/// First coefficient recovered from a 3-byte group.
pub open spec fn fb0(b0: int, b1: int) -> int {
    b0 + 256 * (b1 % 16)
}

/// Second coefficient recovered from a 3-byte group.
pub open spec fn fb1(b1: int, b2: int) -> int {
    b1 / 16 + 16 * b2
}

/// `bytes` is the 384-byte serialization of the coefficient sequence `c`.
pub open spec fn tobytes_shape(c: Seq<i16>, bytes: Seq<u8>) -> bool {
    &&& bytes.len() == 384
    &&& forall|i: int| 0 <= i < 128 ==> #[trigger] bytes[3 * i] as int == tb0(c[2 * i] as int)
    &&& forall|i: int|
        0 <= i < 128 ==> #[trigger] bytes[3 * i + 1] as int == tb1(
            c[2 * i] as int,
            c[2 * i + 1] as int,
        )
    &&& forall|i: int| 0 <= i < 128 ==> #[trigger] bytes[3 * i + 2] as int == tb2(c[2 * i + 1] as int)
}

/// `c` is the coefficient sequence deserialized from the 384 bytes `bytes`.
pub open spec fn frombytes_shape(bytes: Seq<u8>, c: Seq<i16>) -> bool {
    &&& forall|i: int|
        0 <= i < 128 ==> #[trigger] c[2 * i] as int == fb0(
            bytes[3 * i] as int,
            bytes[3 * i + 1] as int,
        )
    &&& forall|i: int|
        0 <= i < 128 ==> #[trigger] c[2 * i + 1] as int == fb1(
            bytes[3 * i + 1] as int,
            bytes[3 * i + 2] as int,
        )
}

/// Serialize: canonicalize in place, then pack each coefficient into 12 bits,
/// 384 bytes in all.
pub fn poly_tobytes(r: &mut Vec<u8>, a: &mut Poly)
    requires
        old(r)@.len() == 384,
        coeffs_within(old(a).coeffs@, 0, 6657),
    ensures
        final(r)@.len() == 384,
        forall|i: int|
            0 <= i < 256 ==> #[trigger] final(a).coeffs@[i] == spec_csubq(old(a).coeffs@[i] as int),
        tobytes_shape(final(a).coeffs@, final(r)@),
{
    poly_csubq(a);
    let mut i: usize = 0;
    while i < 128
        invariant
            r@.len() == 384,
            coeffs_within(a.coeffs@, 0, 3328),
            i <= 128,
            forall|m: int| 0 <= m < i ==> #[trigger] r@[3 * m] as int == tb0(a.coeffs@[2 * m] as int),
            forall|m: int|
                0 <= m < i ==> #[trigger] r@[3 * m + 1] as int == tb1(
                    a.coeffs@[2 * m] as int,
                    a.coeffs@[2 * m + 1] as int,
                ),
            forall|m: int|
                0 <= m < i ==> #[trigger] r@[3 * m + 2] as int == tb2(a.coeffs@[2 * m + 1] as int),
        decreases 128 - i,
    {
        let c0: u16 = a.coeffs[2 * i] as u16;
        let c1: u16 = a.coeffs[2 * i + 1] as u16;
        r[3 * i] = (c0 % 256) as u8;
        r[3 * i + 1] = (c0 / 256 + 16 * (c1 % 16)) as u8;
        r[3 * i + 2] = (c1 / 16) as u8;
        i = i + 1;
    }
}

/// Deserialize: unpack each 3-byte group into two 12-bit coefficients.  The
/// results are not reduced; they lie in [0, 4096) and nothing more is
/// guaranteed about their residue classes.
pub fn poly_frombytes(r: &mut Poly, a: &[u8])
    requires
        a@.len() == 384,
    ensures
        frombytes_shape(a@, final(r).coeffs@),
        coeffs_within(final(r).coeffs@, 0, 4095),
{
    let mut i: usize = 0;
    while i < 128
        invariant
            a@.len() == 384,
            i <= 128,
            forall|m: int|
                0 <= m < i ==> #[trigger] r.coeffs@[2 * m] as int == fb0(
                    a@[3 * m] as int,
                    a@[3 * m + 1] as int,
                ),
            forall|m: int|
                0 <= m < i ==> #[trigger] r.coeffs@[2 * m + 1] as int == fb1(
                    a@[3 * m + 1] as int,
                    a@[3 * m + 2] as int,
                ),
            forall|k: int| 0 <= k < 2 * i ==> 0 <= #[trigger] r.coeffs@[k] <= 4095,
        decreases 128 - i,
    {
        let b0: u16 = a[3 * i] as u16;
        let b1: u16 = a[3 * i + 1] as u16;
        let b2: u16 = a[3 * i + 2] as u16;
        r.coeffs[2 * i] = (b0 + 256 * (b1 % 16)) as i16;
        r.coeffs[2 * i + 1] = (b1 / 16 + 16 * b2) as i16;
        i = i + 1;
    }
}

// ---------------------------------------------------------------------------
// Lossy compression: round each canonical coefficient to d bits
// (d = 3, 4 or 5, selected by the buffer size: 96, 128 or 160 bytes),
// then bit-pack.
// ---------------------------------------------------------------------------

/// The d-bit rounding of a canonical coefficient: round(c * m / q) mod m for
/// m = 2^d, with the rounding offset q/2 added before the division.
pub open spec fn compress_bits(c: int, m: int) -> int {
    ((c * m + 1664) / 3329) % m
}

/// The approximate coefficient reconstructed from a d-bit value:
/// round(y * q / m).
pub open spec fn decompress_bits(y: int, m: int) -> int {
    (y * 3329 + m / 2) / m
}

/// Byte 0 of a 3-bit packed group of eight values.
pub open spec fn pk3_0(t0: int, t1: int, t2: int) -> int {
    t0 + 8 * t1 + 64 * (t2 % 4)
}

/// Byte 1 of a 3-bit packed group.
pub open spec fn pk3_1(t2: int, t3: int, t4: int, t5: int) -> int {
    t2 / 4 + 2 * t3 + 16 * t4 + 128 * (t5 % 2)
}

/// Byte 2 of a 3-bit packed group.
pub open spec fn pk3_2(t5: int, t6: int, t7: int) -> int {
    t5 / 2 + 4 * t6 + 32 * t7
}

/// Byte 0 of a 5-bit packed group of eight values.
pub open spec fn pk5_0(t0: int, t1: int) -> int {
    t0 + 32 * (t1 % 8)
}

/// Byte 1 of a 5-bit packed group.
pub open spec fn pk5_1(t1: int, t2: int, t3: int) -> int {
    t1 / 8 + 4 * t2 + 128 * (t3 % 2)
}

/// Byte 2 of a 5-bit packed group.
pub open spec fn pk5_2(t3: int, t4: int) -> int {
    t3 / 2 + 16 * (t4 % 16)
}

/// Byte 3 of a 5-bit packed group.
pub open spec fn pk5_3(t4: int, t5: int, t6: int) -> int {
    t4 / 16 + 2 * t5 + 64 * (t6 % 4)
}

/// Byte 4 of a 5-bit packed group.
pub open spec fn pk5_4(t6: int, t7: int) -> int {
    t6 / 4 + 8 * t7
}

/// The 3-bit rounding of coefficient `k` of the canonicalized sequence `c`.
pub open spec fn cw3(c: Seq<i16>, k: int) -> int {
    compress_bits(spec_csubq(c[k] as int), 8)
}

/// The 4-bit rounding of coefficient `k`.
pub open spec fn cw4(c: Seq<i16>, k: int) -> int {
    compress_bits(spec_csubq(c[k] as int), 16)
}

/// The 5-bit rounding of coefficient `k`.
pub open spec fn cw5(c: Seq<i16>, k: int) -> int {
    compress_bits(spec_csubq(c[k] as int), 32)
}

/// `bytes` is the 96-byte (3 bits per coefficient) compression of `c`.
pub open spec fn compress3_shape(c: Seq<i16>, bytes: Seq<u8>) -> bool {
    &&& forall|i: int|
        0 <= i < 32 ==> #[trigger] bytes[3 * i] as int == pk3_0(
            cw3(c, 8 * i),
            cw3(c, 8 * i + 1),
            cw3(c, 8 * i + 2),
        )
    &&& forall|i: int|
        0 <= i < 32 ==> #[trigger] bytes[3 * i + 1] as int == pk3_1(
            cw3(c, 8 * i + 2),
            cw3(c, 8 * i + 3),
            cw3(c, 8 * i + 4),
            cw3(c, 8 * i + 5),
        )
    &&& forall|i: int|
        0 <= i < 32 ==> #[trigger] bytes[3 * i + 2] as int == pk3_2(
            cw3(c, 8 * i + 5),
            cw3(c, 8 * i + 6),
            cw3(c, 8 * i + 7),
        )
}

/// `bytes` is the 128-byte (4 bits per coefficient) compression of `c`.
pub open spec fn compress4_shape(c: Seq<i16>, bytes: Seq<u8>) -> bool {
    forall|i: int|
        0 <= i < 128 ==> #[trigger] bytes[i] as int == cw4(c, 2 * i) + 16 * cw4(c, 2 * i + 1)
}

/// `bytes` is the 160-byte (5 bits per coefficient) compression of `c`.
pub open spec fn compress5_shape(c: Seq<i16>, bytes: Seq<u8>) -> bool {
    &&& forall|i: int|
        0 <= i < 32 ==> #[trigger] bytes[5 * i] as int == pk5_0(cw5(c, 8 * i), cw5(c, 8 * i + 1))
    &&& forall|i: int|
        0 <= i < 32 ==> #[trigger] bytes[5 * i + 1] as int == pk5_1(
            cw5(c, 8 * i + 1),
            cw5(c, 8 * i + 2),
            cw5(c, 8 * i + 3),
        )
    &&& forall|i: int|
        0 <= i < 32 ==> #[trigger] bytes[5 * i + 2] as int == pk5_2(
            cw5(c, 8 * i + 3),
            cw5(c, 8 * i + 4),
        )
    &&& forall|i: int|
        0 <= i < 32 ==> #[trigger] bytes[5 * i + 3] as int == pk5_3(
            cw5(c, 8 * i + 4),
            cw5(c, 8 * i + 5),
            cw5(c, 8 * i + 6),
        )
    &&& forall|i: int|
        0 <= i < 32 ==> #[trigger] bytes[5 * i + 4] as int == pk5_4(
            cw5(c, 8 * i + 6),
            cw5(c, 8 * i + 7),
        )
}

/// The 3-bit value for coefficient `k` read back out of a 96-byte buffer.
pub open spec fn extract3(bytes: Seq<u8>, k: int) -> int {
    let b0 = bytes[3 * (k / 8)] as int;
    let b1 = bytes[3 * (k / 8) + 1] as int;
    let b2 = bytes[3 * (k / 8) + 2] as int;
    let j = k % 8;
    if j == 0 {
        b0 % 8
    } else if j == 1 {
        (b0 / 8) % 8
    } else if j == 2 {
        b0 / 64 + 4 * (b1 % 2)
    } else if j == 3 {
        (b1 / 2) % 8
    } else if j == 4 {
        (b1 / 16) % 8
    } else if j == 5 {
        b1 / 128 + 2 * (b2 % 4)
    } else if j == 6 {
        (b2 / 4) % 8
    } else {
        b2 / 32
    }
}

/// The 4-bit value for coefficient `k` read back out of a 128-byte buffer.
pub open spec fn extract4(bytes: Seq<u8>, k: int) -> int {
    if k % 2 == 0 {
        bytes[k / 2] as int % 16
    } else {
        bytes[k / 2] as int / 16
    }
}

/// The 5-bit value for coefficient `k` read back out of a 160-byte buffer.
pub open spec fn extract5(bytes: Seq<u8>, k: int) -> int {
    let b0 = bytes[5 * (k / 8)] as int;
    let b1 = bytes[5 * (k / 8) + 1] as int;
    let b2 = bytes[5 * (k / 8) + 2] as int;
    let b3 = bytes[5 * (k / 8) + 3] as int;
    let b4 = bytes[5 * (k / 8) + 4] as int;
    let j = k % 8;
    if j == 0 {
        b0 % 32
    } else if j == 1 {
        b0 / 32 + 8 * (b1 % 4)
    } else if j == 2 {
        (b1 / 4) % 32
    } else if j == 3 {
        b1 / 128 + 2 * (b2 % 16)
    } else if j == 4 {
        b2 / 16 + 16 * (b3 % 2)
    } else if j == 5 {
        (b3 / 2) % 32
    } else if j == 6 {
        b3 / 64 + 4 * (b4 % 8)
    } else {
        b4 / 8
    }
}

/// `c` is the coefficient sequence decompressed from `bytes` at width m.
pub open spec fn decompress3_shape(bytes: Seq<u8>, c: Seq<i16>) -> bool {
    forall|k: int|
        0 <= k < 256 ==> #[trigger] c[k] as int == decompress_bits(extract3(bytes, k), 8)
}

/// `c` decompressed from a 128-byte buffer.
pub open spec fn decompress4_shape(bytes: Seq<u8>, c: Seq<i16>) -> bool {
    forall|k: int|
        0 <= k < 256 ==> #[trigger] c[k] as int == decompress_bits(extract4(bytes, k), 16)
}

/// `c` decompressed from a 160-byte buffer.
pub open spec fn decompress5_shape(bytes: Seq<u8>, c: Seq<i16>) -> bool {
    forall|k: int|
        0 <= k < 256 ==> #[trigger] c[k] as int == decompress_bits(extract5(bytes, k), 32)
}

/// The d-bit rounding of one canonical coefficient, for m = 2^d.
fn compress_coeff(c: i16, m: u32) -> (t: u32)
    requires
        0 <= c <= 3328,
        m == 8 || m == 16 || m == 32,
    ensures
        t as int == compress_bits(c as int, m as int),
        t < m,
{
    (((c as u32) * m + 1664) / 3329) % m
}

/// Compress and serialize: canonicalize in place, round every coefficient to
/// d bits, and pack.  The supported buffer sizes are 96, 128 and 160 bytes
/// (d = 3, 4, 5); the precondition is the configuration contract, so an
/// unsupported size can never reach this code.
pub fn poly_compress(r: &mut Vec<u8>, a: &mut Poly)
    requires
        old(r)@.len() == 96 || old(r)@.len() == 128 || old(r)@.len() == 160,
        coeffs_within(old(a).coeffs@, 0, 6657),
    ensures
        final(r)@.len() == old(r)@.len(),
        forall|i: int|
            0 <= i < 256 ==> #[trigger] final(a).coeffs@[i] == spec_csubq(old(a).coeffs@[i] as int),
        old(r)@.len() == 96 ==> compress3_shape(final(a).coeffs@, final(r)@),
        old(r)@.len() == 128 ==> compress4_shape(final(a).coeffs@, final(r)@),
        old(r)@.len() == 160 ==> compress5_shape(final(a).coeffs@, final(r)@),
{
    poly_csubq(a);
    let n: usize = r.len();
    if n == 96 {
        let mut i: usize = 0;
        while i < 32
            invariant
                r@.len() == 96,
                coeffs_within(a.coeffs@, 0, 3328),
                i <= 32,
                forall|m: int|
                    0 <= m < i ==> #[trigger] r@[3 * m] as int == pk3_0(
                        cw3(a.coeffs@, 8 * m),
                        cw3(a.coeffs@, 8 * m + 1),
                        cw3(a.coeffs@, 8 * m + 2),
                    ),
                forall|m: int|
                    0 <= m < i ==> #[trigger] r@[3 * m + 1] as int == pk3_1(
                        cw3(a.coeffs@, 8 * m + 2),
                        cw3(a.coeffs@, 8 * m + 3),
                        cw3(a.coeffs@, 8 * m + 4),
                        cw3(a.coeffs@, 8 * m + 5),
                    ),
                forall|m: int|
                    0 <= m < i ==> #[trigger] r@[3 * m + 2] as int == pk3_2(
                        cw3(a.coeffs@, 8 * m + 5),
                        cw3(a.coeffs@, 8 * m + 6),
                        cw3(a.coeffs@, 8 * m + 7),
                    ),
            decreases 32 - i,
        {
            let t0: u32 = compress_coeff(a.coeffs[8 * i], 8);
            let t1: u32 = compress_coeff(a.coeffs[8 * i + 1], 8);
            let t2: u32 = compress_coeff(a.coeffs[8 * i + 2], 8);
            let t3: u32 = compress_coeff(a.coeffs[8 * i + 3], 8);
            let t4: u32 = compress_coeff(a.coeffs[8 * i + 4], 8);
            let t5: u32 = compress_coeff(a.coeffs[8 * i + 5], 8);
            let t6: u32 = compress_coeff(a.coeffs[8 * i + 6], 8);
            let t7: u32 = compress_coeff(a.coeffs[8 * i + 7], 8);
            r[3 * i] = (t0 + 8 * t1 + 64 * (t2 % 4)) as u8;
            r[3 * i + 1] = (t2 / 4 + 2 * t3 + 16 * t4 + 128 * (t5 % 2)) as u8;
            r[3 * i + 2] = (t5 / 2 + 4 * t6 + 32 * t7) as u8;
            i = i + 1;
        }
    } else if n == 128 {
        let mut i: usize = 0;
        while i < 128
            invariant
                r@.len() == 128,
                coeffs_within(a.coeffs@, 0, 3328),
                i <= 128,
                forall|m: int|
                    0 <= m < i ==> #[trigger] r@[m] as int == cw4(a.coeffs@, 2 * m) + 16 * cw4(
                        a.coeffs@,
                        2 * m + 1,
                    ),
            decreases 128 - i,
        {
            let t0: u32 = compress_coeff(a.coeffs[2 * i], 16);
            let t1: u32 = compress_coeff(a.coeffs[2 * i + 1], 16);
            r[i] = (t0 + 16 * t1) as u8;
            i = i + 1;
        }
    } else {
        let mut i: usize = 0;
        while i < 32
            invariant
                r@.len() == 160,
                coeffs_within(a.coeffs@, 0, 3328),
                i <= 32,
                forall|m: int|
                    0 <= m < i ==> #[trigger] r@[5 * m] as int == pk5_0(
                        cw5(a.coeffs@, 8 * m),
                        cw5(a.coeffs@, 8 * m + 1),
                    ),
                forall|m: int|
                    0 <= m < i ==> #[trigger] r@[5 * m + 1] as int == pk5_1(
                        cw5(a.coeffs@, 8 * m + 1),
                        cw5(a.coeffs@, 8 * m + 2),
                        cw5(a.coeffs@, 8 * m + 3),
                    ),
                forall|m: int|
                    0 <= m < i ==> #[trigger] r@[5 * m + 2] as int == pk5_2(
                        cw5(a.coeffs@, 8 * m + 3),
                        cw5(a.coeffs@, 8 * m + 4),
                    ),
                forall|m: int|
                    0 <= m < i ==> #[trigger] r@[5 * m + 3] as int == pk5_3(
                        cw5(a.coeffs@, 8 * m + 4),
                        cw5(a.coeffs@, 8 * m + 5),
                        cw5(a.coeffs@, 8 * m + 6),
                    ),
                forall|m: int|
                    0 <= m < i ==> #[trigger] r@[5 * m + 4] as int == pk5_4(
                        cw5(a.coeffs@, 8 * m + 6),
                        cw5(a.coeffs@, 8 * m + 7),
                    ),
            decreases 32 - i,
        {
            let t0: u32 = compress_coeff(a.coeffs[8 * i], 32);
            let t1: u32 = compress_coeff(a.coeffs[8 * i + 1], 32);
            let t2: u32 = compress_coeff(a.coeffs[8 * i + 2], 32);
            let t3: u32 = compress_coeff(a.coeffs[8 * i + 3], 32);
            let t4: u32 = compress_coeff(a.coeffs[8 * i + 4], 32);
            let t5: u32 = compress_coeff(a.coeffs[8 * i + 5], 32);
            let t6: u32 = compress_coeff(a.coeffs[8 * i + 6], 32);
            let t7: u32 = compress_coeff(a.coeffs[8 * i + 7], 32);
            r[5 * i] = (t0 + 32 * (t1 % 8)) as u8;
            r[5 * i + 1] = (t1 / 8 + 4 * t2 + 128 * (t3 % 2)) as u8;
            r[5 * i + 2] = (t3 / 2 + 16 * (t4 % 16)) as u8;
            r[5 * i + 3] = (t4 / 16 + 2 * t5 + 64 * (t6 % 4)) as u8;
            r[5 * i + 4] = (t6 / 4 + 8 * t7) as u8;
            i = i + 1;
        }
    }
}

/// One d-bit value expanded back to an approximate coefficient.
fn decompress_coeff(y: u32, m: u32) -> (c: i16)
    requires
        m == 8 || m == 16 || m == 32,
        y < m,
    ensures
        c as int == decompress_bits(y as int, m as int),
        0 <= c <= 3328,
{
    ((y * 3329 + m / 2) / m) as i16
}


/// After one 8-coefficient group is written, each new entry matches the
/// per-coefficient extraction formula: index arithmetic `k == 8 i + j`.
proof fn lemma_group_index(k: int, i: int)
    requires
        8 * i <= k < 8 * i + 8,
        0 <= i,
    ensures
        k / 8 == i,
        k % 8 == k - 8 * i,
{
    lemma_fundamental_div_mod_converse(k, 8, i, k - 8 * i);
}

/// Decompress a 96-byte buffer: eight 3-bit values per 3-byte group.
#[verifier::rlimit(100)]
#[verifier::spinoff_prover]
fn decompress_96(r: &mut Poly, a: &[u8])
    requires
        a@.len() == 96,
    ensures
        decompress3_shape(a@, final(r).coeffs@),
        coeffs_within(final(r).coeffs@, 0, 3328),
{

        let mut i: usize = 0;
        while i < 32
            invariant
                a@.len() == 96,
                i <= 32,
                forall|k: int|
                    0 <= k < 8 * i ==> #[trigger] r.coeffs@[k] as int == decompress_bits(
                        extract3(a@, k),
                        8,
                    ),
                forall|k: int| 0 <= k < 8 * i ==> 0 <= #[trigger] r.coeffs@[k] <= 3328,
            decreases 32 - i,
        {
            let b0: u32 = a[3 * i] as u32;
            let b1: u32 = a[3 * i + 1] as u32;
            let b2: u32 = a[3 * i + 2] as u32;
            r.coeffs[8 * i] = decompress_coeff(b0 % 8, 8);
            r.coeffs[8 * i + 1] = decompress_coeff((b0 / 8) % 8, 8);
            r.coeffs[8 * i + 2] = decompress_coeff(b0 / 64 + 4 * (b1 % 2), 8);
            r.coeffs[8 * i + 3] = decompress_coeff((b1 / 2) % 8, 8);
            r.coeffs[8 * i + 4] = decompress_coeff((b1 / 16) % 8, 8);
            r.coeffs[8 * i + 5] = decompress_coeff(b1 / 128 + 2 * (b2 % 4), 8);
            r.coeffs[8 * i + 6] = decompress_coeff((b2 / 4) % 8, 8);
            r.coeffs[8 * i + 7] = decompress_coeff(b2 / 32, 8);
            proof {
                let gi = i as int;
                assert forall|k: int| 8 * gi <= k < 8 * gi + 8 implies #[trigger] r.coeffs@[k]
                    as int == decompress_bits(extract3(a@, k), 8) by {
                    lemma_group_index(k, gi);
                }
            }
            i = i + 1;
        }
    }

/// Decompress a 128-byte buffer: two 4-bit values per byte.
#[verifier::spinoff_prover]
fn decompress_128(r: &mut Poly, a: &[u8])
    requires
        a@.len() == 128,
    ensures
        decompress4_shape(a@, final(r).coeffs@),
        coeffs_within(final(r).coeffs@, 0, 3328),
{

        let mut i: usize = 0;
        while i < 128
            invariant
                a@.len() == 128,
                i <= 128,
                forall|k: int|
                    0 <= k < 2 * i ==> #[trigger] r.coeffs@[k] as int == decompress_bits(
                        extract4(a@, k),
                        16,
                    ),
                forall|k: int| 0 <= k < 2 * i ==> 0 <= #[trigger] r.coeffs@[k] <= 3328,
            decreases 128 - i,
        {
            let b: u32 = a[i] as u32;
            r.coeffs[2 * i] = decompress_coeff(b % 16, 16);
            r.coeffs[2 * i + 1] = decompress_coeff(b / 16, 16);
            i = i + 1;
        }
    }

/// Decompress a 160-byte buffer: eight 5-bit values per 5-byte group.
#[verifier::rlimit(100)]
#[verifier::spinoff_prover]
fn decompress_160(r: &mut Poly, a: &[u8])
    requires
        a@.len() == 160,
    ensures
        decompress5_shape(a@, final(r).coeffs@),
        coeffs_within(final(r).coeffs@, 0, 3328),
{

        let mut i: usize = 0;
        while i < 32
            invariant
                a@.len() == 160,
                i <= 32,
                forall|k: int|
                    0 <= k < 8 * i ==> #[trigger] r.coeffs@[k] as int == decompress_bits(
                        extract5(a@, k),
                        32,
                    ),
                forall|k: int| 0 <= k < 8 * i ==> 0 <= #[trigger] r.coeffs@[k] <= 3328,
            decreases 32 - i,
        {
            let b0: u32 = a[5 * i] as u32;
            let b1: u32 = a[5 * i + 1] as u32;
            let b2: u32 = a[5 * i + 2] as u32;
            let b3: u32 = a[5 * i + 3] as u32;
            let b4: u32 = a[5 * i + 4] as u32;
            r.coeffs[8 * i] = decompress_coeff(b0 % 32, 32);
            r.coeffs[8 * i + 1] = decompress_coeff(b0 / 32 + 8 * (b1 % 4), 32);
            r.coeffs[8 * i + 2] = decompress_coeff((b1 / 4) % 32, 32);
            r.coeffs[8 * i + 3] = decompress_coeff(b1 / 128 + 2 * (b2 % 16), 32);
            r.coeffs[8 * i + 4] = decompress_coeff(b2 / 16 + 16 * (b3 % 2), 32);
            r.coeffs[8 * i + 5] = decompress_coeff((b3 / 2) % 32, 32);
            r.coeffs[8 * i + 6] = decompress_coeff(b3 / 64 + 4 * (b4 % 8), 32);
            r.coeffs[8 * i + 7] = decompress_coeff(b4 / 8, 32);
            proof {
                let gi = i as int;
                assert forall|k: int| 8 * gi <= k < 8 * gi + 8 implies #[trigger] r.coeffs@[k]
                    as int == decompress_bits(extract5(a@, k), 32) by {
                    lemma_group_index(k, gi);
                }
            }
            i = i + 1;
        }
    }

/// Deserialize and decompress: unpack d-bit groups and expand each to the
/// nearest coefficient, the approximate inverse of `poly_compress`.  Every
/// output coefficient is canonical.
pub fn poly_decompress(r: &mut Poly, a: &[u8])
    requires
        a@.len() == 96 || a@.len() == 128 || a@.len() == 160,
    ensures
        a@.len() == 96 ==> decompress3_shape(a@, final(r).coeffs@),
        a@.len() == 128 ==> decompress4_shape(a@, final(r).coeffs@),
        a@.len() == 160 ==> decompress5_shape(a@, final(r).coeffs@),
        coeffs_within(final(r).coeffs@, 0, 3328),
{
    let n: usize = a.len();
    if n == 96 {
        decompress_96(r, a);
    } else if n == 128 {
        decompress_128(r, a);
    } else {
        decompress_160(r, a);
    }
}

// ---------------------------------------------------------------------------
// Message embedding: one bit per coefficient, 0 or round(q/2) = 1665.
// ---------------------------------------------------------------------------

/// Bit `k` of a 32-byte message.
pub open spec fn msg_bit(msg: Seq<u8>, k: int) -> int {
    (((msg[k / 8] as u32) >> ((k % 8) as u32)) & 1) as int
}

/// The bit a canonical coefficient decodes to: 1 exactly when the value is
/// nearer to q/2 than to 0 or q, computed as round(2 * c / q) mod 2.
pub open spec fn msg_decide(c: int) -> int {
    ((2 * c + 1664) / 3329) % 2
}

/// The message byte rebuilt from the decisions of eight consecutive
/// coefficients.
pub open spec fn tomsg_byte(c: Seq<i16>, i: int) -> int {
    msg_decide(spec_csubq(c[8 * i] as int)) + 2 * msg_decide(spec_csubq(c[8 * i + 1] as int)) + 4
        * msg_decide(spec_csubq(c[8 * i + 2] as int)) + 8 * msg_decide(
        spec_csubq(c[8 * i + 3] as int),
    ) + 16 * msg_decide(spec_csubq(c[8 * i + 4] as int)) + 32 * msg_decide(
        spec_csubq(c[8 * i + 5] as int),
    ) + 64 * msg_decide(spec_csubq(c[8 * i + 6] as int)) + 128 * msg_decide(
        spec_csubq(c[8 * i + 7] as int),
    )
}

/// A single bit of a shifted word.
proof fn lemma_bit_le_one(x: u32, s: u32)
    by (bit_vector)
    ensures
        ((x >> s) & 1) <= 1,
{
}

/// Encode a 32-byte message: each message bit becomes one coefficient, 0 for
/// a clear bit and 1665 (the integer nearest q/2) for a set bit, maximizing
/// the noise margin of the decoder.
pub fn poly_frommsg(r: &mut Poly, msg: &[u8])
    requires
        msg@.len() == 32,
    ensures
        forall|k: int|
            0 <= k < 256 ==> #[trigger] final(r).coeffs@[k] == 1665 * msg_bit(msg@, k),
        coeffs_within(final(r).coeffs@, 0, 1665),
{
    let mut i: usize = 0;
    while i < 32
        invariant
            msg@.len() == 32,
            i <= 32,
            forall|k: int| 0 <= k < 8 * i ==> #[trigger] r.coeffs@[k] == 1665 * msg_bit(msg@, k),
            forall|k: int| 0 <= k < 8 * i ==> 0 <= #[trigger] r.coeffs@[k] <= 1665,
        decreases 32 - i,
    {
        let by: u32 = msg[i] as u32;
        let mut j: usize = 0;
        while j < 8
            invariant
                msg@.len() == 32,
                i < 32,
                j <= 8,
                by == msg@[i as int] as u32,
                forall|k: int|
                    0 <= k < 8 * (i as int) + j ==> #[trigger] r.coeffs@[k] == 1665 * msg_bit(
                        msg@,
                        k,
                    ),
                forall|k: int| 0 <= k < 8 * (i as int) + j ==> 0 <= #[trigger] r.coeffs@[k] <= 1665,
            decreases 8 - j,
        {
            let bit: u32 = (by >> (j as u32)) & 1;
            proof {
                lemma_bit_le_one(by, j as u32);
            }
            r.coeffs[8 * i + j] = (bit as i16) * 1665;
            j = j + 1;
        }
        i = i + 1;
    }
}

/// The decision bit for one canonical coefficient.
fn decide_coeff(c: i16) -> (t: u32)
    requires
        0 <= c <= 3328,
    ensures
        t as int == msg_decide(c as int),
        t <= 1,
{
    ((2 * (c as u32) + 1664) / 3329) % 2
}

/// Decode a polynomial to a 32-byte message: canonicalize in place, then
/// compare each coefficient against the q/4 .. 3q/4 band and pack eight
/// decisions per byte.  Tolerates the small additive noise the protocol
/// introduces between encode and decode.
pub fn poly_tomsg(msg: &mut Vec<u8>, a: &mut Poly)
    requires
        old(msg)@.len() == 32,
        coeffs_within(old(a).coeffs@, 0, 6657),
    ensures
        final(msg)@.len() == 32,
        forall|i: int|
            0 <= i < 256 ==> #[trigger] final(a).coeffs@[i] == spec_csubq(old(a).coeffs@[i] as int),
        forall|i: int| 0 <= i < 32 ==> #[trigger] final(msg)@[i] as int == tomsg_byte(old(a).coeffs@, i),
{
    poly_csubq(a);
    let mut i: usize = 0;
    while i < 32
        invariant
            msg@.len() == 32,
            coeffs_within(a.coeffs@, 0, 3328),
            forall|k: int|
                0 <= k < 256 ==> #[trigger] a.coeffs@[k] == spec_csubq(old(a).coeffs@[k] as int),
            i <= 32,
            forall|m: int| 0 <= m < i ==> #[trigger] msg@[m] as int == tomsg_byte(old(a).coeffs@, m),
        decreases 32 - i,
    {
        let t0: u32 = decide_coeff(a.coeffs[8 * i]);
        let t1: u32 = decide_coeff(a.coeffs[8 * i + 1]);
        let t2: u32 = decide_coeff(a.coeffs[8 * i + 2]);
        let t3: u32 = decide_coeff(a.coeffs[8 * i + 3]);
        let t4: u32 = decide_coeff(a.coeffs[8 * i + 4]);
        let t5: u32 = decide_coeff(a.coeffs[8 * i + 5]);
        let t6: u32 = decide_coeff(a.coeffs[8 * i + 6]);
        let t7: u32 = decide_coeff(a.coeffs[8 * i + 7]);
        msg[i] = (t0 + 2 * t1 + 4 * t2 + 8 * t3 + 16 * t4 + 32 * t5 + 64 * t6 + 128 * t7) as u8;
        i = i + 1;
    }
}

} // verus!

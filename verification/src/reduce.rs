//! Scalar reduction primitives for arithmetic modulo q = 3329.
//!
//! All three routines are branchless: no comparison on the (possibly secret)
//! argument ever selects a code path, only masked arithmetic.

use vstd::prelude::*;

verus! {

use vstd::arithmetic::div_mod::{lemma_fundamental_div_mod, lemma_mod_multiples_basic};
use vstd::arithmetic::power2::lemma2_to64;
use vstd::bits::lemma_u64_shr_is_div;

/// The canonical representative of `c` for `c` in `[0, 2q)`: subtract q once if needed.
pub open spec fn spec_csubq(c: int) -> int {
    if c >= 3329 {
        c - 3329
    } else {
        c
    }
}

/// Montgomery reduction: given `a` with `|a| <= q * 2^15`, returns `r` with
/// `r * 2^16 == a (mod q)` and `-q < r < q`.
///
/// The quotient `u == a * q^-1 (mod 2^16)` is chosen so that `a - u * q` is an
/// exact multiple of 2^16; the division is then a plain shift. The computation
/// is lifted by the constants `q * 2^15` and `q * 2^16` (both multiples of q)
/// to stay in unsigned arithmetic throughout.
pub fn montgomery_reduce(a: i32) -> (r: i16)
    requires
        -109084672 <= a < 109084672,
    ensures
        -3329 < r < 3329,
        ((r as int) * 65536 - a) % 3329 == 0,
{
    let big: u64 = (a as i64 + 109084672) as u64;
    let b16: u64 = big & 0xFFFF;
    proof {
        assert(b16 <= 0xFFFF) by (bit_vector)
            requires
                b16 == big & 0xFFFF,
        ;
    }
    let u: u64 = (b16 * 62209) & 0xFFFF;
    proof {
        assert(u <= 0xFFFF) by (bit_vector)
            requires
                u == ((b16 * 62209) as u64) & 0xFFFF,
        ;
    }
    let n: u64 = big + 218169344 - u * 3329;
    let r0: u64 = n >> 16;
    proof {
        assert(n % 65536 == 0) by (bit_vector)
            requires
                b16 == big & 0xFFFF,
                u == ((b16 * 62209) as u64) & 0xFFFF,
                big < 218169344,
                n == big + 218169344 - u * 3329,
        ;
        lemma_u64_shr_is_div(n, 16);
        lemma2_to64();
        lemma_fundamental_div_mod(n as int, 65536);
        assert(n == 65536 * r0);
        // n is a positive multiple of 65536, so the quotient is at least 1.
        assert(n >= 3329);
        assert(r0 >= 1);
        assert(n < 436338688);
        assert(r0 <= 6657);
        // (r0 - 3329) * 65536 - a == 3329 * (32768 - u)
        lemma_mod_multiples_basic(32768 - u as int, 3329);
    }
    let r: i64 = r0 as i64 - 3329;
    r as i16
}

/// Barrett reduction: returns `r` with `r == a (mod q)` and `0 <= r < q`,
/// for any `i16` input.
///
/// The input is first lifted by `10 * q` (a multiple of q) into unsigned
/// range; `20159 == ceil(2^26 / q)` gives the approximate quotient.
pub fn barrett_reduce(a: i16) -> (r: i16)
    ensures
        0 <= r <= 3328,
        ((r as int) - a) % 3329 == 0,
{
    let y: u32 = (a as i32 + 33290) as u32;
    let prod: u64 = (y as u64) * 20159;
    let t: u64 = prod >> 26;
    proof {
        lemma_u64_shr_is_div(prod, 26);
        lemma2_to64();
        lemma_fundamental_div_mod(prod as int, 67108864);
        // prod == t * 2^26 + s with 0 <= s < 2^26, and prod <= 66057 * 20159,
        // so t <= 19.
        assert(prod <= 1331643063);
        assert(t <= 19);
        // With r == y - 3329 * t:  r * 20159 == s - 447 * t, since
        // 3329 * 20159 == 2^26 + 447.  The remainder bound pins r to [0, q).
        assert(y * 20159 == prod);
        assert((y - 3329 * (t as int)) * 20159 == (prod - t * 67108864) - 447 * (t as int))
            by (nonlinear_arith)
            requires
                prod == y * 20159,
        ;
        lemma_mod_multiples_basic(10 - t as int, 3329);
    }
    let r: u32 = y - (t as u32) * 3329;
    r as i16
}

/// Conditional subtraction of q: maps `[0, 2q)` to the canonical range `[0, q)`,
/// subtracting q exactly when the input is at least q, without branching.
pub fn csubq(a: i16) -> (r: i16)
    requires
        0 <= a < 6658,
    ensures
        0 <= r < 3329,
        r == spec_csubq(a as int),
{
    let x: u32 = a as u32;
    let t: u32 = (x + 62207) & 0xFFFF;
    proof {
        assert(t <= 0xFFFF && (t >> 15) <= 1) by (bit_vector)
            requires
                t == ((x + 62207) as u32) & 0xFFFF,
        ;
    }
    let m: u32 = (t >> 15) * 3329;
    let r: u32 = (t + m) & 0xFFFF;
    proof {
        assert((x >= 3329 ==> r == x - 3329) && (x < 3329 ==> r == x)) by (bit_vector)
            requires
                x < 6658,
                t == ((x + 62207) as u32) & 0xFFFF,
                m == ((t >> 15) * 3329) as u32,
                r == ((t + m) as u32) & 0xFFFF,
        ;
    }
    r as i16
}

} // verus!

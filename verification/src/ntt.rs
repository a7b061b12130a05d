//! The negacyclic number-theoretic transform over Z_3329 on 256 coefficients,
//! its inverse, and the twisted base multiplication used in the transform
//! domain.  The twiddle factors ("zetas") are powers of 17, a primitive
//! 256th root of unity mod q, in Montgomery form (scaled by 2^16 mod q) and
//! bit-reversed order.

use vstd::prelude::*;

verus! {

use crate::reduce::{barrett_reduce, montgomery_reduce};
use vstd::arithmetic::div_mod::{lemma_add_mod_noop, lemma_fundamental_div_mod, lemma_fundamental_div_mod_converse, lemma_mod_multiples_basic};

/// Powers of the primitive root for the forward transform, Montgomery form,
/// bit-reversed order.
pub const ZETAS: [i16; 128] = [
    2285, 2571, 2970, 1812, 1493, 1422, 287, 202, 3158, 622, 1577, 182,
    962, 2127, 1855, 1468, 573, 2004, 264, 383, 2500, 1458, 1727, 3199,
    2648, 1017, 732, 608, 1787, 411, 3124, 1758, 1223, 652, 2777, 1015,
    2036, 1491, 3047, 1785, 516, 3321, 3009, 2663, 1711, 2167, 126, 1469,
    2476, 3239, 3058, 830, 107, 1908, 3082, 2378, 2931, 961, 1821, 2604,
    448, 2264, 677, 2054, 2226, 430, 555, 843, 2078, 871, 1550, 105,
    422, 587, 177, 3094, 3038, 2869, 1574, 1653, 3083, 778, 1159, 3182,
    2552, 1483, 2727, 1119, 1739, 644, 2457, 349, 418, 329, 3173, 3254,
    817, 1097, 603, 610, 1322, 2044, 1864, 384, 2114, 3193, 1218, 1994,
    2455, 220, 2142, 1670, 2144, 1799, 2051, 794, 1819, 2475, 2459, 478,
    3221, 3021, 996, 991, 958, 1869, 1522, 1628,
];

/// Twiddle factors for the inverse transform; the last entry is the combined
/// scaling factor 2^32 / 128 mod q applied at the end, which removes the
/// doubling of the seven layers and lands the transform pair on the
/// Montgomery scale.
pub const ZETAS_INV: [i16; 128] = [
    1701, 1807, 1460, 2371, 2338, 2333, 308, 108, 2851, 870, 854, 1510,
    2535, 1278, 1530, 1185, 1659, 1187, 3109, 874, 1335, 2111, 136, 1215,
    2945, 1465, 1285, 2007, 2719, 2726, 2232, 2512, 75, 156, 3000, 2911,
    2980, 872, 2685, 1590, 2210, 602, 1846, 777, 147, 2170, 2551, 246,
    1676, 1755, 460, 291, 235, 3152, 2742, 2907, 3224, 1779, 2458, 1251,
    2486, 2774, 2899, 1103, 1275, 2652, 1065, 2881, 725, 1508, 2368, 398,
    951, 247, 1421, 3222, 2499, 271, 90, 853, 1860, 3203, 1162, 1618,
    666, 320, 8, 2813, 1544, 282, 1838, 1293, 2314, 552, 2677, 2106,
    1571, 205, 2918, 1542, 2721, 2597, 2312, 681, 130, 1602, 1871, 829,
    2946, 3065, 1325, 2756, 1861, 1474, 1202, 2367, 3147, 1752, 2707, 171,
    3127, 3042, 1907, 1836, 1517, 359, 758, 1441,
];

proof fn lemma_zeta_bound(i: int)
    requires
        0 <= i < 128,
    ensures
        0 < ZETAS@[i] < 3329,
{
}

proof fn lemma_zeta_inv_bound(i: int)
    requires
        0 <= i < 128,
    ensures
        0 < ZETAS_INV@[i] < 3329,
{
}

/// Bounds on a product of bounded factors.
proof fn lemma_mul_bound(a: int, b: int, aa: int, bb: int)
    by (nonlinear_arith)
    requires
        -aa <= a <= aa,
        -bb <= b <= bb,
        0 <= aa,
        0 <= bb,
    ensures
        -(aa * bb) <= a * b <= aa * bb,
{
}

/// Multiply and Montgomery-reduce: the result represents `a * b / 2^16` in
/// Z_q and lies strictly between -q and q.
fn fqmul(a: i16, b: i16) -> (r: i16)
    requires
        -109084672 <= (a as int) * (b as int) < 109084672,
    ensures
        -3329 < r < 3329,
        ((r as int) * 65536 - (a as int) * (b as int)) % 3329 == 0,
{
    montgomery_reduce((a as i32) * (b as i32))
}


/// The coefficient sequence as unbounded integers.
pub open spec fn to_ints(s: Seq<i16>) -> Seq<int> {
    Seq::new(s.len(), |i: int| s[i] as int)
}

/// Multiplication in Z_q with the Montgomery scale removed: `a * b / 2^16`
/// as a canonical residue, since 169 == 2^-16 mod q.
pub open spec fn mont_mul_q(a: int, b: int) -> int {
    (a * b * 169) % 3329
}

/// One Cooley-Tukey layer of the forward transform with butterfly span
/// `len`: position k pairs with k +/- len inside its 2*len block, and the
/// block's twiddle is entry `128/len + k/(2*len)` of the table.
pub open spec fn fwd_layer(s: Seq<int>, len: int) -> Seq<int> {
    Seq::new(
        256,
        |k: int|
            if (k / len) % 2 == 0 {
                (s[k] + mont_mul_q(ZETAS@[128int / len + k / (2 * len)] as int, s[k + len])) % 3329
            } else {
                (s[k - len] - mont_mul_q(ZETAS@[128int / len + k / (2 * len)] as int, s[k])) % 3329
            },
    )
}

/// The image of the full forward transform: seven butterfly layers, spans
/// 128 down to 2, output in bit-reversed order.
pub open spec fn fwd_image(s: Seq<int>) -> Seq<int> {
    fwd_layer(
        fwd_layer(fwd_layer(fwd_layer(fwd_layer(fwd_layer(fwd_layer(s, 128), 64), 32), 16), 8), 4),
        2,
    )
}

/// The first twiddle index of the inverse layer with span `len`.
pub open spec fn inv_kbase(len: int) -> int {
    if len == 2 {
        0
    } else if len == 4 {
        64
    } else if len == 8 {
        96
    } else if len == 16 {
        112
    } else if len == 32 {
        120
    } else if len == 64 {
        124
    } else {
        126
    }
}

/// One Gentleman-Sande layer of the inverse transform with butterfly span
/// `len`.
pub open spec fn inv_layer(s: Seq<int>, len: int) -> Seq<int> {
    Seq::new(
        256,
        |k: int|
            if (k / len) % 2 == 0 {
                (s[k] + s[k + len]) % 3329
            } else {
                mont_mul_q(
                    ZETAS_INV@[inv_kbase(len) + k / (2 * len)] as int,
                    s[k - len] - s[k],
                )
            },
    )
}

/// The image of the full inverse transform: seven layers, spans 2 up to 128,
/// then the final scaling applied to every coefficient.
pub open spec fn inv_image(s: Seq<int>) -> Seq<int> {
    let u = inv_layer(
        inv_layer(inv_layer(inv_layer(inv_layer(inv_layer(inv_layer(s, 2), 4), 8), 16), 32), 64),
        128,
    );
    Seq::new(256, |k: int| mont_mul_q(ZETAS_INV@[127] as int, u[k]))
}

/// Bookkeeping for one butterfly block: with `start == (k - kb) * 2 * len`
/// and `start < 256`, the twiddle index `k` is still in range and a whole
/// block of `2 * len` coefficients fits before index 256.
proof fn lemma_block(len: int, kb: int, k: int, start: int)
    requires
        len == 2 || len == 4 || len == 8 || len == 16 || len == 32 || len == 64 || len == 128,
        0 <= kb,
        kb + 128int / len <= 128,
        start == (k - kb) * 2 * len,
        0 <= start < 256,
    ensures
        kb <= k < 128,
        start + 2 * len <= 256,
        (k + 1 - kb) * 2 * len == start + 2 * len,
{
    if len == 2 {
    } else if len == 4 {
    } else if len == 8 {
    } else if len == 16 {
    } else if len == 32 {
    } else if len == 64 {
    } else {
    }
}

/// Index arithmetic of a butterfly pair: the lower position `j` of a block
/// sits in an even `len`-half and the upper position `j + len` in the odd
/// one, and both share the block index `kk - kb`.
proof fn lemma_block_pos(len: int, start: int, j: int, kb: int, kk: int)
    requires
        len == 2 || len == 4 || len == 8 || len == 16 || len == 32 || len == 64 || len == 128,
        start == (kk - kb) * 2 * len,
        0 <= start,
        start + 2 * len <= 256,
        start <= j < start + len,
    ensures
        (j / len) % 2 == 0,
        ((j + len) / len) % 2 == 1,
        j / (2 * len) == kk - kb,
        (j + len) / (2 * len) == kk - kb,
{
    let blk = kk - kb;
    let off = j - start;
    if len == 2 {
        lemma_fundamental_div_mod_converse(j, 2, 2 * blk, off);
        lemma_fundamental_div_mod_converse(j + 2, 2, 2 * blk + 1, off);
        lemma_fundamental_div_mod_converse(j, 4, blk, off);
        lemma_fundamental_div_mod_converse(j + 2, 4, blk, off + 2);
    } else if len == 4 {
        lemma_fundamental_div_mod_converse(j, 4, 2 * blk, off);
        lemma_fundamental_div_mod_converse(j + 4, 4, 2 * blk + 1, off);
        lemma_fundamental_div_mod_converse(j, 8, blk, off);
        lemma_fundamental_div_mod_converse(j + 4, 8, blk, off + 4);
    } else if len == 8 {
        lemma_fundamental_div_mod_converse(j, 8, 2 * blk, off);
        lemma_fundamental_div_mod_converse(j + 8, 8, 2 * blk + 1, off);
        lemma_fundamental_div_mod_converse(j, 16, blk, off);
        lemma_fundamental_div_mod_converse(j + 8, 16, blk, off + 8);
    } else if len == 16 {
        lemma_fundamental_div_mod_converse(j, 16, 2 * blk, off);
        lemma_fundamental_div_mod_converse(j + 16, 16, 2 * blk + 1, off);
        lemma_fundamental_div_mod_converse(j, 32, blk, off);
        lemma_fundamental_div_mod_converse(j + 16, 32, blk, off + 16);
    } else if len == 32 {
        lemma_fundamental_div_mod_converse(j, 32, 2 * blk, off);
        lemma_fundamental_div_mod_converse(j + 32, 32, 2 * blk + 1, off);
        lemma_fundamental_div_mod_converse(j, 64, blk, off);
        lemma_fundamental_div_mod_converse(j + 32, 64, blk, off + 32);
    } else if len == 64 {
        lemma_fundamental_div_mod_converse(j, 64, 2 * blk, off);
        lemma_fundamental_div_mod_converse(j + 64, 64, 2 * blk + 1, off);
        lemma_fundamental_div_mod_converse(j, 128, blk, off);
        lemma_fundamental_div_mod_converse(j + 64, 128, blk, off + 64);
    } else {
        lemma_fundamental_div_mod_converse(j, 128, 2 * blk, off);
        lemma_fundamental_div_mod_converse(j + 128, 128, 2 * blk + 1, off);
        lemma_fundamental_div_mod_converse(j, 256, blk, off);
        lemma_fundamental_div_mod_converse(j + 128, 256, blk, off + 128);
    }
}

/// A value congruent to its canonical residue: `x - x % q` is a multiple
/// of q.
pub(crate) proof fn lemma_congruent_mod(x: int)
    ensures
        (x - x % 3329) % 3329 == 0,
{
    lemma_fundamental_div_mod(x, 3329);
    lemma_mod_multiples_basic(x / 3329, 3329);
}

/// A Montgomery product tracks its model: if `t * 2^16 == z * b (mod q)` and
/// `b == sb (mod q)`, then `t == mont_mul_q(z, sb) (mod q)`, using
/// `65536 * 169 == 1 + 3327 * 3329`.
proof fn lemma_mont_mul_model(t: int, z: int, b: int, sb: int)
    requires
        (t * 65536 - z * b) % 3329 == 0,
        (b - sb) % 3329 == 0,
    ensures
        (t - mont_mul_q(z, sb)) % 3329 == 0,
{
    lemma_mod_zero_mul(b - sb, z);
    lemma_mod_zero_add(t * 65536 - z * b, (b - sb) * z);
    assert((t * 65536 - z * b) + (b - sb) * z == t * 65536 - z * sb) by (nonlinear_arith);
    lemma_mod_zero_mul(t * 65536 - z * sb, 169);
    assert((t * 65536 - z * sb) * 169 == t + (t * 3327) * 3329 - z * sb * 169) by (nonlinear_arith);
    lemma_mod_multiples_basic(t * 3327, 3329);
    lemma_mod_zero_mul((t * 3327) * 3329, -1);
    lemma_mod_zero_add((t * 65536 - z * sb) * 169, ((t * 3327) * 3329) * -1);
    assert((t * 65536 - z * sb) * 169 + ((t * 3327) * 3329) * -1 == t - z * sb * 169)
        by (nonlinear_arith);
    lemma_congruent_mod(z * sb * 169);
    lemma_mod_zero_add(t - z * sb * 169, z * sb * 169 - mont_mul_q(z, sb));
}

/// An additive butterfly output tracks its model.
proof fn lemma_bf_add_model(x: int, sx: int, t: int, m: int)
    requires
        (x - sx) % 3329 == 0,
        (t - m) % 3329 == 0,
    ensures
        ((x + t) - (sx + m) % 3329) % 3329 == 0,
{
    lemma_congruent_mod(sx + m);
    lemma_mod_zero_add(x - sx, t - m);
    lemma_mod_zero_add((x - sx) + (t - m), (sx + m) - (sx + m) % 3329);
}

/// A subtractive butterfly output tracks its model.
proof fn lemma_bf_sub_model(x: int, sx: int, t: int, m: int)
    requires
        (x - sx) % 3329 == 0,
        (t - m) % 3329 == 0,
    ensures
        ((x - t) - (sx - m) % 3329) % 3329 == 0,
{
    lemma_congruent_mod(sx - m);
    lemma_mod_zero_mul(t - m, -1);
    lemma_mod_zero_add(x - sx, (t - m) * -1);
    lemma_mod_zero_add((x - sx) + (t - m) * -1, (sx - m) - (sx - m) % 3329);
}

/// A reduced pair sum tracks its model.
proof fn lemma_bf_pair_add(x: int, sx: int, y: int, sy: int, n: int)
    requires
        (x - sx) % 3329 == 0,
        (y - sy) % 3329 == 0,
        (n - (x + y)) % 3329 == 0,
    ensures
        (n - (sx + sy) % 3329) % 3329 == 0,
{
    lemma_congruent_mod(sx + sy);
    lemma_mod_zero_add(x - sx, y - sy);
    lemma_mod_zero_add(n - (x + y), (x - sx) + (y - sy));
    lemma_mod_zero_add((n - (x + y)) + ((x - sx) + (y - sy)), (sx + sy) - (sx + sy) % 3329);
}

/// One executable forward layer, out of place: every output is congruent to
/// the layer image of the ghost model `s`, and magnitudes grow by less
/// than q.
fn fwd_layer_exec(
    a: [i16; 256],
    len: usize,
    kb: usize,
    Ghost(s): Ghost<Seq<int>>,
    Ghost(bnd): Ghost<int>,
) -> (r: [i16; 256])
    requires
        len == 2 || len == 4 || len == 8 || len == 16 || len == 32 || len == 64 || len == 128,
        kb as int == 128int / (len as int),
        s.len() == 256,
        forall|i: int| 0 <= i < 256 ==> ((#[trigger] a@[i]) - s[i]) % 3329 == 0,
        0 <= bnd <= 28166,
        forall|i: int| 0 <= i < 256 ==> -bnd <= #[trigger] a@[i] <= bnd,
    ensures
        forall|i: int|
            0 <= i < 256 ==> ((#[trigger] r@[i]) - fwd_layer(s, len as int)[i]) % 3329 == 0,
        forall|i: int| 0 <= i < 256 ==> -(bnd + 3329) <= #[trigger] r@[i] <= bnd + 3329,
{
    let mut out: [i16; 256] = [0i16; 256];
    let mut k: usize = kb;
    let mut start: usize = 0;
    while start < 256
        invariant
            len == 2 || len == 4 || len == 8 || len == 16 || len == 32 || len == 64 || len == 128,
            kb as int == 128int / (len as int),
            s.len() == 256,
            forall|i: int| 0 <= i < 256 ==> ((#[trigger] a@[i]) - s[i]) % 3329 == 0,
            0 <= bnd <= 28166,
            forall|i: int| 0 <= i < 256 ==> -bnd <= #[trigger] a@[i] <= bnd,
            start as int == (k as int - kb as int) * 2 * (len as int),
            start <= 256,
            forall|i: int|
                0 <= i < start ==> ((#[trigger] out@[i]) - fwd_layer(s, len as int)[i]) % 3329 == 0,
            forall|i: int| 0 <= i < start ==> -(bnd + 3329) <= #[trigger] out@[i] <= bnd + 3329,
        decreases 256 - start,
    {
        proof {
            lemma_block(len as int, kb as int, k as int, start as int);
            lemma_zeta_bound(k as int);
        }
        let zeta: i16 = ZETAS[k];
        let ghost kk: int = k as int;
        k = k + 1;
        let mut j: usize = start;
        while j < start + len
            invariant
                len == 2 || len == 4 || len == 8 || len == 16 || len == 32 || len == 64 || len
                    == 128,
                kb as int == 128int / (len as int),
                s.len() == 256,
                forall|i: int| 0 <= i < 256 ==> ((#[trigger] a@[i]) - s[i]) % 3329 == 0,
                0 <= bnd <= 28166,
                forall|i: int| 0 <= i < 256 ==> -bnd <= #[trigger] a@[i] <= bnd,
                start as int == (kk - kb as int) * 2 * (len as int),
                start as int + 2 * (len as int) <= 256,
                start <= j <= start + len,
                0 < zeta < 3329,
                zeta == ZETAS@[kk],
                forall|i: int|
                    (0 <= i < j && !(start + len <= i)) || (start + len <= i < j + len) ==> ((
                    #[trigger] out@[i]) - fwd_layer(s, len as int)[i]) % 3329 == 0,
                forall|i: int|
                    (0 <= i < j && !(start + len <= i)) || (start + len <= i < j + len) ==> -(bnd
                        + 3329) <= #[trigger] out@[i] <= bnd + 3329,
            decreases start + len - j,
        {
            proof {
                lemma_mul_bound(zeta as int, a@[j + len] as int, 3328, 28166);
            }
            let t: i16 = fqmul(zeta, a[j + len]);
            let lo: i16 = a[j] + t;
            let hi: i16 = a[j] - t;
            out[j] = lo;
            out[j + len] = hi;
            proof {
                lemma_block_pos(len as int, start as int, j as int, kb as int, kk);
                lemma_mont_mul_model(t as int, zeta as int, a@[j + len] as int, s[j + len]);
                lemma_bf_add_model(
                    a@[j as int] as int,
                    s[j as int],
                    t as int,
                    mont_mul_q(zeta as int, s[j + len]),
                );
                lemma_bf_sub_model(
                    a@[j as int] as int,
                    s[j as int],
                    t as int,
                    mont_mul_q(zeta as int, s[j + len]),
                );
                assert(fwd_layer(s, len as int)[j as int] == (s[j as int] + mont_mul_q(
                    zeta as int,
                    s[j + len],
                )) % 3329);
                assert(fwd_layer(s, len as int)[j + len] == (s[j as int] - mont_mul_q(
                    zeta as int,
                    s[j + len],
                )) % 3329);
            }
            j = j + 1;
        }
        start = start + 2 * len;
    }
    out
}

/// Forward negacyclic transform, out of place over seven layers, output in
/// bit-reversed order: every output coefficient is congruent mod q to the
/// transform image of the input, and bounded by the input bound plus 7q.
pub fn ntt(a: [i16; 256]) -> (r: [i16; 256])
    requires
        forall|i: int| 0 <= i < 256 ==> -8192 <= #[trigger] a@[i] <= 8192,
    ensures
        forall|i: int|
            0 <= i < 256 ==> ((#[trigger] r@[i]) - fwd_image(to_ints(a@))[i]) % 3329 == 0,
        forall|i: int| 0 <= i < 256 ==> -31495 <= #[trigger] r@[i] <= 31495,
{
    let ghost s0 = to_ints(a@);
    let r1 = fwd_layer_exec(a, 128, 1, Ghost(s0), Ghost(8192int));
    let ghost s1 = fwd_layer(s0, 128);
    let r2 = fwd_layer_exec(r1, 64, 2, Ghost(s1), Ghost(11521int));
    let ghost s2 = fwd_layer(s1, 64);
    let r3 = fwd_layer_exec(r2, 32, 4, Ghost(s2), Ghost(14850int));
    let ghost s3 = fwd_layer(s2, 32);
    let r4 = fwd_layer_exec(r3, 16, 8, Ghost(s3), Ghost(18179int));
    let ghost s4 = fwd_layer(s3, 16);
    let r5 = fwd_layer_exec(r4, 8, 16, Ghost(s4), Ghost(21508int));
    let ghost s5 = fwd_layer(s4, 8);
    let r6 = fwd_layer_exec(r5, 4, 32, Ghost(s5), Ghost(24837int));
    let ghost s6 = fwd_layer(s5, 4);
    let r7 = fwd_layer_exec(r6, 2, 64, Ghost(s6), Ghost(28166int));
    r7
}

/// One executable inverse layer, out of place: one butterfly output is
/// Barrett-reduced and the other Montgomery-reduced, so every output lies
/// within (-q, q) and is congruent to the layer image of the model `s`.
fn inv_layer_exec(
    a: [i16; 256],
    len: usize,
    kb: usize,
    Ghost(s): Ghost<Seq<int>>,
    Ghost(bnd): Ghost<int>,
) -> (r: [i16; 256])
    requires
        len == 2 || len == 4 || len == 8 || len == 16 || len == 32 || len == 64 || len == 128,
        kb as int == inv_kbase(len as int),
        s.len() == 256,
        forall|i: int| 0 <= i < 256 ==> ((#[trigger] a@[i]) - s[i]) % 3329 == 0,
        0 <= bnd <= 8192,
        forall|i: int| 0 <= i < 256 ==> -bnd <= #[trigger] a@[i] <= bnd,
    ensures
        forall|i: int|
            0 <= i < 256 ==> ((#[trigger] r@[i]) - inv_layer(s, len as int)[i]) % 3329 == 0,
        forall|i: int| 0 <= i < 256 ==> -3328 <= #[trigger] r@[i] <= 3328,
{
    let mut out: [i16; 256] = [0i16; 256];
    let mut k: usize = kb;
    let mut start: usize = 0;
    while start < 256
        invariant
            len == 2 || len == 4 || len == 8 || len == 16 || len == 32 || len == 64 || len == 128,
            kb as int == inv_kbase(len as int),
            s.len() == 256,
            forall|i: int| 0 <= i < 256 ==> ((#[trigger] a@[i]) - s[i]) % 3329 == 0,
            0 <= bnd <= 8192,
            forall|i: int| 0 <= i < 256 ==> -bnd <= #[trigger] a@[i] <= bnd,
            start as int == (k as int - kb as int) * 2 * (len as int),
            start <= 256,
            forall|i: int|
                0 <= i < start ==> ((#[trigger] out@[i]) - inv_layer(s, len as int)[i]) % 3329 == 0,
            forall|i: int| 0 <= i < start ==> -3328 <= #[trigger] out@[i] <= 3328,
        decreases 256 - start,
    {
        proof {
            lemma_block(len as int, kb as int, k as int, start as int);
            lemma_zeta_inv_bound(k as int);
        }
        let zeta: i16 = ZETAS_INV[k];
        let ghost kk: int = k as int;
        k = k + 1;
        let mut j: usize = start;
        while j < start + len
            invariant
                len == 2 || len == 4 || len == 8 || len == 16 || len == 32 || len == 64 || len
                    == 128,
                kb as int == inv_kbase(len as int),
                s.len() == 256,
                forall|i: int| 0 <= i < 256 ==> ((#[trigger] a@[i]) - s[i]) % 3329 == 0,
                0 <= bnd <= 8192,
                forall|i: int| 0 <= i < 256 ==> -bnd <= #[trigger] a@[i] <= bnd,
                start as int == (kk - kb as int) * 2 * (len as int),
                start as int + 2 * (len as int) <= 256,
                start <= j <= start + len,
                0 < zeta < 3329,
                zeta == ZETAS_INV@[kk],
                forall|i: int|
                    (0 <= i < j && !(start + len <= i)) || (start + len <= i < j + len) ==> ((
                    #[trigger] out@[i]) - inv_layer(s, len as int)[i]) % 3329 == 0,
                forall|i: int|
                    (0 <= i < j && !(start + len <= i)) || (start + len <= i < j + len) ==> -3328
                        <= #[trigger] out@[i] <= 3328,
            decreases start + len - j,
        {
            let sum: i16 = a[j] + a[j + len];
            let diff: i16 = a[j] - a[j + len];
            let lo: i16 = barrett_reduce(sum);
            proof {
                lemma_mul_bound(zeta as int, diff as int, 3328, 16384);
            }
            let hi: i16 = fqmul(zeta, diff);
            out[j] = lo;
            out[j + len] = hi;
            proof {
                lemma_block_pos(len as int, start as int, j as int, kb as int, kk);
                lemma_bf_pair_add(
                    a@[j as int] as int,
                    s[j as int],
                    a@[j + len] as int,
                    s[j + len],
                    lo as int,
                );
                lemma_mod_zero_mul(a@[j + len] as int - s[j + len], -1);
                lemma_mod_zero_add(
                    a@[j as int] as int - s[j as int],
                    (a@[j + len] as int - s[j + len]) * -1,
                );
                lemma_mont_mul_model(hi as int, zeta as int, diff as int, s[j as int] - s[j + len]);
                assert(inv_layer(s, len as int)[j as int] == (s[j as int] + s[j + len]) % 3329);
                assert(inv_layer(s, len as int)[j + len] == mont_mul_q(
                    zeta as int,
                    s[j as int] - s[j + len],
                ));
            }
            j = j + 1;
        }
        start = start + 2 * len;
    }
    out
}

/// Inverse negacyclic transform, out of place over seven layers plus the
/// final scaling pass, input in bit-reversed order: every output coefficient
/// is congruent mod q to the inverse-transform image of the input and lies
/// strictly between -q and q.  Composed with the forward transform, the pair
/// scales every coefficient by the Montgomery factor 2^16 mod q.
pub fn invntt(a: [i16; 256]) -> (r: [i16; 256])
    requires
        forall|i: int| 0 <= i < 256 ==> -8192 <= #[trigger] a@[i] <= 8192,
    ensures
        forall|i: int|
            0 <= i < 256 ==> ((#[trigger] r@[i]) - inv_image(to_ints(a@))[i]) % 3329 == 0,
        forall|i: int| 0 <= i < 256 ==> -3328 <= #[trigger] r@[i] <= 3328,
{
    let ghost s0 = to_ints(a@);
    let r1 = inv_layer_exec(a, 2, 0, Ghost(s0), Ghost(8192int));
    let ghost s1 = inv_layer(s0, 2);
    let r2 = inv_layer_exec(r1, 4, 64, Ghost(s1), Ghost(3328int));
    let ghost s2 = inv_layer(s1, 4);
    let r3 = inv_layer_exec(r2, 8, 96, Ghost(s2), Ghost(3328int));
    let ghost s3 = inv_layer(s2, 8);
    let r4 = inv_layer_exec(r3, 16, 112, Ghost(s3), Ghost(3328int));
    let ghost s4 = inv_layer(s3, 16);
    let r5 = inv_layer_exec(r4, 32, 120, Ghost(s4), Ghost(3328int));
    let ghost s5 = inv_layer(s4, 32);
    let r6 = inv_layer_exec(r5, 64, 124, Ghost(s5), Ghost(3328int));
    let ghost s6 = inv_layer(s5, 64);
    let mut r7 = inv_layer_exec(r6, 128, 126, Ghost(s6), Ghost(3328int));
    let ghost s7 = inv_layer(s6, 128);
    proof {
        lemma_zeta_inv_bound(127);
    }
    let f: i16 = ZETAS_INV[127];
    let mut j: usize = 0;
    while j < 256
        invariant
            0 < f < 3329,
            f == ZETAS_INV@[127],
            s7.len() == 256,
            forall|i: int| 0 <= i < 256 ==> ((#[trigger] to_ints(a@)[i]) - s0[i]) % 3329 == 0,
            s7 == inv_layer(
                inv_layer(
                    inv_layer(inv_layer(inv_layer(inv_layer(inv_layer(s0, 2), 4), 8), 16), 32),
                    64,
                ),
                128,
            ),
            s0 == to_ints(a@),
            j <= 256,
            forall|i: int| j <= i < 256 ==> ((#[trigger] r7@[i]) - s7[i]) % 3329 == 0,
            forall|i: int| j <= i < 256 ==> -3328 <= #[trigger] r7@[i] <= 3328,
            forall|i: int|
                0 <= i < j ==> ((#[trigger] r7@[i]) - inv_image(to_ints(a@))[i]) % 3329 == 0,
            forall|i: int| 0 <= i < j ==> -3328 <= #[trigger] r7@[i] <= 3328,
        decreases 256 - j,
    {
        proof {
            lemma_mul_bound(r7@[j as int] as int, f as int, 3328, 3328);
        }
        let v: i16 = fqmul(r7[j], f);
        proof {
            lemma_mont_mul_model(v as int, f as int, r7@[j as int] as int, s7[j as int]);
            assert(inv_image(to_ints(a@))[j as int] == mont_mul_q(f as int, s7[j as int]));
        }
        r7[j] = v;
        j = j + 1;
    }
    r7
}

/// The twiddle of pair block `i` of the twisted base multiplication, as an
/// integer.
pub open spec fn block_zeta(i: int) -> int {
    ZETAS@[64 + i] as int
}

/// The even output of a twisted degree-one product represents
/// `(x1 y1 z + x0 y0 2^16) / 2^32` in Z_q.
pub open spec fn basemul_even_ok(c: int, x0: int, x1: int, y0: int, y1: int, z: int) -> bool {
    (c * 4294967296 - (x1 * y1 * z + x0 * y0 * 65536)) % 3329 == 0
}

/// The odd output represents `(x0 y1 + x1 y0) / 2^16` in Z_q.
pub open spec fn basemul_odd_ok(c: int, x0: int, x1: int, y0: int, y1: int) -> bool {
    (c * 65536 - (x0 * y1 + x1 * y0)) % 3329 == 0
}

/// A multiple of q stays a multiple of q under any integer factor.
pub(crate) proof fn lemma_mod_zero_mul(x: int, k: int)
    requires
        x % 3329 == 0,
    ensures
        (x * k) % 3329 == 0,
{
    lemma_fundamental_div_mod(x, 3329);
    let j = x / 3329;
    assert(x * k == (j * k) * 3329) by (nonlinear_arith)
        requires
            x == 3329 * j,
    ;
    lemma_mod_multiples_basic(j * k, 3329);
}

/// The sum of two multiples of q is a multiple of q.
pub(crate) proof fn lemma_mod_zero_add(x: int, y: int)
    requires
        x % 3329 == 0,
        y % 3329 == 0,
    ensures
        (x + y) % 3329 == 0,
{
    lemma_add_mod_noop(x, y, 3329);
}

/// One twisted degree-one multiplication over F_q[X]/(X^2 - zeta): multiplies
/// `a0 + a1 X` by `b0 + b1 X`.  Each output is a sum of two Montgomery
/// reductions, so its magnitude stays below 2q; the ensures pin the residue
/// classes exactly, up to the 2^16 scaling each reduction introduces.
pub fn basemul(a0: i16, a1: i16, b0: i16, b1: i16, zeta: i16) -> (r: (i16, i16))
    requires
        -4096 <= a0 <= 4096,
        -4096 <= a1 <= 4096,
        -4096 <= b0 <= 4096,
        -4096 <= b1 <= 4096,
        -3329 < zeta < 3329,
    ensures
        -6658 < r.0 < 6658,
        -6658 < r.1 < 6658,
        basemul_even_ok(r.0 as int, a0 as int, a1 as int, b0 as int, b1 as int, zeta as int),
        basemul_odd_ok(r.1 as int, a0 as int, a1 as int, b0 as int, b1 as int),
{
    proof {
        lemma_mul_bound(a1 as int, b1 as int, 4096, 4096);
        lemma_mul_bound(a0 as int, b0 as int, 4096, 4096);
        lemma_mul_bound(a0 as int, b1 as int, 4096, 4096);
        lemma_mul_bound(a1 as int, b0 as int, 4096, 4096);
    }
    let m: i16 = fqmul(a1, b1);
    proof {
        lemma_mul_bound(m as int, zeta as int, 3328, 3328);
    }
    let tw: i16 = fqmul(m, zeta);
    let f0: i16 = fqmul(a0, b0);
    let c0: i16 = tw + f0;
    let g: i16 = fqmul(a0, b1);
    let h: i16 = fqmul(a1, b0);
    let c1: i16 = g + h;
    proof {
        let a0v = a0 as int;
        let a1v = a1 as int;
        let b0v = b0 as int;
        let b1v = b1 as int;
        let zv = zeta as int;
        let x1 = (m as int) * 65536 - a1v * b1v;
        let x2 = (tw as int) * 65536 - (m as int) * zv;
        let x3 = (f0 as int) * 65536 - a0v * b0v;
        assert((c0 as int) * 4294967296 - (a1v * b1v * zv + a0v * b0v * 65536) == x2 * 65536 + x1
            * zv + x3 * 65536) by (nonlinear_arith)
            requires
                x1 == (m as int) * 65536 - a1v * b1v,
                x2 == (tw as int) * 65536 - (m as int) * zv,
                x3 == (f0 as int) * 65536 - a0v * b0v,
                c0 == tw + f0,
                -6658 < c0 < 6658,
        ;
        lemma_mod_zero_mul(x2, 65536);
        lemma_mod_zero_mul(x1, zv);
        lemma_mod_zero_mul(x3, 65536);
        lemma_mod_zero_add(x2 * 65536, x1 * zv);
        lemma_mod_zero_add(x2 * 65536 + x1 * zv, x3 * 65536);
        let y1 = (g as int) * 65536 - a0v * b1v;
        let y2 = (h as int) * 65536 - a1v * b0v;
        lemma_mod_zero_add(y1, y2);
        assert((c1 as int) * 65536 - (a0v * b1v + a1v * b0v) == y1 + y2);
    }
    (c0, c1)
}

/// The block twiddle for twisted base multiplication: entry `64 + i` of the
/// forward table, covering the 64 two-pair blocks.
pub(crate) fn zeta64(i: usize) -> (z: i16)
    requires
        i < 64,
    ensures
        0 < z < 3329,
        z as int == block_zeta(i as int),
{
    proof {
        lemma_zeta_bound(64 + i as int);
    }
    ZETAS[64 + i]
}

} // verus!

//! The algebraic laws of the codec layer, each proved from the contracts of
//! the operations it relates: serialization inverts exactly, compression
//! reconstructs within the rounding bound, noise sampling is deterministic,
//! addition and subtraction cancel, and message embedding decodes exactly.

use vstd::prelude::*;

verus! {

use vstd::arithmetic::div_mod::{
    lemma_div_denominator,
    lemma_fundamental_div_mod,
    lemma_fundamental_div_mod_converse,
    lemma_mod_division_less_than_divisor,
    lemma_small_mod,
};

use crate::cbd::cbd_coeff;
use crate::poly::{
    coeffs_within,
    compress3_shape,
    compress4_shape,
    compress5_shape,
    compress_bits,
    cw3,
    cw4,
    cw5,
    decompress3_shape,
    decompress4_shape,
    decompress5_shape,
    decompress_bits,
    extract3,
    extract4,
    extract5,
    fb0,
    fb1,
    frombytes_shape,
    msg_bit,
    msg_decide,
    pk3_0,
    pk3_1,
    pk3_2,
    pk5_0,
    pk5_1,
    pk5_2,
    pk5_3,
    pk5_4,
    tb0,
    tb1,
    tb2,
    tobytes_shape,
    tomsg_byte,
    Poly,
};
use crate::ntt::{
    fwd_image,
    fwd_layer,
    inv_image,
    inv_kbase,
    inv_layer,
    to_ints,
    lemma_congruent_mod,
    lemma_mod_zero_add,
    lemma_mod_zero_mul,
    mont_mul_q,
    ZETAS,
    ZETAS_INV,
};
use crate::reduce::spec_csubq;
use crate::symmetric::prf_bytes;

/// Distance between two residues of Z_q measured around the ring: the
/// smaller of `|a - b|` and `q - |a - b|`.
pub open spec fn ring_dist(a: int, b: int) -> int {
    let d = if a >= b {
        a - b
    } else {
        b - a
    };
    if d <= 3329 - d {
        d
    } else {
        3329 - d
    }
}

/// One 3-byte group packs two 12-bit values and unpacks to exactly the same
/// two values.
proof fn lemma_pack12_round_trip(c0: int, c1: int)
    requires
        0 <= c0 < 4096,
        0 <= c1 < 4096,
    ensures
        fb0(tb0(c0), tb1(c0, c1)) == c0,
        fb1(tb1(c0, c1), tb2(c1)) == c1,
{
    lemma_fundamental_div_mod(c0, 256);
    lemma_mod_division_less_than_divisor(c0, 256);
    lemma_fundamental_div_mod(c1, 16);
    lemma_mod_division_less_than_divisor(c1, 16);
    assert(tb1(c0, c1) == (c1 % 16) * 16 + c0 / 256);
    lemma_fundamental_div_mod_converse(tb1(c0, c1), 16, c1 % 16, c0 / 256);
}

/// Round-trip serialization: a polynomial whose coefficients are canonical
/// survives `poly_tobytes` followed by `poly_frombytes` unchanged.
pub proof fn lemma_serialize_round_trip(p: Poly, bytes: Seq<u8>, q: Poly)
    requires
        coeffs_within(p.coeffs@, 0, 3328),
        tobytes_shape(p.coeffs@, bytes),
        frombytes_shape(bytes, q.coeffs@),
    ensures
        forall|k: int| 0 <= k < 256 ==> #[trigger] q.coeffs@[k] == p.coeffs@[k],
{
    assert forall|k: int| 0 <= k < 256 implies #[trigger] q.coeffs@[k] == p.coeffs@[k] by {
        let i = k / 2;
        assert(bytes[3 * i] as int == tb0(p.coeffs@[2 * i] as int));
        assert(bytes[3 * i + 1] as int == tb1(p.coeffs@[2 * i] as int, p.coeffs@[2 * i + 1] as int));
        assert(bytes[3 * i + 2] as int == tb2(p.coeffs@[2 * i + 1] as int));
        lemma_pack12_round_trip(p.coeffs@[2 * i] as int, p.coeffs@[2 * i + 1] as int);
        if k % 2 == 0 {
            assert(q.coeffs@[2 * i] as int == fb0(bytes[3 * i] as int, bytes[3 * i + 1] as int));
        } else {
            assert(q.coeffs@[2 * i + 1] as int == fb1(
                bytes[3 * i + 1] as int,
                bytes[3 * i + 2] as int,
            ));
        }
    }
}

/// Rounding to 3 bits and expanding again moves a canonical coefficient by
/// at most q/16 around the ring.
proof fn lemma_compress_error_8(c: int)
    requires
        0 <= c <= 3328,
    ensures
        16 * ring_dist(decompress_bits(compress_bits(c, 8), 8), c) <= 3329,
{
    let x = c * 8 + 1664;
    lemma_fundamental_div_mod(x, 3329);
    lemma_mod_division_less_than_divisor(x, 3329);
    let y0 = x / 3329;
    if y0 < 8 {
        lemma_small_mod(y0 as nat, 8);
        let z0 = y0 * 3329 + 4;
        lemma_fundamental_div_mod(z0, 8);
        lemma_mod_division_less_than_divisor(z0, 8);
    } else {
        assert(y0 == 8);
        assert(compress_bits(c, 8) == 0);
        assert(decompress_bits(0, 8) == 4int / 8);
        lemma_fundamental_div_mod_converse(4, 8, 0, 4);
    }
}

/// Rounding to 4 bits and expanding again moves a canonical coefficient by
/// at most q/32 around the ring.
proof fn lemma_compress_error_16(c: int)
    requires
        0 <= c <= 3328,
    ensures
        32 * ring_dist(decompress_bits(compress_bits(c, 16), 16), c) <= 3329,
{
    let x = c * 16 + 1664;
    lemma_fundamental_div_mod(x, 3329);
    lemma_mod_division_less_than_divisor(x, 3329);
    let y0 = x / 3329;
    if y0 < 16 {
        lemma_small_mod(y0 as nat, 16);
        let z0 = y0 * 3329 + 8;
        lemma_fundamental_div_mod(z0, 16);
        lemma_mod_division_less_than_divisor(z0, 16);
    } else {
        assert(y0 == 16);
        assert(compress_bits(c, 16) == 0);
        assert(decompress_bits(0, 16) == 8int / 16);
        lemma_fundamental_div_mod_converse(8, 16, 0, 8);
    }
}

/// Rounding to 5 bits and expanding again moves a canonical coefficient by
/// at most q/64 around the ring.
proof fn lemma_compress_error_32(c: int)
    requires
        0 <= c <= 3328,
    ensures
        64 * ring_dist(decompress_bits(compress_bits(c, 32), 32), c) <= 3329,
{
    let x = c * 32 + 1664;
    lemma_fundamental_div_mod(x, 3329);
    lemma_mod_division_less_than_divisor(x, 3329);
    let y0 = x / 3329;
    if y0 < 32 {
        lemma_small_mod(y0 as nat, 32);
        let z0 = y0 * 3329 + 16;
        lemma_fundamental_div_mod(z0, 32);
        lemma_mod_division_less_than_divisor(z0, 32);
    } else {
        assert(y0 == 32);
        assert(compress_bits(c, 32) == 0);
        assert(decompress_bits(0, 32) == 16int / 32);
        lemma_fundamental_div_mod_converse(16, 32, 0, 16);
    }
}

/// Unpacking a 3-bit packed group recovers each of the eight packed values.
proof fn lemma_unpack3(
    t0: int,
    t1: int,
    t2: int,
    t3: int,
    t4: int,
    t5: int,
    t6: int,
    t7: int,
    b0: int,
    b1: int,
    b2: int,
)
    requires
        0 <= t0 < 8,
        0 <= t1 < 8,
        0 <= t2 < 8,
        0 <= t3 < 8,
        0 <= t4 < 8,
        0 <= t5 < 8,
        0 <= t6 < 8,
        0 <= t7 < 8,
        b0 == pk3_0(t0, t1, t2),
        b1 == pk3_1(t2, t3, t4, t5),
        b2 == pk3_2(t5, t6, t7),
    ensures
        b0 % 8 == t0,
        (b0 / 8) % 8 == t1,
        b0 / 64 + 4 * (b1 % 2) == t2,
        (b1 / 2) % 8 == t3,
        (b1 / 16) % 8 == t4,
        b1 / 128 + 2 * (b2 % 4) == t5,
        (b2 / 4) % 8 == t6,
        b2 / 32 == t7,
{
    lemma_fundamental_div_mod(t2, 4);
    lemma_mod_division_less_than_divisor(t2, 4);
    lemma_fundamental_div_mod(t5, 2);
    lemma_mod_division_less_than_divisor(t5, 2);
    assert(b0 == (t1 + 8 * (t2 % 4)) * 8 + t0);
    lemma_fundamental_div_mod_converse(b0, 8, t1 + 8 * (t2 % 4), t0);
    assert(b0 / 8 == (t2 % 4) * 8 + t1);
    lemma_fundamental_div_mod_converse(b0 / 8, 8, t2 % 4, t1);
    lemma_div_denominator(b0, 8, 8);
    assert(b1 == (t3 + 8 * t4 + 64 * (t5 % 2)) * 2 + t2 / 4);
    lemma_fundamental_div_mod_converse(b1, 2, t3 + 8 * t4 + 64 * (t5 % 2), t2 / 4);
    assert(b1 / 2 == (t4 + 8 * (t5 % 2)) * 8 + t3);
    lemma_fundamental_div_mod_converse(b1 / 2, 8, t4 + 8 * (t5 % 2), t3);
    lemma_div_denominator(b1, 2, 8);
    assert(b1 / 16 == (t5 % 2) * 8 + t4);
    lemma_fundamental_div_mod_converse(b1 / 16, 8, t5 % 2, t4);
    lemma_div_denominator(b1, 16, 8);
    assert(b2 == (t6 + 8 * t7) * 4 + t5 / 2);
    lemma_fundamental_div_mod_converse(b2, 4, t6 + 8 * t7, t5 / 2);
    assert(b2 / 4 == t7 * 8 + t6);
    lemma_fundamental_div_mod_converse(b2 / 4, 8, t7, t6);
    lemma_div_denominator(b2, 4, 8);
}

/// Unpacking a 5-bit packed group recovers each of the eight packed values.
proof fn lemma_unpack5(
    t0: int,
    t1: int,
    t2: int,
    t3: int,
    t4: int,
    t5: int,
    t6: int,
    t7: int,
    b0: int,
    b1: int,
    b2: int,
    b3: int,
    b4: int,
)
    requires
        0 <= t0 < 32,
        0 <= t1 < 32,
        0 <= t2 < 32,
        0 <= t3 < 32,
        0 <= t4 < 32,
        0 <= t5 < 32,
        0 <= t6 < 32,
        0 <= t7 < 32,
        b0 == pk5_0(t0, t1),
        b1 == pk5_1(t1, t2, t3),
        b2 == pk5_2(t3, t4),
        b3 == pk5_3(t4, t5, t6),
        b4 == pk5_4(t6, t7),
    ensures
        b0 % 32 == t0,
        b0 / 32 + 8 * (b1 % 4) == t1,
        (b1 / 4) % 32 == t2,
        b1 / 128 + 2 * (b2 % 16) == t3,
        b2 / 16 + 16 * (b3 % 2) == t4,
        (b3 / 2) % 32 == t5,
        b3 / 64 + 4 * (b4 % 8) == t6,
        b4 / 8 == t7,
{
    lemma_fundamental_div_mod(t1, 8);
    lemma_mod_division_less_than_divisor(t1, 8);
    lemma_fundamental_div_mod(t3, 2);
    lemma_mod_division_less_than_divisor(t3, 2);
    lemma_fundamental_div_mod(t4, 16);
    lemma_mod_division_less_than_divisor(t4, 16);
    lemma_fundamental_div_mod(t6, 4);
    lemma_mod_division_less_than_divisor(t6, 4);
    assert(b0 == (t1 % 8) * 32 + t0);
    lemma_fundamental_div_mod_converse(b0, 32, t1 % 8, t0);
    assert(b1 == (t2 + 32 * (t3 % 2)) * 4 + t1 / 8);
    lemma_fundamental_div_mod_converse(b1, 4, t2 + 32 * (t3 % 2), t1 / 8);
    assert(b1 / 4 == (t3 % 2) * 32 + t2);
    lemma_fundamental_div_mod_converse(b1 / 4, 32, t3 % 2, t2);
    lemma_div_denominator(b1, 4, 32);
    assert(b2 == (t4 % 16) * 16 + t3 / 2);
    lemma_fundamental_div_mod_converse(b2, 16, t4 % 16, t3 / 2);
    assert(b3 == (t5 + 32 * (t6 % 4)) * 2 + t4 / 16);
    lemma_fundamental_div_mod_converse(b3, 2, t5 + 32 * (t6 % 4), t4 / 16);
    assert(b3 / 2 == (t6 % 4) * 32 + t5);
    lemma_fundamental_div_mod_converse(b3 / 2, 32, t6 % 4, t5);
    lemma_div_denominator(b3, 2, 32);
    assert(b4 == t7 * 8 + t6 / 4);
    lemma_fundamental_div_mod_converse(b4, 8, t7, t6 / 4);
}

/// Each rounded value lies below its width.
proof fn lemma_cw_bounds(c: Seq<i16>, k: int)
    requires
        0 <= k < 256,
        coeffs_within(c, 0, 3328),
    ensures
        0 <= cw3(c, k) < 8,
        0 <= cw4(c, k) < 16,
        0 <= cw5(c, k) < 32,
{
    lemma_mod_division_less_than_divisor((spec_csubq(c[k] as int) * 8 + 1664) / 3329, 8);
    lemma_mod_division_less_than_divisor((spec_csubq(c[k] as int) * 16 + 1664) / 3329, 16);
    lemma_mod_division_less_than_divisor((spec_csubq(c[k] as int) * 32 + 1664) / 3329, 32);
}

/// Compression error bound: decompressing a compression of a canonical
/// polynomial yields, coefficient by coefficient, a value within q/2^(d+1)
/// of the original, measured around the ring, for every supported width
/// (d = 3, 4, 5 at buffer sizes 96, 128, 160).
pub proof fn lemma_compress_round_trip(p: Poly, bytes: Seq<u8>, q: Poly, w: int)
    requires
        coeffs_within(p.coeffs@, 0, 3328),
        w == 96 || w == 128 || w == 160,
        w == 96 ==> compress3_shape(p.coeffs@, bytes) && decompress3_shape(bytes, q.coeffs@),
        w == 128 ==> compress4_shape(p.coeffs@, bytes) && decompress4_shape(bytes, q.coeffs@),
        w == 160 ==> compress5_shape(p.coeffs@, bytes) && decompress5_shape(bytes, q.coeffs@),
    ensures
        w == 96 ==> forall|k: int|
            0 <= k < 256 ==> 16 * ring_dist(#[trigger] q.coeffs@[k] as int, p.coeffs@[k] as int)
                <= 3329,
        w == 128 ==> forall|k: int|
            0 <= k < 256 ==> 32 * ring_dist(#[trigger] q.coeffs@[k] as int, p.coeffs@[k] as int)
                <= 3329,
        w == 160 ==> forall|k: int|
            0 <= k < 256 ==> 64 * ring_dist(#[trigger] q.coeffs@[k] as int, p.coeffs@[k] as int)
                <= 3329,
{
    if w == 96 {
        assert forall|k: int| 0 <= k < 256 implies 16 * ring_dist(
            #[trigger] q.coeffs@[k] as int,
            p.coeffs@[k] as int,
        ) <= 3329 by {
            let i = k / 8;
            assert(bytes[3 * i] as int == pk3_0(
                cw3(p.coeffs@, 8 * i),
                cw3(p.coeffs@, 8 * i + 1),
                cw3(p.coeffs@, 8 * i + 2),
            ));
            assert(bytes[3 * i + 1] as int == pk3_1(
                cw3(p.coeffs@, 8 * i + 2),
                cw3(p.coeffs@, 8 * i + 3),
                cw3(p.coeffs@, 8 * i + 4),
                cw3(p.coeffs@, 8 * i + 5),
            ));
            assert(bytes[3 * i + 2] as int == pk3_2(
                cw3(p.coeffs@, 8 * i + 5),
                cw3(p.coeffs@, 8 * i + 6),
                cw3(p.coeffs@, 8 * i + 7),
            ));
            lemma_cw_bounds(p.coeffs@, 8 * i);
            lemma_cw_bounds(p.coeffs@, 8 * i + 1);
            lemma_cw_bounds(p.coeffs@, 8 * i + 2);
            lemma_cw_bounds(p.coeffs@, 8 * i + 3);
            lemma_cw_bounds(p.coeffs@, 8 * i + 4);
            lemma_cw_bounds(p.coeffs@, 8 * i + 5);
            lemma_cw_bounds(p.coeffs@, 8 * i + 6);
            lemma_cw_bounds(p.coeffs@, 8 * i + 7);
            lemma_unpack3(
                cw3(p.coeffs@, 8 * i),
                cw3(p.coeffs@, 8 * i + 1),
                cw3(p.coeffs@, 8 * i + 2),
                cw3(p.coeffs@, 8 * i + 3),
                cw3(p.coeffs@, 8 * i + 4),
                cw3(p.coeffs@, 8 * i + 5),
                cw3(p.coeffs@, 8 * i + 6),
                cw3(p.coeffs@, 8 * i + 7),
                bytes[3 * i] as int,
                bytes[3 * i + 1] as int,
                bytes[3 * i + 2] as int,
            );
            assert(extract3(bytes, k) == cw3(p.coeffs@, k));
            assert(q.coeffs@[k] as int == decompress_bits(extract3(bytes, k), 8));
            lemma_compress_error_8(p.coeffs@[k] as int);
        }
    } else if w == 128 {
        assert forall|k: int| 0 <= k < 256 implies 32 * ring_dist(
            #[trigger] q.coeffs@[k] as int,
            p.coeffs@[k] as int,
        ) <= 3329 by {
            let i = k / 2;
            assert(bytes[i] as int == cw4(p.coeffs@, 2 * i) + 16 * cw4(p.coeffs@, 2 * i + 1));
            lemma_cw_bounds(p.coeffs@, 2 * i);
            lemma_cw_bounds(p.coeffs@, 2 * i + 1);
            assert(bytes[i] as int == cw4(p.coeffs@, 2 * i + 1) * 16 + cw4(p.coeffs@, 2 * i));
            lemma_fundamental_div_mod_converse(
                bytes[i] as int,
                16,
                cw4(p.coeffs@, 2 * i + 1),
                cw4(p.coeffs@, 2 * i),
            );
            assert(extract4(bytes, k) == cw4(p.coeffs@, k));
            assert(q.coeffs@[k] as int == decompress_bits(extract4(bytes, k), 16));
            lemma_compress_error_16(p.coeffs@[k] as int);
        }
    } else {
        assert forall|k: int| 0 <= k < 256 implies 64 * ring_dist(
            #[trigger] q.coeffs@[k] as int,
            p.coeffs@[k] as int,
        ) <= 3329 by {
            let i = k / 8;
            assert(bytes[5 * i] as int == pk5_0(cw5(p.coeffs@, 8 * i), cw5(p.coeffs@, 8 * i + 1)));
            assert(bytes[5 * i + 1] as int == pk5_1(
                cw5(p.coeffs@, 8 * i + 1),
                cw5(p.coeffs@, 8 * i + 2),
                cw5(p.coeffs@, 8 * i + 3),
            ));
            assert(bytes[5 * i + 2] as int == pk5_2(
                cw5(p.coeffs@, 8 * i + 3),
                cw5(p.coeffs@, 8 * i + 4),
            ));
            assert(bytes[5 * i + 3] as int == pk5_3(
                cw5(p.coeffs@, 8 * i + 4),
                cw5(p.coeffs@, 8 * i + 5),
                cw5(p.coeffs@, 8 * i + 6),
            ));
            assert(bytes[5 * i + 4] as int == pk5_4(
                cw5(p.coeffs@, 8 * i + 6),
                cw5(p.coeffs@, 8 * i + 7),
            ));
            lemma_cw_bounds(p.coeffs@, 8 * i);
            lemma_cw_bounds(p.coeffs@, 8 * i + 1);
            lemma_cw_bounds(p.coeffs@, 8 * i + 2);
            lemma_cw_bounds(p.coeffs@, 8 * i + 3);
            lemma_cw_bounds(p.coeffs@, 8 * i + 4);
            lemma_cw_bounds(p.coeffs@, 8 * i + 5);
            lemma_cw_bounds(p.coeffs@, 8 * i + 6);
            lemma_cw_bounds(p.coeffs@, 8 * i + 7);
            lemma_unpack5(
                cw5(p.coeffs@, 8 * i),
                cw5(p.coeffs@, 8 * i + 1),
                cw5(p.coeffs@, 8 * i + 2),
                cw5(p.coeffs@, 8 * i + 3),
                cw5(p.coeffs@, 8 * i + 4),
                cw5(p.coeffs@, 8 * i + 5),
                cw5(p.coeffs@, 8 * i + 6),
                cw5(p.coeffs@, 8 * i + 7),
                bytes[5 * i] as int,
                bytes[5 * i + 1] as int,
                bytes[5 * i + 2] as int,
                bytes[5 * i + 3] as int,
                bytes[5 * i + 4] as int,
            );
            assert(extract5(bytes, k) == cw5(p.coeffs@, k));
            assert(q.coeffs@[k] as int == decompress_bits(extract5(bytes, k), 32));
            lemma_compress_error_32(p.coeffs@[k] as int);
        }
    }
}

/// Determinism of noise sampling: two polynomials sampled from the same seed
/// and nonce are identical, coefficient by coefficient.
pub proof fn lemma_noise_deterministic(r1: Poly, r2: Poly, seed: Seq<u8>, nonce: u8)
    requires
        forall|k: int|
            0 <= k < 256 ==> #[trigger] r1.coeffs@[k] == cbd_coeff(prf_bytes(seed, nonce, 128), k),
        forall|k: int|
            0 <= k < 256 ==> #[trigger] r2.coeffs@[k] == cbd_coeff(prf_bytes(seed, nonce, 128), k),
    ensures
        forall|k: int| 0 <= k < 256 ==> #[trigger] r1.coeffs@[k] == r2.coeffs@[k],
{
}

/// Linearity: adding `b` to `a` and then subtracting the same `b` returns
/// `a`, coefficient by coefficient, whenever the intermediate values stay
/// representable — the relation `poly_add` and `poly_sub` establish.
pub proof fn lemma_add_sub_cancel(a: Poly, b: Poly, s: Poly, t: Poly)
    requires
        forall|k: int|
            0 <= k < 256 ==> #[trigger] s.coeffs@[k] == a.coeffs@[k] + b.coeffs@[k],
        forall|k: int|
            0 <= k < 256 ==> #[trigger] t.coeffs@[k] == s.coeffs@[k] - b.coeffs@[k],
    ensures
        forall|k: int| 0 <= k < 256 ==> #[trigger] t.coeffs@[k] == a.coeffs@[k],
{
}

/// A byte equals the weighted sum of its eight bits.
proof fn lemma_byte_from_bits(b: u32)
    by (bit_vector)
    requires
        b < 256,
    ensures
        b == ((b >> 0) & 1) + 2 * ((b >> 1) & 1) + 4 * ((b >> 2) & 1) + 8 * ((b >> 3) & 1) + 16 * (
        (b >> 4) & 1) + 32 * ((b >> 5) & 1) + 64 * ((b >> 6) & 1) + 128 * ((b >> 7) & 1),
{
}

/// One coefficient of an encoded message decodes back to the message bit it
/// came from.
proof fn lemma_decide_bit(m: Seq<u8>, p: Poly, i: int, j: int)
    requires
        m.len() == 32,
        0 <= i < 32,
        0 <= j < 8,
        p.coeffs@[8 * i + j] == 1665 * msg_bit(m, 8 * i + j),
    ensures
        msg_decide(spec_csubq(p.coeffs@[8 * i + j] as int)) == (((m[i] as u32) >> (j as u32)) & 1)
            as int,
{
    let k = 8 * i + j;
    lemma_fundamental_div_mod_converse(k, 8, i, j);
    assert(msg_bit(m, k) == (((m[i] as u32) >> (j as u32)) & 1) as int);
    lemma_bit_le_one_law(m[i] as u32, j as u32);
    if msg_bit(m, k) == 0 {
        assert(p.coeffs@[k] == 0);
        assert(msg_decide(spec_csubq(0)) == 0);
    } else {
        assert(msg_bit(m, k) == 1);
        assert(p.coeffs@[k] == 1665);
        assert(msg_decide(spec_csubq(1665)) == 1);
    }
}

/// Message round trip: encoding a 32-byte message with `poly_frommsg` and
/// decoding with `poly_tomsg`, with no noise in between, reproduces the
/// message exactly.
pub proof fn lemma_message_round_trip(m: Seq<u8>, p: Poly, out: Seq<u8>)
    requires
        m.len() == 32,
        forall|k: int| 0 <= k < 256 ==> #[trigger] p.coeffs@[k] == 1665 * msg_bit(m, k),
        out.len() == 32,
        forall|i: int| 0 <= i < 32 ==> #[trigger] out[i] as int == tomsg_byte(p.coeffs@, i),
    ensures
        forall|i: int| 0 <= i < 32 ==> #[trigger] out[i] == m[i],
{
    assert forall|i: int| 0 <= i < 32 implies #[trigger] out[i] == m[i] by {
        let b = m[i] as u32;
        lemma_byte_from_bits(b);
        assert(p.coeffs@[8 * i + 0] == 1665 * msg_bit(m, 8 * i + 0));
        lemma_decide_bit(m, p, i, 0);
        lemma_decide_bit(m, p, i, 1);
        lemma_decide_bit(m, p, i, 2);
        lemma_decide_bit(m, p, i, 3);
        lemma_decide_bit(m, p, i, 4);
        lemma_decide_bit(m, p, i, 5);
        lemma_decide_bit(m, p, i, 6);
        lemma_decide_bit(m, p, i, 7);
        assert(out[i] as int == tomsg_byte(p.coeffs@, i));
    }
}

/// A single bit of a shifted word is at most one.
proof fn lemma_bit_le_one_law(x: u32, s: u32)
    by (bit_vector)
    ensures
        ((x >> s) & 1) <= 1,
{
}


/// The coefficient-wise sum of two model sequences.
pub open spec fn sum_seq(x: Seq<int>, y: Seq<int>) -> Seq<int> {
    Seq::new(256, |i: int| x[i] + y[i])
}

/// A position in an even `len`-half has its butterfly partner above it,
/// inside the array; one in an odd half has it below.
proof fn lemma_half(len: int, k: int)
    requires
        len == 2 || len == 4 || len == 8 || len == 16 || len == 32 || len == 64 || len == 128,
        0 <= k < 256,
    ensures
        (k / len) % 2 == 0 ==> k + len < 256,
        (k / len) % 2 == 1 ==> 0 <= k - len,
{
    if len == 2 {
        lemma_fundamental_div_mod(k, 2);
        lemma_mod_division_less_than_divisor(k, 2);
        if (k / 2) % 2 == 0 {
            lemma_fundamental_div_mod(k / 2, 2);
            lemma_mod_division_less_than_divisor(k / 2, 2);
        }
    }
    else if len == 4 {
        lemma_fundamental_div_mod(k, 4);
        lemma_mod_division_less_than_divisor(k, 4);
        if (k / 4) % 2 == 0 {
            lemma_fundamental_div_mod(k / 4, 2);
            lemma_mod_division_less_than_divisor(k / 4, 2);
        }
    }
    else if len == 8 {
        lemma_fundamental_div_mod(k, 8);
        lemma_mod_division_less_than_divisor(k, 8);
        if (k / 8) % 2 == 0 {
            lemma_fundamental_div_mod(k / 8, 2);
            lemma_mod_division_less_than_divisor(k / 8, 2);
        }
    }
    else if len == 16 {
        lemma_fundamental_div_mod(k, 16);
        lemma_mod_division_less_than_divisor(k, 16);
        if (k / 16) % 2 == 0 {
            lemma_fundamental_div_mod(k / 16, 2);
            lemma_mod_division_less_than_divisor(k / 16, 2);
        }
    }
    else if len == 32 {
        lemma_fundamental_div_mod(k, 32);
        lemma_mod_division_less_than_divisor(k, 32);
        if (k / 32) % 2 == 0 {
            lemma_fundamental_div_mod(k / 32, 2);
            lemma_mod_division_less_than_divisor(k / 32, 2);
        }
    }
    else if len == 64 {
        lemma_fundamental_div_mod(k, 64);
        lemma_mod_division_less_than_divisor(k, 64);
        if (k / 64) % 2 == 0 {
            lemma_fundamental_div_mod(k / 64, 2);
            lemma_mod_division_less_than_divisor(k / 64, 2);
        }
    }
    else if len == 128 {
        lemma_fundamental_div_mod(k, 128);
        lemma_mod_division_less_than_divisor(k, 128);
        if (k / 128) % 2 == 0 {
            lemma_fundamental_div_mod(k / 128, 2);
            lemma_mod_division_less_than_divisor(k / 128, 2);
        }
    }
}

/// A position in an even `len`-half has its butterfly partner above it,
/// inside the array and in the same block; one in an odd half has it below.
proof fn lemma_half_pair(len: int, k: int)
    requires
        len == 2 || len == 4 || len == 8 || len == 16 || len == 32 || len == 64 || len == 128,
        0 <= k < 256,
    ensures
        (k / len) % 2 == 0 ==> k + len < 256 && (k + len) / (2 * len) == k / (2 * len) && ((k
            + len) / len) % 2 == 1,
        (k / len) % 2 == 1 ==> 0 <= k - len && (k - len) / (2 * len) == k / (2 * len) && ((k - len)
            / len) % 2 == 0,
        0 <= k / (2 * len) < 128int / len,
{
    if len == 2 {
        lemma_fundamental_div_mod(k, 2);
        lemma_mod_division_less_than_divisor(k, 2);
        let d = k / 2;
        let m = k % 2;
        lemma_fundamental_div_mod(d, 2);
        lemma_mod_division_less_than_divisor(d, 2);
        let e = d / 2;
        if d % 2 == 0 {
            assert(k == e * 4 + m);
            lemma_fundamental_div_mod_converse(k, 4, e, m);
            assert(k + 2 == e * 4 + (m + 2));
            lemma_fundamental_div_mod_converse(k + 2, 4, e, m + 2);
            assert(k + 2 == (d + 1) * 2 + m);
            lemma_fundamental_div_mod_converse(k + 2, 2, d + 1, m);
            lemma_fundamental_div_mod_converse(d + 1, 2, e, 1);
        } else {
            assert(k == e * 4 + (m + 2));
            lemma_fundamental_div_mod_converse(k, 4, e, m + 2);
            assert(k - 2 == e * 4 + m);
            lemma_fundamental_div_mod_converse(k - 2, 4, e, m);
            assert(k - 2 == (d - 1) * 2 + m);
            lemma_fundamental_div_mod_converse(k - 2, 2, d - 1, m);
            lemma_fundamental_div_mod_converse(d - 1, 2, e, 0);
        }
    }
    else if len == 4 {
        lemma_fundamental_div_mod(k, 4);
        lemma_mod_division_less_than_divisor(k, 4);
        let d = k / 4;
        let m = k % 4;
        lemma_fundamental_div_mod(d, 2);
        lemma_mod_division_less_than_divisor(d, 2);
        let e = d / 2;
        if d % 2 == 0 {
            assert(k == e * 8 + m);
            lemma_fundamental_div_mod_converse(k, 8, e, m);
            assert(k + 4 == e * 8 + (m + 4));
            lemma_fundamental_div_mod_converse(k + 4, 8, e, m + 4);
            assert(k + 4 == (d + 1) * 4 + m);
            lemma_fundamental_div_mod_converse(k + 4, 4, d + 1, m);
            lemma_fundamental_div_mod_converse(d + 1, 2, e, 1);
        } else {
            assert(k == e * 8 + (m + 4));
            lemma_fundamental_div_mod_converse(k, 8, e, m + 4);
            assert(k - 4 == e * 8 + m);
            lemma_fundamental_div_mod_converse(k - 4, 8, e, m);
            assert(k - 4 == (d - 1) * 4 + m);
            lemma_fundamental_div_mod_converse(k - 4, 4, d - 1, m);
            lemma_fundamental_div_mod_converse(d - 1, 2, e, 0);
        }
    }
    else if len == 8 {
        lemma_fundamental_div_mod(k, 8);
        lemma_mod_division_less_than_divisor(k, 8);
        let d = k / 8;
        let m = k % 8;
        lemma_fundamental_div_mod(d, 2);
        lemma_mod_division_less_than_divisor(d, 2);
        let e = d / 2;
        if d % 2 == 0 {
            assert(k == e * 16 + m);
            lemma_fundamental_div_mod_converse(k, 16, e, m);
            assert(k + 8 == e * 16 + (m + 8));
            lemma_fundamental_div_mod_converse(k + 8, 16, e, m + 8);
            assert(k + 8 == (d + 1) * 8 + m);
            lemma_fundamental_div_mod_converse(k + 8, 8, d + 1, m);
            lemma_fundamental_div_mod_converse(d + 1, 2, e, 1);
        } else {
            assert(k == e * 16 + (m + 8));
            lemma_fundamental_div_mod_converse(k, 16, e, m + 8);
            assert(k - 8 == e * 16 + m);
            lemma_fundamental_div_mod_converse(k - 8, 16, e, m);
            assert(k - 8 == (d - 1) * 8 + m);
            lemma_fundamental_div_mod_converse(k - 8, 8, d - 1, m);
            lemma_fundamental_div_mod_converse(d - 1, 2, e, 0);
        }
    }
    else if len == 16 {
        lemma_fundamental_div_mod(k, 16);
        lemma_mod_division_less_than_divisor(k, 16);
        let d = k / 16;
        let m = k % 16;
        lemma_fundamental_div_mod(d, 2);
        lemma_mod_division_less_than_divisor(d, 2);
        let e = d / 2;
        if d % 2 == 0 {
            assert(k == e * 32 + m);
            lemma_fundamental_div_mod_converse(k, 32, e, m);
            assert(k + 16 == e * 32 + (m + 16));
            lemma_fundamental_div_mod_converse(k + 16, 32, e, m + 16);
            assert(k + 16 == (d + 1) * 16 + m);
            lemma_fundamental_div_mod_converse(k + 16, 16, d + 1, m);
            lemma_fundamental_div_mod_converse(d + 1, 2, e, 1);
        } else {
            assert(k == e * 32 + (m + 16));
            lemma_fundamental_div_mod_converse(k, 32, e, m + 16);
            assert(k - 16 == e * 32 + m);
            lemma_fundamental_div_mod_converse(k - 16, 32, e, m);
            assert(k - 16 == (d - 1) * 16 + m);
            lemma_fundamental_div_mod_converse(k - 16, 16, d - 1, m);
            lemma_fundamental_div_mod_converse(d - 1, 2, e, 0);
        }
    }
    else if len == 32 {
        lemma_fundamental_div_mod(k, 32);
        lemma_mod_division_less_than_divisor(k, 32);
        let d = k / 32;
        let m = k % 32;
        lemma_fundamental_div_mod(d, 2);
        lemma_mod_division_less_than_divisor(d, 2);
        let e = d / 2;
        if d % 2 == 0 {
            assert(k == e * 64 + m);
            lemma_fundamental_div_mod_converse(k, 64, e, m);
            assert(k + 32 == e * 64 + (m + 32));
            lemma_fundamental_div_mod_converse(k + 32, 64, e, m + 32);
            assert(k + 32 == (d + 1) * 32 + m);
            lemma_fundamental_div_mod_converse(k + 32, 32, d + 1, m);
            lemma_fundamental_div_mod_converse(d + 1, 2, e, 1);
        } else {
            assert(k == e * 64 + (m + 32));
            lemma_fundamental_div_mod_converse(k, 64, e, m + 32);
            assert(k - 32 == e * 64 + m);
            lemma_fundamental_div_mod_converse(k - 32, 64, e, m);
            assert(k - 32 == (d - 1) * 32 + m);
            lemma_fundamental_div_mod_converse(k - 32, 32, d - 1, m);
            lemma_fundamental_div_mod_converse(d - 1, 2, e, 0);
        }
    }
    else if len == 64 {
        lemma_fundamental_div_mod(k, 64);
        lemma_mod_division_less_than_divisor(k, 64);
        let d = k / 64;
        let m = k % 64;
        lemma_fundamental_div_mod(d, 2);
        lemma_mod_division_less_than_divisor(d, 2);
        let e = d / 2;
        if d % 2 == 0 {
            assert(k == e * 128 + m);
            lemma_fundamental_div_mod_converse(k, 128, e, m);
            assert(k + 64 == e * 128 + (m + 64));
            lemma_fundamental_div_mod_converse(k + 64, 128, e, m + 64);
            assert(k + 64 == (d + 1) * 64 + m);
            lemma_fundamental_div_mod_converse(k + 64, 64, d + 1, m);
            lemma_fundamental_div_mod_converse(d + 1, 2, e, 1);
        } else {
            assert(k == e * 128 + (m + 64));
            lemma_fundamental_div_mod_converse(k, 128, e, m + 64);
            assert(k - 64 == e * 128 + m);
            lemma_fundamental_div_mod_converse(k - 64, 128, e, m);
            assert(k - 64 == (d - 1) * 64 + m);
            lemma_fundamental_div_mod_converse(k - 64, 64, d - 1, m);
            lemma_fundamental_div_mod_converse(d - 1, 2, e, 0);
        }
    }
    else if len == 128 {
        lemma_fundamental_div_mod(k, 128);
        lemma_mod_division_less_than_divisor(k, 128);
        let d = k / 128;
        let m = k % 128;
        lemma_fundamental_div_mod(d, 2);
        lemma_mod_division_less_than_divisor(d, 2);
        let e = d / 2;
        if d % 2 == 0 {
            assert(k == e * 256 + m);
            lemma_fundamental_div_mod_converse(k, 256, e, m);
            assert(k + 128 == e * 256 + (m + 128));
            lemma_fundamental_div_mod_converse(k + 128, 256, e, m + 128);
            assert(k + 128 == (d + 1) * 128 + m);
            lemma_fundamental_div_mod_converse(k + 128, 128, d + 1, m);
            lemma_fundamental_div_mod_converse(d + 1, 2, e, 1);
        } else {
            assert(k == e * 256 + (m + 128));
            lemma_fundamental_div_mod_converse(k, 256, e, m + 128);
            assert(k - 128 == e * 256 + m);
            lemma_fundamental_div_mod_converse(k - 128, 256, e, m);
            assert(k - 128 == (d - 1) * 128 + m);
            lemma_fundamental_div_mod_converse(k - 128, 128, d - 1, m);
            lemma_fundamental_div_mod_converse(d - 1, 2, e, 0);
        }
    }
}

/// Removing the Montgomery scale distributes over addition, mod q.
proof fn lemma_mm_add(z: int, a: int, b: int)
    ensures
        (mont_mul_q(z, a + b) - (mont_mul_q(z, a) + mont_mul_q(z, b))) % 3329 == 0,
{
    assert(z * (a + b) * 169 == z * a * 169 + z * b * 169) by (nonlinear_arith);
    lemma_congruent_mod(z * (a + b) * 169);
    lemma_congruent_mod(z * a * 169);
    lemma_congruent_mod(z * b * 169);
    lemma_mod_zero_mul(z * (a + b) * 169 - mont_mul_q(z, a + b), -1);
    lemma_mod_zero_add(
        (z * (a + b) * 169 - mont_mul_q(z, a + b)) * -1,
        z * a * 169 - mont_mul_q(z, a),
    );
    lemma_mod_zero_add(
        (z * (a + b) * 169 - mont_mul_q(z, a + b)) * -1 + (z * a * 169 - mont_mul_q(z, a)),
        z * b * 169 - mont_mul_q(z, b),
    );
}

/// Removing the Montgomery scale respects congruence in its second factor.
proof fn lemma_mm_cong(z: int, a: int, b: int)
    requires
        (a - b) % 3329 == 0,
    ensures
        (mont_mul_q(z, a) - mont_mul_q(z, b)) % 3329 == 0,
{
    assert(z * a * 169 - z * b * 169 == (a - b) * (z * 169)) by (nonlinear_arith);
    lemma_mod_zero_mul(a - b, z * 169);
    lemma_congruent_mod(z * a * 169);
    lemma_congruent_mod(z * b * 169);
    lemma_mod_zero_mul(z * a * 169 - mont_mul_q(z, a), -1);
    lemma_mod_zero_add(
        (z * a * 169 - mont_mul_q(z, a)) * -1,
        z * a * 169 - z * b * 169,
    );
    lemma_mod_zero_add(
        (z * a * 169 - mont_mul_q(z, a)) * -1 + (z * a * 169 - z * b * 169),
        z * b * 169 - mont_mul_q(z, b),
    );
}

/// One forward layer applied to a coefficient-wise sum agrees, mod q, with
/// the coefficient-wise sum of the layer applied to each summand.
#[verifier::rlimit(100)]
#[verifier::spinoff_prover]
proof fn lemma_fwd_layer_add(x: Seq<int>, y: Seq<int>, len: int)
    requires
        x.len() == 256,
        y.len() == 256,
        len == 2 || len == 4 || len == 8 || len == 16 || len == 32 || len == 64 || len == 128,
    ensures
        forall|k: int|
            0 <= k < 256 ==> (#[trigger] fwd_layer(sum_seq(x, y), len)[k] - (fwd_layer(x, len)[k]
                + fwd_layer(y, len)[k])) % 3329 == 0,
{
    assert forall|k: int| 0 <= k < 256 implies (#[trigger] fwd_layer(sum_seq(x, y), len)[k] - (
    fwd_layer(x, len)[k] + fwd_layer(y, len)[k])) % 3329 == 0 by {
        lemma_half(len, k);
        let z = ZETAS@[128int / len + k / (2 * len)] as int;
        if (k / len) % 2 == 0 {
            let xa = x[k] + mont_mul_q(z, x[k + len]);
            let ya = y[k] + mont_mul_q(z, y[k + len]);
            let sa = (x[k] + y[k]) + mont_mul_q(z, x[k + len] + y[k + len]);
            lemma_mm_add(z, x[k + len], y[k + len]);
            lemma_congruent_mod(sa);
            lemma_congruent_mod(xa);
            lemma_congruent_mod(ya);
            lemma_mod_zero_mul(sa - sa % 3329, -1);
            lemma_mod_zero_add(
                (sa - sa % 3329) * -1,
                mont_mul_q(z, x[k + len] + y[k + len]) - (mont_mul_q(z, x[k + len]) + mont_mul_q(
                    z,
                    y[k + len],
                )),
            );
            lemma_mod_zero_add(
                (sa - sa % 3329) * -1 + (mont_mul_q(z, x[k + len] + y[k + len]) - (mont_mul_q(
                    z,
                    x[k + len],
                ) + mont_mul_q(z, y[k + len]))),
                (xa - xa % 3329) + (ya - ya % 3329),
            );
            lemma_mod_zero_add((xa - xa % 3329), (ya - ya % 3329));
        } else {
            let xa = x[k - len] - mont_mul_q(z, x[k]);
            let ya = y[k - len] - mont_mul_q(z, y[k]);
            let sa = (x[k - len] + y[k - len]) - mont_mul_q(z, x[k] + y[k]);
            lemma_mm_add(z, x[k], y[k]);
            lemma_congruent_mod(sa);
            lemma_congruent_mod(xa);
            lemma_congruent_mod(ya);
            lemma_mod_zero_mul(sa - sa % 3329, -1);
            lemma_mod_zero_add(
                (sa - sa % 3329) * -1,
                mont_mul_q(z, x[k] + y[k]) - (mont_mul_q(z, x[k]) + mont_mul_q(z, y[k])),
            );
            lemma_mod_zero_add((xa - xa % 3329), (ya - ya % 3329));
            lemma_mod_zero_add(
                (sa - sa % 3329) * -1 + (mont_mul_q(z, x[k] + y[k]) - (mont_mul_q(z, x[k])
                    + mont_mul_q(z, y[k]))),
                (xa - xa % 3329) + (ya - ya % 3329),
            );
        }
    }
}

/// One forward layer respects coefficient-wise congruence mod q.
#[verifier::rlimit(100)]
#[verifier::spinoff_prover]
proof fn lemma_fwd_layer_cong(u: Seq<int>, v: Seq<int>, len: int)
    requires
        u.len() == 256,
        v.len() == 256,
        len == 2 || len == 4 || len == 8 || len == 16 || len == 32 || len == 64 || len == 128,
        forall|i: int| 0 <= i < 256 ==> ((#[trigger] u[i]) - v[i]) % 3329 == 0,
    ensures
        forall|k: int|
            0 <= k < 256 ==> (#[trigger] fwd_layer(u, len)[k] - fwd_layer(v, len)[k]) % 3329 == 0,
{
    assert forall|k: int| 0 <= k < 256 implies (#[trigger] fwd_layer(u, len)[k] - fwd_layer(
        v,
        len,
    )[k]) % 3329 == 0 by {
        lemma_half(len, k);
        let z = ZETAS@[128int / len + k / (2 * len)] as int;
        if (k / len) % 2 == 0 {
            let ua = u[k] + mont_mul_q(z, u[k + len]);
            let va = v[k] + mont_mul_q(z, v[k + len]);
            lemma_mm_cong(z, u[k + len], v[k + len]);
            lemma_congruent_mod(ua);
            lemma_congruent_mod(va);
            lemma_mod_zero_mul(ua - ua % 3329, -1);
            lemma_mod_zero_add(
                (ua - ua % 3329) * -1,
                (u[k] - v[k]) + (mont_mul_q(z, u[k + len]) - mont_mul_q(z, v[k + len])),
            );
            lemma_mod_zero_add(
                u[k] - v[k],
                mont_mul_q(z, u[k + len]) - mont_mul_q(z, v[k + len]),
            );
            lemma_mod_zero_add(
                (ua - ua % 3329) * -1 + ((u[k] - v[k]) + (mont_mul_q(z, u[k + len]) - mont_mul_q(
                    z,
                    v[k + len],
                ))),
                va - va % 3329,
            );
        } else {
            let ua = u[k - len] - mont_mul_q(z, u[k]);
            let va = v[k - len] - mont_mul_q(z, v[k]);
            lemma_mm_cong(z, u[k], v[k]);
            lemma_congruent_mod(ua);
            lemma_congruent_mod(va);
            lemma_mod_zero_mul(ua - ua % 3329, -1);
            lemma_mod_zero_mul(mont_mul_q(z, u[k]) - mont_mul_q(z, v[k]), -1);
            lemma_mod_zero_add(
                u[k - len] - v[k - len],
                (mont_mul_q(z, u[k]) - mont_mul_q(z, v[k])) * -1,
            );
            lemma_mod_zero_add(
                (ua - ua % 3329) * -1,
                (u[k - len] - v[k - len]) + (mont_mul_q(z, u[k]) - mont_mul_q(z, v[k])) * -1,
            );
            lemma_mod_zero_add(
                (ua - ua % 3329) * -1 + ((u[k - len] - v[k - len]) + (mont_mul_q(z, u[k])
                    - mont_mul_q(z, v[k])) * -1),
                va - va % 3329,
            );
        }
    }
}

/// Congruence of model sequences is transitive, coefficient by coefficient.
proof fn lemma_seq_cong_trans(u: Seq<int>, v: Seq<int>, w: Seq<int>)
    requires
        forall|i: int| 0 <= i < 256 ==> ((#[trigger] u[i]) - v[i]) % 3329 == 0,
        forall|i: int| 0 <= i < 256 ==> ((#[trigger] v[i]) - w[i]) % 3329 == 0,
    ensures
        forall|i: int| 0 <= i < 256 ==> ((#[trigger] u[i]) - w[i]) % 3329 == 0,
{
    assert forall|i: int| 0 <= i < 256 implies ((#[trigger] u[i]) - w[i]) % 3329 == 0 by {
        lemma_mod_zero_add(u[i] - v[i], v[i] - w[i]);
    }
}

/// Linearity of the forward transform: the image of a coefficient-wise sum
/// is, mod q, the coefficient-wise sum of the images, so the transform
/// commutes with `poly_add`.
pub proof fn lemma_transform_linear(x: Seq<int>, y: Seq<int>)
    requires
        x.len() == 256,
        y.len() == 256,
    ensures
        forall|k: int|
            0 <= k < 256 ==> (#[trigger] fwd_image(sum_seq(x, y))[k] - (fwd_image(x)[k]
                + fwd_image(y)[k])) % 3329 == 0,
{
    let s0 = sum_seq(x, y);
    let x1 = fwd_layer(x, 128);
    let y1 = fwd_layer(y, 128);
    let s1 = fwd_layer(s0, 128);
    lemma_fwd_layer_add(x, y, 128);
    let x2 = fwd_layer(x1, 64);
    let y2 = fwd_layer(y1, 64);
    let s2 = fwd_layer(s1, 64);
    lemma_fwd_layer_cong(s1, sum_seq(x1, y1), 64);
    lemma_fwd_layer_add(x1, y1, 64);
    lemma_seq_cong_trans(s2, fwd_layer(sum_seq(x1, y1), 64), sum_seq(x2, y2));
    let x3 = fwd_layer(x2, 32);
    let y3 = fwd_layer(y2, 32);
    let s3 = fwd_layer(s2, 32);
    lemma_fwd_layer_cong(s2, sum_seq(x2, y2), 32);
    lemma_fwd_layer_add(x2, y2, 32);
    lemma_seq_cong_trans(s3, fwd_layer(sum_seq(x2, y2), 32), sum_seq(x3, y3));
    let x4 = fwd_layer(x3, 16);
    let y4 = fwd_layer(y3, 16);
    let s4 = fwd_layer(s3, 16);
    lemma_fwd_layer_cong(s3, sum_seq(x3, y3), 16);
    lemma_fwd_layer_add(x3, y3, 16);
    lemma_seq_cong_trans(s4, fwd_layer(sum_seq(x3, y3), 16), sum_seq(x4, y4));
    let x5 = fwd_layer(x4, 8);
    let y5 = fwd_layer(y4, 8);
    let s5 = fwd_layer(s4, 8);
    lemma_fwd_layer_cong(s4, sum_seq(x4, y4), 8);
    lemma_fwd_layer_add(x4, y4, 8);
    lemma_seq_cong_trans(s5, fwd_layer(sum_seq(x4, y4), 8), sum_seq(x5, y5));
    let x6 = fwd_layer(x5, 4);
    let y6 = fwd_layer(y5, 4);
    let s6 = fwd_layer(s5, 4);
    lemma_fwd_layer_cong(s5, sum_seq(x5, y5), 4);
    lemma_fwd_layer_add(x5, y5, 4);
    lemma_seq_cong_trans(s6, fwd_layer(sum_seq(x5, y5), 4), sum_seq(x6, y6));
    let x7 = fwd_layer(x6, 2);
    let y7 = fwd_layer(y6, 2);
    let s7 = fwd_layer(s6, 2);
    lemma_fwd_layer_cong(s6, sum_seq(x6, y6), 2);
    lemma_fwd_layer_add(x6, y6, 2);
    lemma_seq_cong_trans(s7, fwd_layer(sum_seq(x6, y6), 2), sum_seq(x7, y7));
}


/// Linearity through `poly_ntt`: transforming the coefficient-wise sum that
/// `poly_add` builds yields, coefficient by coefficient mod q, the sum of
/// the transforms of the summands.
pub proof fn lemma_ntt_linear(a: Poly, b: Poly, s: Poly, ta: Poly, tb: Poly, ts: Poly)
    requires
        forall|k: int|
            0 <= k < 256 ==> #[trigger] s.coeffs@[k] == a.coeffs@[k] + b.coeffs@[k],
        forall|k: int|
            0 <= k < 256 ==> ((#[trigger] ta.coeffs@[k]) - fwd_image(to_ints(a.coeffs@))[k]) % 3329
                == 0,
        forall|k: int|
            0 <= k < 256 ==> ((#[trigger] tb.coeffs@[k]) - fwd_image(to_ints(b.coeffs@))[k]) % 3329
                == 0,
        forall|k: int|
            0 <= k < 256 ==> ((#[trigger] ts.coeffs@[k]) - fwd_image(to_ints(s.coeffs@))[k]) % 3329
                == 0,
    ensures
        forall|k: int|
            0 <= k < 256 ==> ((#[trigger] ts.coeffs@[k]) - (ta.coeffs@[k] + tb.coeffs@[k])) % 3329
                == 0,
{
    assert(to_ints(s.coeffs@) =~= sum_seq(to_ints(a.coeffs@), to_ints(b.coeffs@)));
    lemma_transform_linear(to_ints(a.coeffs@), to_ints(b.coeffs@));
    assert forall|k: int| 0 <= k < 256 implies ((#[trigger] ts.coeffs@[k]) - (ta.coeffs@[k]
        + tb.coeffs@[k])) % 3329 == 0 by {
        let ia = fwd_image(to_ints(a.coeffs@))[k];
        let ib = fwd_image(to_ints(b.coeffs@))[k];
        let is = fwd_image(to_ints(s.coeffs@))[k];
        lemma_mod_zero_mul(ta.coeffs@[k] as int - ia, -1);
        lemma_mod_zero_mul(tb.coeffs@[k] as int - ib, -1);
        lemma_mod_zero_add(ts.coeffs@[k] as int - is, is - (ia + ib));
        lemma_mod_zero_add(
            (ts.coeffs@[k] as int - is) + (is - (ia + ib)),
            (ta.coeffs@[k] as int - ia) * -1,
        );
        lemma_mod_zero_add(
            (ts.coeffs@[k] as int - is) + (is - (ia + ib)) + (ta.coeffs@[k] as int - ia) * -1,
            (tb.coeffs@[k] as int - ib) * -1,
        );
    }
}


/// The coefficient-wise scaling of a model sequence.
pub open spec fn scale_seq(c: int, u: Seq<int>) -> Seq<int> {
    Seq::new(256, |i: int| c * u[i])
}

/// Each inverse twiddle is, up to the two Montgomery scales, the inverse of
/// the forward twiddle of the same block: their product is 2^32 mod q.
#[verifier::rlimit(100)]
#[verifier::spinoff_prover]
proof fn lemma_zeta_pair(len: int, b: int)
    requires
        len == 2 || len == 4 || len == 8 || len == 16 || len == 32 || len == 64 || len == 128,
        0 <= b < 128int / len,
    ensures
        ((ZETAS_INV@[inv_kbase(len) + b] as int) * (ZETAS@[128int / len + b] as int) * 169 * 169
            - 1) % 3329 == 0,
{
    if len == 2 {
        if b == 0 {
            assert(((ZETAS_INV@[0] as int) * (ZETAS@[64] as int) * 169 * 169 - 1) % 3329 == 0)
                by (nonlinear_arith)
                requires
                    ZETAS_INV@[0] == 1701,
                    ZETAS@[64] == 2226,
            ;
        }
        else if b == 1 {
            assert(((ZETAS_INV@[1] as int) * (ZETAS@[65] as int) * 169 * 169 - 1) % 3329 == 0)
                by (nonlinear_arith)
                requires
                    ZETAS_INV@[1] == 1807,
                    ZETAS@[65] == 430,
            ;
        }
        else if b == 2 {
            assert(((ZETAS_INV@[2] as int) * (ZETAS@[66] as int) * 169 * 169 - 1) % 3329 == 0)
                by (nonlinear_arith)
                requires
                    ZETAS_INV@[2] == 1460,
                    ZETAS@[66] == 555,
            ;
        }
        else if b == 3 {
            assert(((ZETAS_INV@[3] as int) * (ZETAS@[67] as int) * 169 * 169 - 1) % 3329 == 0)
                by (nonlinear_arith)
                requires
                    ZETAS_INV@[3] == 2371,
                    ZETAS@[67] == 843,
            ;
        }
        else if b == 4 {
            assert(((ZETAS_INV@[4] as int) * (ZETAS@[68] as int) * 169 * 169 - 1) % 3329 == 0)
                by (nonlinear_arith)
                requires
                    ZETAS_INV@[4] == 2338,
                    ZETAS@[68] == 2078,
            ;
        }
        else if b == 5 {
            assert(((ZETAS_INV@[5] as int) * (ZETAS@[69] as int) * 169 * 169 - 1) % 3329 == 0)
                by (nonlinear_arith)
                requires
                    ZETAS_INV@[5] == 2333,
                    ZETAS@[69] == 871,
            ;
        }
        else if b == 6 {
            assert(((ZETAS_INV@[6] as int) * (ZETAS@[70] as int) * 169 * 169 - 1) % 3329 == 0)
                by (nonlinear_arith)
                requires
                    ZETAS_INV@[6] == 308,
                    ZETAS@[70] == 1550,
            ;
        }
        else if b == 7 {
            assert(((ZETAS_INV@[7] as int) * (ZETAS@[71] as int) * 169 * 169 - 1) % 3329 == 0)
                by (nonlinear_arith)
                requires
                    ZETAS_INV@[7] == 108,
                    ZETAS@[71] == 105,
            ;
        }
        else if b == 8 {
            assert(((ZETAS_INV@[8] as int) * (ZETAS@[72] as int) * 169 * 169 - 1) % 3329 == 0)
                by (nonlinear_arith)
                requires
                    ZETAS_INV@[8] == 2851,
                    ZETAS@[72] == 422,
            ;
        }
        else if b == 9 {
            assert(((ZETAS_INV@[9] as int) * (ZETAS@[73] as int) * 169 * 169 - 1) % 3329 == 0)
                by (nonlinear_arith)
                requires
                    ZETAS_INV@[9] == 870,
                    ZETAS@[73] == 587,
            ;
        }
        else if b == 10 {
            assert(((ZETAS_INV@[10] as int) * (ZETAS@[74] as int) * 169 * 169 - 1) % 3329 == 0)
                by (nonlinear_arith)
                requires
                    ZETAS_INV@[10] == 854,
                    ZETAS@[74] == 177,
            ;
        }
        else if b == 11 {
            assert(((ZETAS_INV@[11] as int) * (ZETAS@[75] as int) * 169 * 169 - 1) % 3329 == 0)
                by (nonlinear_arith)
                requires
                    ZETAS_INV@[11] == 1510,
                    ZETAS@[75] == 3094,
            ;
        }
        else if b == 12 {
            assert(((ZETAS_INV@[12] as int) * (ZETAS@[76] as int) * 169 * 169 - 1) % 3329 == 0)
                by (nonlinear_arith)
                requires
                    ZETAS_INV@[12] == 2535,
                    ZETAS@[76] == 3038,
            ;
        }
        else if b == 13 {
            assert(((ZETAS_INV@[13] as int) * (ZETAS@[77] as int) * 169 * 169 - 1) % 3329 == 0)
                by (nonlinear_arith)
                requires
                    ZETAS_INV@[13] == 1278,
                    ZETAS@[77] == 2869,
            ;
        }
        else if b == 14 {
            assert(((ZETAS_INV@[14] as int) * (ZETAS@[78] as int) * 169 * 169 - 1) % 3329 == 0)
                by (nonlinear_arith)
                requires
                    ZETAS_INV@[14] == 1530,
                    ZETAS@[78] == 1574,
            ;
        }
        else if b == 15 {
            assert(((ZETAS_INV@[15] as int) * (ZETAS@[79] as int) * 169 * 169 - 1) % 3329 == 0)
                by (nonlinear_arith)
                requires
                    ZETAS_INV@[15] == 1185,
                    ZETAS@[79] == 1653,
            ;
        }
        else if b == 16 {
            assert(((ZETAS_INV@[16] as int) * (ZETAS@[80] as int) * 169 * 169 - 1) % 3329 == 0)
                by (nonlinear_arith)
                requires
                    ZETAS_INV@[16] == 1659,
                    ZETAS@[80] == 3083,
            ;
        }
        else if b == 17 {
            assert(((ZETAS_INV@[17] as int) * (ZETAS@[81] as int) * 169 * 169 - 1) % 3329 == 0)
                by (nonlinear_arith)
                requires
                    ZETAS_INV@[17] == 1187,
                    ZETAS@[81] == 778,
            ;
        }
        else if b == 18 {
            assert(((ZETAS_INV@[18] as int) * (ZETAS@[82] as int) * 169 * 169 - 1) % 3329 == 0)
                by (nonlinear_arith)
                requires
                    ZETAS_INV@[18] == 3109,
                    ZETAS@[82] == 1159,
            ;
        }
        else if b == 19 {
            assert(((ZETAS_INV@[19] as int) * (ZETAS@[83] as int) * 169 * 169 - 1) % 3329 == 0)
                by (nonlinear_arith)
                requires
                    ZETAS_INV@[19] == 874,
                    ZETAS@[83] == 3182,
            ;
        }
        else if b == 20 {
            assert(((ZETAS_INV@[20] as int) * (ZETAS@[84] as int) * 169 * 169 - 1) % 3329 == 0)
                by (nonlinear_arith)
                requires
                    ZETAS_INV@[20] == 1335,
                    ZETAS@[84] == 2552,
            ;
        }
        else if b == 21 {
            assert(((ZETAS_INV@[21] as int) * (ZETAS@[85] as int) * 169 * 169 - 1) % 3329 == 0)
                by (nonlinear_arith)
                requires
                    ZETAS_INV@[21] == 2111,
                    ZETAS@[85] == 1483,
            ;
        }
        else if b == 22 {
            assert(((ZETAS_INV@[22] as int) * (ZETAS@[86] as int) * 169 * 169 - 1) % 3329 == 0)
                by (nonlinear_arith)
                requires
                    ZETAS_INV@[22] == 136,
                    ZETAS@[86] == 2727,
            ;
        }
        else if b == 23 {
            assert(((ZETAS_INV@[23] as int) * (ZETAS@[87] as int) * 169 * 169 - 1) % 3329 == 0)
                by (nonlinear_arith)
                requires
                    ZETAS_INV@[23] == 1215,
                    ZETAS@[87] == 1119,
            ;
        }
        else if b == 24 {
            assert(((ZETAS_INV@[24] as int) * (ZETAS@[88] as int) * 169 * 169 - 1) % 3329 == 0)
                by (nonlinear_arith)
                requires
                    ZETAS_INV@[24] == 2945,
                    ZETAS@[88] == 1739,
            ;
        }
        else if b == 25 {
            assert(((ZETAS_INV@[25] as int) * (ZETAS@[89] as int) * 169 * 169 - 1) % 3329 == 0)
                by (nonlinear_arith)
                requires
                    ZETAS_INV@[25] == 1465,
                    ZETAS@[89] == 644,
            ;
        }
        else if b == 26 {
            assert(((ZETAS_INV@[26] as int) * (ZETAS@[90] as int) * 169 * 169 - 1) % 3329 == 0)
                by (nonlinear_arith)
                requires
                    ZETAS_INV@[26] == 1285,
                    ZETAS@[90] == 2457,
            ;
        }
        else if b == 27 {
            assert(((ZETAS_INV@[27] as int) * (ZETAS@[91] as int) * 169 * 169 - 1) % 3329 == 0)
                by (nonlinear_arith)
                requires
                    ZETAS_INV@[27] == 2007,
                    ZETAS@[91] == 349,
            ;
        }
        else if b == 28 {
            assert(((ZETAS_INV@[28] as int) * (ZETAS@[92] as int) * 169 * 169 - 1) % 3329 == 0)
                by (nonlinear_arith)
                requires
                    ZETAS_INV@[28] == 2719,
                    ZETAS@[92] == 418,
            ;
        }
        else if b == 29 {
            assert(((ZETAS_INV@[29] as int) * (ZETAS@[93] as int) * 169 * 169 - 1) % 3329 == 0)
                by (nonlinear_arith)
                requires
                    ZETAS_INV@[29] == 2726,
                    ZETAS@[93] == 329,
            ;
        }
        else if b == 30 {
            assert(((ZETAS_INV@[30] as int) * (ZETAS@[94] as int) * 169 * 169 - 1) % 3329 == 0)
                by (nonlinear_arith)
                requires
                    ZETAS_INV@[30] == 2232,
                    ZETAS@[94] == 3173,
            ;
        }
        else if b == 31 {
            assert(((ZETAS_INV@[31] as int) * (ZETAS@[95] as int) * 169 * 169 - 1) % 3329 == 0)
                by (nonlinear_arith)
                requires
                    ZETAS_INV@[31] == 2512,
                    ZETAS@[95] == 3254,
            ;
        }
        else if b == 32 {
            assert(((ZETAS_INV@[32] as int) * (ZETAS@[96] as int) * 169 * 169 - 1) % 3329 == 0)
                by (nonlinear_arith)
                requires
                    ZETAS_INV@[32] == 75,
                    ZETAS@[96] == 817,
            ;
        }
        else if b == 33 {
            assert(((ZETAS_INV@[33] as int) * (ZETAS@[97] as int) * 169 * 169 - 1) % 3329 == 0)
                by (nonlinear_arith)
                requires
                    ZETAS_INV@[33] == 156,
                    ZETAS@[97] == 1097,
            ;
        }
        else if b == 34 {
            assert(((ZETAS_INV@[34] as int) * (ZETAS@[98] as int) * 169 * 169 - 1) % 3329 == 0)
                by (nonlinear_arith)
                requires
                    ZETAS_INV@[34] == 3000,
                    ZETAS@[98] == 603,
            ;
        }
        else if b == 35 {
            assert(((ZETAS_INV@[35] as int) * (ZETAS@[99] as int) * 169 * 169 - 1) % 3329 == 0)
                by (nonlinear_arith)
                requires
                    ZETAS_INV@[35] == 2911,
                    ZETAS@[99] == 610,
            ;
        }
        else if b == 36 {
            assert(((ZETAS_INV@[36] as int) * (ZETAS@[100] as int) * 169 * 169 - 1) % 3329 == 0)
                by (nonlinear_arith)
                requires
                    ZETAS_INV@[36] == 2980,
                    ZETAS@[100] == 1322,
            ;
        }
        else if b == 37 {
            assert(((ZETAS_INV@[37] as int) * (ZETAS@[101] as int) * 169 * 169 - 1) % 3329 == 0)
                by (nonlinear_arith)
                requires
                    ZETAS_INV@[37] == 872,
                    ZETAS@[101] == 2044,
            ;
        }
        else if b == 38 {
            assert(((ZETAS_INV@[38] as int) * (ZETAS@[102] as int) * 169 * 169 - 1) % 3329 == 0)
                by (nonlinear_arith)
                requires
                    ZETAS_INV@[38] == 2685,
                    ZETAS@[102] == 1864,
            ;
        }
        else if b == 39 {
            assert(((ZETAS_INV@[39] as int) * (ZETAS@[103] as int) * 169 * 169 - 1) % 3329 == 0)
                by (nonlinear_arith)
                requires
                    ZETAS_INV@[39] == 1590,
                    ZETAS@[103] == 384,
            ;
        }
        else if b == 40 {
            assert(((ZETAS_INV@[40] as int) * (ZETAS@[104] as int) * 169 * 169 - 1) % 3329 == 0)
                by (nonlinear_arith)
                requires
                    ZETAS_INV@[40] == 2210,
                    ZETAS@[104] == 2114,
            ;
        }
        else if b == 41 {
            assert(((ZETAS_INV@[41] as int) * (ZETAS@[105] as int) * 169 * 169 - 1) % 3329 == 0)
                by (nonlinear_arith)
                requires
                    ZETAS_INV@[41] == 602,
                    ZETAS@[105] == 3193,
            ;
        }
        else if b == 42 {
            assert(((ZETAS_INV@[42] as int) * (ZETAS@[106] as int) * 169 * 169 - 1) % 3329 == 0)
                by (nonlinear_arith)
                requires
                    ZETAS_INV@[42] == 1846,
                    ZETAS@[106] == 1218,
            ;
        }
        else if b == 43 {
            assert(((ZETAS_INV@[43] as int) * (ZETAS@[107] as int) * 169 * 169 - 1) % 3329 == 0)
                by (nonlinear_arith)
                requires
                    ZETAS_INV@[43] == 777,
                    ZETAS@[107] == 1994,
            ;
        }
        else if b == 44 {
            assert(((ZETAS_INV@[44] as int) * (ZETAS@[108] as int) * 169 * 169 - 1) % 3329 == 0)
                by (nonlinear_arith)
                requires
                    ZETAS_INV@[44] == 147,
                    ZETAS@[108] == 2455,
            ;
        }
        else if b == 45 {
            assert(((ZETAS_INV@[45] as int) * (ZETAS@[109] as int) * 169 * 169 - 1) % 3329 == 0)
                by (nonlinear_arith)
                requires
                    ZETAS_INV@[45] == 2170,
                    ZETAS@[109] == 220,
            ;
        }
        else if b == 46 {
            assert(((ZETAS_INV@[46] as int) * (ZETAS@[110] as int) * 169 * 169 - 1) % 3329 == 0)
                by (nonlinear_arith)
                requires
                    ZETAS_INV@[46] == 2551,
                    ZETAS@[110] == 2142,
            ;
        }
        else if b == 47 {
            assert(((ZETAS_INV@[47] as int) * (ZETAS@[111] as int) * 169 * 169 - 1) % 3329 == 0)
                by (nonlinear_arith)
                requires
                    ZETAS_INV@[47] == 246,
                    ZETAS@[111] == 1670,
            ;
        }
        else if b == 48 {
            assert(((ZETAS_INV@[48] as int) * (ZETAS@[112] as int) * 169 * 169 - 1) % 3329 == 0)
                by (nonlinear_arith)
                requires
                    ZETAS_INV@[48] == 1676,
                    ZETAS@[112] == 2144,
            ;
        }
        else if b == 49 {
            assert(((ZETAS_INV@[49] as int) * (ZETAS@[113] as int) * 169 * 169 - 1) % 3329 == 0)
                by (nonlinear_arith)
                requires
                    ZETAS_INV@[49] == 1755,
                    ZETAS@[113] == 1799,
            ;
        }
        else if b == 50 {
            assert(((ZETAS_INV@[50] as int) * (ZETAS@[114] as int) * 169 * 169 - 1) % 3329 == 0)
                by (nonlinear_arith)
                requires
                    ZETAS_INV@[50] == 460,
                    ZETAS@[114] == 2051,
            ;
        }
        else if b == 51 {
            assert(((ZETAS_INV@[51] as int) * (ZETAS@[115] as int) * 169 * 169 - 1) % 3329 == 0)
                by (nonlinear_arith)
                requires
                    ZETAS_INV@[51] == 291,
                    ZETAS@[115] == 794,
            ;
        }
        else if b == 52 {
            assert(((ZETAS_INV@[52] as int) * (ZETAS@[116] as int) * 169 * 169 - 1) % 3329 == 0)
                by (nonlinear_arith)
                requires
                    ZETAS_INV@[52] == 235,
                    ZETAS@[116] == 1819,
            ;
        }
        else if b == 53 {
            assert(((ZETAS_INV@[53] as int) * (ZETAS@[117] as int) * 169 * 169 - 1) % 3329 == 0)
                by (nonlinear_arith)
                requires
                    ZETAS_INV@[53] == 3152,
                    ZETAS@[117] == 2475,
            ;
        }
        else if b == 54 {
            assert(((ZETAS_INV@[54] as int) * (ZETAS@[118] as int) * 169 * 169 - 1) % 3329 == 0)
                by (nonlinear_arith)
                requires
                    ZETAS_INV@[54] == 2742,
                    ZETAS@[118] == 2459,
            ;
        }
        else if b == 55 {
            assert(((ZETAS_INV@[55] as int) * (ZETAS@[119] as int) * 169 * 169 - 1) % 3329 == 0)
                by (nonlinear_arith)
                requires
                    ZETAS_INV@[55] == 2907,
                    ZETAS@[119] == 478,
            ;
        }
        else if b == 56 {
            assert(((ZETAS_INV@[56] as int) * (ZETAS@[120] as int) * 169 * 169 - 1) % 3329 == 0)
                by (nonlinear_arith)
                requires
                    ZETAS_INV@[56] == 3224,
                    ZETAS@[120] == 3221,
            ;
        }
        else if b == 57 {
            assert(((ZETAS_INV@[57] as int) * (ZETAS@[121] as int) * 169 * 169 - 1) % 3329 == 0)
                by (nonlinear_arith)
                requires
                    ZETAS_INV@[57] == 1779,
                    ZETAS@[121] == 3021,
            ;
        }
        else if b == 58 {
            assert(((ZETAS_INV@[58] as int) * (ZETAS@[122] as int) * 169 * 169 - 1) % 3329 == 0)
                by (nonlinear_arith)
                requires
                    ZETAS_INV@[58] == 2458,
                    ZETAS@[122] == 996,
            ;
        }
        else if b == 59 {
            assert(((ZETAS_INV@[59] as int) * (ZETAS@[123] as int) * 169 * 169 - 1) % 3329 == 0)
                by (nonlinear_arith)
                requires
                    ZETAS_INV@[59] == 1251,
                    ZETAS@[123] == 991,
            ;
        }
        else if b == 60 {
            assert(((ZETAS_INV@[60] as int) * (ZETAS@[124] as int) * 169 * 169 - 1) % 3329 == 0)
                by (nonlinear_arith)
                requires
                    ZETAS_INV@[60] == 2486,
                    ZETAS@[124] == 958,
            ;
        }
        else if b == 61 {
            assert(((ZETAS_INV@[61] as int) * (ZETAS@[125] as int) * 169 * 169 - 1) % 3329 == 0)
                by (nonlinear_arith)
                requires
                    ZETAS_INV@[61] == 2774,
                    ZETAS@[125] == 1869,
            ;
        }
        else if b == 62 {
            assert(((ZETAS_INV@[62] as int) * (ZETAS@[126] as int) * 169 * 169 - 1) % 3329 == 0)
                by (nonlinear_arith)
                requires
                    ZETAS_INV@[62] == 2899,
                    ZETAS@[126] == 1522,
            ;
        }
        else if b == 63 {
            assert(((ZETAS_INV@[63] as int) * (ZETAS@[127] as int) * 169 * 169 - 1) % 3329 == 0)
                by (nonlinear_arith)
                requires
                    ZETAS_INV@[63] == 1103,
                    ZETAS@[127] == 1628,
            ;
        }
    }
    else if len == 4 {
        if b == 0 {
            assert(((ZETAS_INV@[64] as int) * (ZETAS@[32] as int) * 169 * 169 - 1) % 3329 == 0)
                by (nonlinear_arith)
                requires
                    ZETAS_INV@[64] == 1275,
                    ZETAS@[32] == 1223,
            ;
        }
        else if b == 1 {
            assert(((ZETAS_INV@[65] as int) * (ZETAS@[33] as int) * 169 * 169 - 1) % 3329 == 0)
                by (nonlinear_arith)
                requires
                    ZETAS_INV@[65] == 2652,
                    ZETAS@[33] == 652,
            ;
        }
        else if b == 2 {
            assert(((ZETAS_INV@[66] as int) * (ZETAS@[34] as int) * 169 * 169 - 1) % 3329 == 0)
                by (nonlinear_arith)
                requires
                    ZETAS_INV@[66] == 1065,
                    ZETAS@[34] == 2777,
            ;
        }
        else if b == 3 {
            assert(((ZETAS_INV@[67] as int) * (ZETAS@[35] as int) * 169 * 169 - 1) % 3329 == 0)
                by (nonlinear_arith)
                requires
                    ZETAS_INV@[67] == 2881,
                    ZETAS@[35] == 1015,
            ;
        }
        else if b == 4 {
            assert(((ZETAS_INV@[68] as int) * (ZETAS@[36] as int) * 169 * 169 - 1) % 3329 == 0)
                by (nonlinear_arith)
                requires
                    ZETAS_INV@[68] == 725,
                    ZETAS@[36] == 2036,
            ;
        }
        else if b == 5 {
            assert(((ZETAS_INV@[69] as int) * (ZETAS@[37] as int) * 169 * 169 - 1) % 3329 == 0)
                by (nonlinear_arith)
                requires
                    ZETAS_INV@[69] == 1508,
                    ZETAS@[37] == 1491,
            ;
        }
        else if b == 6 {
            assert(((ZETAS_INV@[70] as int) * (ZETAS@[38] as int) * 169 * 169 - 1) % 3329 == 0)
                by (nonlinear_arith)
                requires
                    ZETAS_INV@[70] == 2368,
                    ZETAS@[38] == 3047,
            ;
        }
        else if b == 7 {
            assert(((ZETAS_INV@[71] as int) * (ZETAS@[39] as int) * 169 * 169 - 1) % 3329 == 0)
                by (nonlinear_arith)
                requires
                    ZETAS_INV@[71] == 398,
                    ZETAS@[39] == 1785,
            ;
        }
        else if b == 8 {
            assert(((ZETAS_INV@[72] as int) * (ZETAS@[40] as int) * 169 * 169 - 1) % 3329 == 0)
                by (nonlinear_arith)
                requires
                    ZETAS_INV@[72] == 951,
                    ZETAS@[40] == 516,
            ;
        }
        else if b == 9 {
            assert(((ZETAS_INV@[73] as int) * (ZETAS@[41] as int) * 169 * 169 - 1) % 3329 == 0)
                by (nonlinear_arith)
                requires
                    ZETAS_INV@[73] == 247,
                    ZETAS@[41] == 3321,
            ;
        }
        else if b == 10 {
            assert(((ZETAS_INV@[74] as int) * (ZETAS@[42] as int) * 169 * 169 - 1) % 3329 == 0)
                by (nonlinear_arith)
                requires
                    ZETAS_INV@[74] == 1421,
                    ZETAS@[42] == 3009,
            ;
        }
        else if b == 11 {
            assert(((ZETAS_INV@[75] as int) * (ZETAS@[43] as int) * 169 * 169 - 1) % 3329 == 0)
                by (nonlinear_arith)
                requires
                    ZETAS_INV@[75] == 3222,
                    ZETAS@[43] == 2663,
            ;
        }
        else if b == 12 {
            assert(((ZETAS_INV@[76] as int) * (ZETAS@[44] as int) * 169 * 169 - 1) % 3329 == 0)
                by (nonlinear_arith)
                requires
                    ZETAS_INV@[76] == 2499,
                    ZETAS@[44] == 1711,
            ;
        }
        else if b == 13 {
            assert(((ZETAS_INV@[77] as int) * (ZETAS@[45] as int) * 169 * 169 - 1) % 3329 == 0)
                by (nonlinear_arith)
                requires
                    ZETAS_INV@[77] == 271,
                    ZETAS@[45] == 2167,
            ;
        }
        else if b == 14 {
            assert(((ZETAS_INV@[78] as int) * (ZETAS@[46] as int) * 169 * 169 - 1) % 3329 == 0)
                by (nonlinear_arith)
                requires
                    ZETAS_INV@[78] == 90,
                    ZETAS@[46] == 126,
            ;
        }
        else if b == 15 {
            assert(((ZETAS_INV@[79] as int) * (ZETAS@[47] as int) * 169 * 169 - 1) % 3329 == 0)
                by (nonlinear_arith)
                requires
                    ZETAS_INV@[79] == 853,
                    ZETAS@[47] == 1469,
            ;
        }
        else if b == 16 {
            assert(((ZETAS_INV@[80] as int) * (ZETAS@[48] as int) * 169 * 169 - 1) % 3329 == 0)
                by (nonlinear_arith)
                requires
                    ZETAS_INV@[80] == 1860,
                    ZETAS@[48] == 2476,
            ;
        }
        else if b == 17 {
            assert(((ZETAS_INV@[81] as int) * (ZETAS@[49] as int) * 169 * 169 - 1) % 3329 == 0)
                by (nonlinear_arith)
                requires
                    ZETAS_INV@[81] == 3203,
                    ZETAS@[49] == 3239,
            ;
        }
        else if b == 18 {
            assert(((ZETAS_INV@[82] as int) * (ZETAS@[50] as int) * 169 * 169 - 1) % 3329 == 0)
                by (nonlinear_arith)
                requires
                    ZETAS_INV@[82] == 1162,
                    ZETAS@[50] == 3058,
            ;
        }
        else if b == 19 {
            assert(((ZETAS_INV@[83] as int) * (ZETAS@[51] as int) * 169 * 169 - 1) % 3329 == 0)
                by (nonlinear_arith)
                requires
                    ZETAS_INV@[83] == 1618,
                    ZETAS@[51] == 830,
            ;
        }
        else if b == 20 {
            assert(((ZETAS_INV@[84] as int) * (ZETAS@[52] as int) * 169 * 169 - 1) % 3329 == 0)
                by (nonlinear_arith)
                requires
                    ZETAS_INV@[84] == 666,
                    ZETAS@[52] == 107,
            ;
        }
        else if b == 21 {
            assert(((ZETAS_INV@[85] as int) * (ZETAS@[53] as int) * 169 * 169 - 1) % 3329 == 0)
                by (nonlinear_arith)
                requires
                    ZETAS_INV@[85] == 320,
                    ZETAS@[53] == 1908,
            ;
        }
        else if b == 22 {
            assert(((ZETAS_INV@[86] as int) * (ZETAS@[54] as int) * 169 * 169 - 1) % 3329 == 0)
                by (nonlinear_arith)
                requires
                    ZETAS_INV@[86] == 8,
                    ZETAS@[54] == 3082,
            ;
        }
        else if b == 23 {
            assert(((ZETAS_INV@[87] as int) * (ZETAS@[55] as int) * 169 * 169 - 1) % 3329 == 0)
                by (nonlinear_arith)
                requires
                    ZETAS_INV@[87] == 2813,
                    ZETAS@[55] == 2378,
            ;
        }
        else if b == 24 {
            assert(((ZETAS_INV@[88] as int) * (ZETAS@[56] as int) * 169 * 169 - 1) % 3329 == 0)
                by (nonlinear_arith)
                requires
                    ZETAS_INV@[88] == 1544,
                    ZETAS@[56] == 2931,
            ;
        }
        else if b == 25 {
            assert(((ZETAS_INV@[89] as int) * (ZETAS@[57] as int) * 169 * 169 - 1) % 3329 == 0)
                by (nonlinear_arith)
                requires
                    ZETAS_INV@[89] == 282,
                    ZETAS@[57] == 961,
            ;
        }
        else if b == 26 {
            assert(((ZETAS_INV@[90] as int) * (ZETAS@[58] as int) * 169 * 169 - 1) % 3329 == 0)
                by (nonlinear_arith)
                requires
                    ZETAS_INV@[90] == 1838,
                    ZETAS@[58] == 1821,
            ;
        }
        else if b == 27 {
            assert(((ZETAS_INV@[91] as int) * (ZETAS@[59] as int) * 169 * 169 - 1) % 3329 == 0)
                by (nonlinear_arith)
                requires
                    ZETAS_INV@[91] == 1293,
                    ZETAS@[59] == 2604,
            ;
        }
        else if b == 28 {
            assert(((ZETAS_INV@[92] as int) * (ZETAS@[60] as int) * 169 * 169 - 1) % 3329 == 0)
                by (nonlinear_arith)
                requires
                    ZETAS_INV@[92] == 2314,
                    ZETAS@[60] == 448,
            ;
        }
        else if b == 29 {
            assert(((ZETAS_INV@[93] as int) * (ZETAS@[61] as int) * 169 * 169 - 1) % 3329 == 0)
                by (nonlinear_arith)
                requires
                    ZETAS_INV@[93] == 552,
                    ZETAS@[61] == 2264,
            ;
        }
        else if b == 30 {
            assert(((ZETAS_INV@[94] as int) * (ZETAS@[62] as int) * 169 * 169 - 1) % 3329 == 0)
                by (nonlinear_arith)
                requires
                    ZETAS_INV@[94] == 2677,
                    ZETAS@[62] == 677,
            ;
        }
        else if b == 31 {
            assert(((ZETAS_INV@[95] as int) * (ZETAS@[63] as int) * 169 * 169 - 1) % 3329 == 0)
                by (nonlinear_arith)
                requires
                    ZETAS_INV@[95] == 2106,
                    ZETAS@[63] == 2054,
            ;
        }
    }
    else if len == 8 {
        if b == 0 {
            assert(((ZETAS_INV@[96] as int) * (ZETAS@[16] as int) * 169 * 169 - 1) % 3329 == 0)
                by (nonlinear_arith)
                requires
                    ZETAS_INV@[96] == 1571,
                    ZETAS@[16] == 573,
            ;
        }
        else if b == 1 {
            assert(((ZETAS_INV@[97] as int) * (ZETAS@[17] as int) * 169 * 169 - 1) % 3329 == 0)
                by (nonlinear_arith)
                requires
                    ZETAS_INV@[97] == 205,
                    ZETAS@[17] == 2004,
            ;
        }
        else if b == 2 {
            assert(((ZETAS_INV@[98] as int) * (ZETAS@[18] as int) * 169 * 169 - 1) % 3329 == 0)
                by (nonlinear_arith)
                requires
                    ZETAS_INV@[98] == 2918,
                    ZETAS@[18] == 264,
            ;
        }
        else if b == 3 {
            assert(((ZETAS_INV@[99] as int) * (ZETAS@[19] as int) * 169 * 169 - 1) % 3329 == 0)
                by (nonlinear_arith)
                requires
                    ZETAS_INV@[99] == 1542,
                    ZETAS@[19] == 383,
            ;
        }
        else if b == 4 {
            assert(((ZETAS_INV@[100] as int) * (ZETAS@[20] as int) * 169 * 169 - 1) % 3329 == 0)
                by (nonlinear_arith)
                requires
                    ZETAS_INV@[100] == 2721,
                    ZETAS@[20] == 2500,
            ;
        }
        else if b == 5 {
            assert(((ZETAS_INV@[101] as int) * (ZETAS@[21] as int) * 169 * 169 - 1) % 3329 == 0)
                by (nonlinear_arith)
                requires
                    ZETAS_INV@[101] == 2597,
                    ZETAS@[21] == 1458,
            ;
        }
        else if b == 6 {
            assert(((ZETAS_INV@[102] as int) * (ZETAS@[22] as int) * 169 * 169 - 1) % 3329 == 0)
                by (nonlinear_arith)
                requires
                    ZETAS_INV@[102] == 2312,
                    ZETAS@[22] == 1727,
            ;
        }
        else if b == 7 {
            assert(((ZETAS_INV@[103] as int) * (ZETAS@[23] as int) * 169 * 169 - 1) % 3329 == 0)
                by (nonlinear_arith)
                requires
                    ZETAS_INV@[103] == 681,
                    ZETAS@[23] == 3199,
            ;
        }
        else if b == 8 {
            assert(((ZETAS_INV@[104] as int) * (ZETAS@[24] as int) * 169 * 169 - 1) % 3329 == 0)
                by (nonlinear_arith)
                requires
                    ZETAS_INV@[104] == 130,
                    ZETAS@[24] == 2648,
            ;
        }
        else if b == 9 {
            assert(((ZETAS_INV@[105] as int) * (ZETAS@[25] as int) * 169 * 169 - 1) % 3329 == 0)
                by (nonlinear_arith)
                requires
                    ZETAS_INV@[105] == 1602,
                    ZETAS@[25] == 1017,
            ;
        }
        else if b == 10 {
            assert(((ZETAS_INV@[106] as int) * (ZETAS@[26] as int) * 169 * 169 - 1) % 3329 == 0)
                by (nonlinear_arith)
                requires
                    ZETAS_INV@[106] == 1871,
                    ZETAS@[26] == 732,
            ;
        }
        else if b == 11 {
            assert(((ZETAS_INV@[107] as int) * (ZETAS@[27] as int) * 169 * 169 - 1) % 3329 == 0)
                by (nonlinear_arith)
                requires
                    ZETAS_INV@[107] == 829,
                    ZETAS@[27] == 608,
            ;
        }
        else if b == 12 {
            assert(((ZETAS_INV@[108] as int) * (ZETAS@[28] as int) * 169 * 169 - 1) % 3329 == 0)
                by (nonlinear_arith)
                requires
                    ZETAS_INV@[108] == 2946,
                    ZETAS@[28] == 1787,
            ;
        }
        else if b == 13 {
            assert(((ZETAS_INV@[109] as int) * (ZETAS@[29] as int) * 169 * 169 - 1) % 3329 == 0)
                by (nonlinear_arith)
                requires
                    ZETAS_INV@[109] == 3065,
                    ZETAS@[29] == 411,
            ;
        }
        else if b == 14 {
            assert(((ZETAS_INV@[110] as int) * (ZETAS@[30] as int) * 169 * 169 - 1) % 3329 == 0)
                by (nonlinear_arith)
                requires
                    ZETAS_INV@[110] == 1325,
                    ZETAS@[30] == 3124,
            ;
        }
        else if b == 15 {
            assert(((ZETAS_INV@[111] as int) * (ZETAS@[31] as int) * 169 * 169 - 1) % 3329 == 0)
                by (nonlinear_arith)
                requires
                    ZETAS_INV@[111] == 2756,
                    ZETAS@[31] == 1758,
            ;
        }
    }
    else if len == 16 {
        if b == 0 {
            assert(((ZETAS_INV@[112] as int) * (ZETAS@[8] as int) * 169 * 169 - 1) % 3329 == 0)
                by (nonlinear_arith)
                requires
                    ZETAS_INV@[112] == 1861,
                    ZETAS@[8] == 3158,
            ;
        }
        else if b == 1 {
            assert(((ZETAS_INV@[113] as int) * (ZETAS@[9] as int) * 169 * 169 - 1) % 3329 == 0)
                by (nonlinear_arith)
                requires
                    ZETAS_INV@[113] == 1474,
                    ZETAS@[9] == 622,
            ;
        }
        else if b == 2 {
            assert(((ZETAS_INV@[114] as int) * (ZETAS@[10] as int) * 169 * 169 - 1) % 3329 == 0)
                by (nonlinear_arith)
                requires
                    ZETAS_INV@[114] == 1202,
                    ZETAS@[10] == 1577,
            ;
        }
        else if b == 3 {
            assert(((ZETAS_INV@[115] as int) * (ZETAS@[11] as int) * 169 * 169 - 1) % 3329 == 0)
                by (nonlinear_arith)
                requires
                    ZETAS_INV@[115] == 2367,
                    ZETAS@[11] == 182,
            ;
        }
        else if b == 4 {
            assert(((ZETAS_INV@[116] as int) * (ZETAS@[12] as int) * 169 * 169 - 1) % 3329 == 0)
                by (nonlinear_arith)
                requires
                    ZETAS_INV@[116] == 3147,
                    ZETAS@[12] == 962,
            ;
        }
        else if b == 5 {
            assert(((ZETAS_INV@[117] as int) * (ZETAS@[13] as int) * 169 * 169 - 1) % 3329 == 0)
                by (nonlinear_arith)
                requires
                    ZETAS_INV@[117] == 1752,
                    ZETAS@[13] == 2127,
            ;
        }
        else if b == 6 {
            assert(((ZETAS_INV@[118] as int) * (ZETAS@[14] as int) * 169 * 169 - 1) % 3329 == 0)
                by (nonlinear_arith)
                requires
                    ZETAS_INV@[118] == 2707,
                    ZETAS@[14] == 1855,
            ;
        }
        else if b == 7 {
            assert(((ZETAS_INV@[119] as int) * (ZETAS@[15] as int) * 169 * 169 - 1) % 3329 == 0)
                by (nonlinear_arith)
                requires
                    ZETAS_INV@[119] == 171,
                    ZETAS@[15] == 1468,
            ;
        }
    }
    else if len == 32 {
        if b == 0 {
            assert(((ZETAS_INV@[120] as int) * (ZETAS@[4] as int) * 169 * 169 - 1) % 3329 == 0)
                by (nonlinear_arith)
                requires
                    ZETAS_INV@[120] == 3127,
                    ZETAS@[4] == 1493,
            ;
        }
        else if b == 1 {
            assert(((ZETAS_INV@[121] as int) * (ZETAS@[5] as int) * 169 * 169 - 1) % 3329 == 0)
                by (nonlinear_arith)
                requires
                    ZETAS_INV@[121] == 3042,
                    ZETAS@[5] == 1422,
            ;
        }
        else if b == 2 {
            assert(((ZETAS_INV@[122] as int) * (ZETAS@[6] as int) * 169 * 169 - 1) % 3329 == 0)
                by (nonlinear_arith)
                requires
                    ZETAS_INV@[122] == 1907,
                    ZETAS@[6] == 287,
            ;
        }
        else if b == 3 {
            assert(((ZETAS_INV@[123] as int) * (ZETAS@[7] as int) * 169 * 169 - 1) % 3329 == 0)
                by (nonlinear_arith)
                requires
                    ZETAS_INV@[123] == 1836,
                    ZETAS@[7] == 202,
            ;
        }
    }
    else if len == 64 {
        if b == 0 {
            assert(((ZETAS_INV@[124] as int) * (ZETAS@[2] as int) * 169 * 169 - 1) % 3329 == 0)
                by (nonlinear_arith)
                requires
                    ZETAS_INV@[124] == 1517,
                    ZETAS@[2] == 2970,
            ;
        }
        else if b == 1 {
            assert(((ZETAS_INV@[125] as int) * (ZETAS@[3] as int) * 169 * 169 - 1) % 3329 == 0)
                by (nonlinear_arith)
                requires
                    ZETAS_INV@[125] == 359,
                    ZETAS@[3] == 1812,
            ;
        }
    }
    else if len == 128 {
        if b == 0 {
            assert(((ZETAS_INV@[126] as int) * (ZETAS@[1] as int) * 169 * 169 - 1) % 3329 == 0)
                by (nonlinear_arith)
                requires
                    ZETAS_INV@[126] == 758,
                    ZETAS@[1] == 2571,
            ;
        }
    }
}

/// Undoing a Montgomery product with the paired inverse twiddle returns
/// twice the original value.
proof fn lemma_mm_cancel(zi: int, z: int, w: int)
    requires
        (zi * z * 169 * 169 - 1) % 3329 == 0,
    ensures
        (mont_mul_q(zi, 2 * mont_mul_q(z, w)) - 2 * w) % 3329 == 0,
{
    let m = mont_mul_q(z, w);
    lemma_congruent_mod(z * w * 169);
    lemma_mod_zero_mul(z * w * 169 - m, -1);
    assert(zi * (2 * m) * 169 - zi * (2 * (z * w * 169)) * 169 == ((z * w * 169 - m) * -1) * (2
        * zi * 169)) by (nonlinear_arith);
    assert(zi * (2 * (z * w * 169)) * 169 - 2 * w == (2 * w) * (zi * z * 169 * 169 - 1))
        by (nonlinear_arith);
    lemma_mod_zero_mul((z * w * 169 - m) * -1, 2 * zi * 169);
    lemma_mod_zero_mul(zi * z * 169 * 169 - 1, 2 * w);
    assert((zi * z * 169 * 169 - 1) * (2 * w) == (2 * w) * (zi * z * 169 * 169 - 1))
        by (nonlinear_arith);
    lemma_congruent_mod(zi * (2 * m) * 169);
    lemma_mod_zero_mul(zi * (2 * m) * 169 - mont_mul_q(zi, 2 * m), -1);
    lemma_mod_zero_add(
        (zi * (2 * m) * 169 - mont_mul_q(zi, 2 * m)) * -1,
        ((z * w * 169 - m) * -1) * (2 * zi * 169),
    );
    lemma_mod_zero_add(
        (zi * (2 * m) * 169 - mont_mul_q(zi, 2 * m)) * -1 + ((z * w * 169 - m) * -1) * (2 * zi
            * 169),
        (2 * w) * (zi * z * 169 * 169 - 1),
    );
}

/// The even half of one cancellation butterfly.
#[verifier::rlimit(100)]
#[verifier::spinoff_prover]
proof fn lemma_layer_cancel_even(u: Seq<int>, len: int, k: int)
    requires
        u.len() == 256,
        len == 2 || len == 4 || len == 8 || len == 16 || len == 32 || len == 64 || len == 128,
        0 <= k < 256,
        (k / len) % 2 == 0,
    ensures
        (inv_layer(fwd_layer(u, len), len)[k] - 2 * u[k]) % 3329 == 0,
{
    lemma_half_pair(len, k);
    let fw = fwd_layer(u, len);
    let z = ZETAS@[128int / len + k / (2 * len)] as int;
    let a0 = u[k] + mont_mul_q(z, u[k + len]);
    let b0 = u[k] - mont_mul_q(z, u[k + len]);
    assert(fw[k] == a0 % 3329);
    assert(fw[k + len] == b0 % 3329);
    lemma_congruent_mod(fw[k] + fw[k + len]);
    lemma_mod_zero_mul(fw[k] + fw[k + len] - (fw[k] + fw[k + len]) % 3329, -1);
    lemma_congruent_mod(a0);
    lemma_congruent_mod(b0);
    lemma_mod_zero_add((a0 - a0 % 3329), (b0 - b0 % 3329));
    lemma_mod_zero_add(
        (fw[k] + fw[k + len] - (fw[k] + fw[k + len]) % 3329) * -1,
        (a0 - a0 % 3329) + (b0 - b0 % 3329),
    );
}

/// The scalar content of one odd cancellation butterfly.
proof fn lemma_cancel_odd_core(
    iv: int,
    fa: int,
    fb: int,
    a0: int,
    b0: int,
    mq: int,
    zi: int,
    z: int,
    uk: int,
)
    requires
        a0 - b0 == 2 * mq,
        fa == a0 % 3329,
        fb == b0 % 3329,
        iv == mont_mul_q(zi, fa - fb),
        mq == mont_mul_q(z, uk),
        (zi * z * 169 * 169 - 1) % 3329 == 0,
    ensures
        (iv - 2 * uk) % 3329 == 0,
{
    lemma_congruent_mod(a0);
    lemma_congruent_mod(b0);
    lemma_mod_zero_mul(a0 - fa, -1);
    lemma_mod_zero_add((a0 - fa) * -1, b0 - fb);
    lemma_mod_zero_mul((a0 - fa) * -1 + (b0 - fb), -1);
    lemma_mm_cong(zi, fa - fb, 2 * mq);
    lemma_mm_cancel(zi, z, uk);
    lemma_mod_zero_add(
        mont_mul_q(zi, fa - fb) - mont_mul_q(zi, 2 * mq),
        mont_mul_q(zi, 2 * mq) - 2 * uk,
    );
}

/// The odd half of one cancellation butterfly.
#[verifier::rlimit(100)]
#[verifier::spinoff_prover]
proof fn lemma_layer_cancel_odd(u: Seq<int>, len: int, k: int)
    requires
        u.len() == 256,
        len == 2 || len == 4 || len == 8 || len == 16 || len == 32 || len == 64 || len == 128,
        0 <= k < 256,
        (k / len) % 2 == 1,
    ensures
        (inv_layer(fwd_layer(u, len), len)[k] - 2 * u[k]) % 3329 == 0,
{
    lemma_half_pair(len, k);
    let fw = fwd_layer(u, len);
    let z = ZETAS@[128int / len + k / (2 * len)] as int;
    let zi = ZETAS_INV@[inv_kbase(len) + k / (2 * len)] as int;
    let a0 = u[k - len] + mont_mul_q(z, u[k]);
    let b0 = u[k - len] - mont_mul_q(z, u[k]);
    assert(fw[k - len] == a0 % 3329);
    assert(fw[k] == b0 % 3329);
    assert(inv_layer(fw, len)[k] == mont_mul_q(zi, fw[k - len] - fw[k]));
    lemma_zeta_pair(len, k / (2 * len));
    lemma_cancel_odd_core(
        inv_layer(fw, len)[k],
        fw[k - len],
        fw[k],
        a0,
        b0,
        mont_mul_q(z, u[k]),
        zi,
        z,
        u[k],
    );
}

/// One inverse layer undoes one forward layer of the same span, up to a
/// factor of two on every coefficient.
proof fn lemma_layer_cancel(u: Seq<int>, len: int)
    requires
        u.len() == 256,
        len == 2 || len == 4 || len == 8 || len == 16 || len == 32 || len == 64 || len == 128,
    ensures
        forall|k: int|
            0 <= k < 256 ==> (#[trigger] inv_layer(fwd_layer(u, len), len)[k] - 2 * u[k]) % 3329
                == 0,
{
    assert forall|k: int| 0 <= k < 256 implies (#[trigger] inv_layer(fwd_layer(u, len), len)[k] - 2
        * u[k]) % 3329 == 0 by {
        if (k / len) % 2 == 0 {
            lemma_layer_cancel_even(u, len, k);
        } else {
            lemma_layer_cancel_odd(u, len, k);
        }
    }
}

/// One inverse layer respects coefficient-wise congruence mod q.
#[verifier::rlimit(100)]
#[verifier::spinoff_prover]
proof fn lemma_inv_layer_cong(u: Seq<int>, v: Seq<int>, len: int)
    requires
        u.len() == 256,
        v.len() == 256,
        len == 2 || len == 4 || len == 8 || len == 16 || len == 32 || len == 64 || len == 128,
        forall|i: int| 0 <= i < 256 ==> ((#[trigger] u[i]) - v[i]) % 3329 == 0,
    ensures
        forall|k: int|
            0 <= k < 256 ==> (#[trigger] inv_layer(u, len)[k] - inv_layer(v, len)[k]) % 3329 == 0,
{
    assert forall|k: int| 0 <= k < 256 implies (#[trigger] inv_layer(u, len)[k] - inv_layer(
        v,
        len,
    )[k]) % 3329 == 0 by {
        lemma_half(len, k);
        if (k / len) % 2 == 0 {
            let su = u[k] + u[k + len];
            let sv = v[k] + v[k + len];
            lemma_congruent_mod(su);
            lemma_congruent_mod(sv);
            lemma_mod_zero_mul(su - su % 3329, -1);
            lemma_mod_zero_add(u[k] - v[k], u[k + len] - v[k + len]);
            lemma_mod_zero_add((su - su % 3329) * -1, (u[k] - v[k]) + (u[k + len] - v[k + len]));
            lemma_mod_zero_add(
                (su - su % 3329) * -1 + ((u[k] - v[k]) + (u[k + len] - v[k + len])),
                sv - sv % 3329,
            );
        } else {
            let zi = ZETAS_INV@[inv_kbase(len) + k / (2 * len)] as int;
            lemma_mod_zero_mul(u[k] - v[k], -1);
            lemma_mod_zero_add(u[k - len] - v[k - len], (u[k] - v[k]) * -1);
            lemma_mm_cong(zi, u[k - len] - u[k], v[k - len] - v[k]);
        }
    }
}

/// One inverse layer commutes with a constant coefficient-wise scale, mod q.
#[verifier::rlimit(100)]
#[verifier::spinoff_prover]
proof fn lemma_inv_layer_scalar(u: Seq<int>, len: int, c: int)
    requires
        u.len() == 256,
        len == 2 || len == 4 || len == 8 || len == 16 || len == 32 || len == 64 || len == 128,
    ensures
        forall|k: int|
            0 <= k < 256 ==> (#[trigger] inv_layer(scale_seq(c, u), len)[k] - c * inv_layer(
                u,
                len,
            )[k]) % 3329 == 0,
{
    assert forall|k: int| 0 <= k < 256 implies (#[trigger] inv_layer(scale_seq(c, u), len)[k] - c
        * inv_layer(u, len)[k]) % 3329 == 0 by {
        lemma_half(len, k);
        if (k / len) % 2 == 0 {
            let x = c * u[k] + c * u[k + len];
            let y = u[k] + u[k + len];
            let ym = y % 3329;
            assert(x == c * y) by (nonlinear_arith)
                requires
                    x == c * u[k] + c * u[k + len],
                    y == u[k] + u[k + len],
            ;
            lemma_congruent_mod(x);
            lemma_mod_zero_mul(x - x % 3329, -1);
            lemma_congruent_mod(y);
            lemma_mod_zero_mul(y - ym, c);
            assert((y - ym) * c == c * y - c * ym) by (nonlinear_arith);
            lemma_mod_zero_add((x - x % 3329) * -1, (y - ym) * c);
        } else {
            let zi = ZETAS_INV@[inv_kbase(len) + k / (2 * len)] as int;
            let du = u[k - len] - u[k];
            let p = zi * (c * u[k - len] - c * u[k]) * 169;
            let r0 = zi * du * 169;
            let rm = r0 % 3329;
            assert(r0 == zi * (u[k - len] - u[k]) * 169);
            assert(p == c * r0) by (nonlinear_arith)
                requires
                    p == zi * (c * u[k - len] - c * u[k]) * 169,
                    r0 == zi * (u[k - len] - u[k]) * 169,
            ;
            lemma_congruent_mod(p);
            lemma_mod_zero_mul(p - p % 3329, -1);
            lemma_congruent_mod(r0);
            lemma_mod_zero_mul(r0 - rm, c);
            assert((r0 - rm) * c == c * r0 - c * rm) by (nonlinear_arith);
            lemma_mod_zero_add((p - p % 3329) * -1, (r0 - rm) * c);
        }
    }
}

/// One step of unwinding: if `prev` is congruent to `c` times the forward
/// layer of `mid`, the next inverse layer is congruent to `2 c` times `mid`.
proof fn lemma_inv_step(prev: Seq<int>, mid: Seq<int>, c: int, len: int)
    requires
        prev.len() == 256,
        mid.len() == 256,
        len == 2 || len == 4 || len == 8 || len == 16 || len == 32 || len == 64 || len == 128,
        forall|i: int|
            0 <= i < 256 ==> ((#[trigger] prev[i]) - c * fwd_layer(mid, len)[i]) % 3329 == 0,
    ensures
        forall|k: int|
            0 <= k < 256 ==> (#[trigger] inv_layer(prev, len)[k] - (2 * c) * mid[k]) % 3329 == 0,
{
    assert forall|i: int|
        0 <= i < 256 implies ((#[trigger] prev[i]) - scale_seq(c, fwd_layer(mid, len))[i]) % 3329
        == 0 by {}
    lemma_inv_layer_cong(prev, scale_seq(c, fwd_layer(mid, len)), len);
    lemma_inv_layer_scalar(fwd_layer(mid, len), len, c);
    lemma_layer_cancel(mid, len);
    assert forall|k: int| 0 <= k < 256 implies (#[trigger] inv_layer(prev, len)[k] - (2 * c)
        * mid[k]) % 3329 == 0 by {
        lemma_mod_zero_mul(inv_layer(fwd_layer(mid, len), len)[k] - 2 * mid[k], c);
        assert((inv_layer(fwd_layer(mid, len), len)[k] - 2 * mid[k]) * c == c * inv_layer(
            fwd_layer(mid, len),
            len,
        )[k] - (2 * c) * mid[k]) by (nonlinear_arith);
        lemma_mod_zero_add(
            inv_layer(prev, len)[k] - inv_layer(scale_seq(c, fwd_layer(mid, len)), len)[k],
            inv_layer(scale_seq(c, fwd_layer(mid, len)), len)[k] - c * inv_layer(
                fwd_layer(mid, len),
                len,
            )[k],
        );
        lemma_mod_zero_add(
            inv_layer(prev, len)[k] - c * inv_layer(fwd_layer(mid, len), len)[k],
            (inv_layer(fwd_layer(mid, len), len)[k] - 2 * mid[k]) * c,
        );
    }
}

/// The final scaling pass lands on the Montgomery scale: multiplying a
/// value congruent to `128 * sk` by the folded factor 1441 gives
/// `2285 * sk` mod q, since 1441 * 128 == 2285 * 2^16 in Z_q.
proof fn lemma_scale_point(wk: int, sk: int, fz: int)
    requires
        fz == 1441,
        (wk - 128 * sk) % 3329 == 0,
    ensures
        (mont_mul_q(fz, wk) - 2285 * sk) % 3329 == 0,
{
    lemma_mm_cong(fz, wk, 128 * sk);
    let x = fz * (128 * sk) * 169;
    lemma_congruent_mod(x);
    lemma_mod_zero_mul(x - x % 3329, -1);
    assert(x - 2285 * sk == sk * (fz * 128 * 169 - 2285)) by (nonlinear_arith)
        requires
            x == fz * (128 * sk) * 169,
            fz == 1441,
    ;
    lemma_mod_zero_mul(fz * 128 * 169 - 2285, sk);
    assert((fz * 128 * 169 - 2285) * sk == sk * (fz * 128 * 169 - 2285)) by (nonlinear_arith);
    lemma_mod_zero_add((x - x % 3329) * -1, sk * (fz * 128 * 169 - 2285));
    lemma_mod_zero_add(
        mont_mul_q(fz, wk) - mont_mul_q(fz, 128 * sk),
        (x - x % 3329) * -1 + sk * (fz * 128 * 169 - 2285),
    );
}

/// Transform round trip: the inverse image of the forward image of any model
/// sequence is, coefficient by coefficient mod q, the original scaled by the
/// Montgomery factor 2^16 mod q (= 2285) — seven butterfly cancellations
/// contribute 2^7 and the folded final scaling the rest.
#[verifier::rlimit(100)]
#[verifier::spinoff_prover]
pub proof fn lemma_transform_round_trip(s: Seq<int>)
    requires
        s.len() == 256,
    ensures
        forall|k: int|
            0 <= k < 256 ==> (#[trigger] inv_image(fwd_image(s))[k] - 2285 * s[k]) % 3329 == 0,
{
    let m1 = fwd_layer(s, 128);
    let m2 = fwd_layer(m1, 64);
    let m3 = fwd_layer(m2, 32);
    let m4 = fwd_layer(m3, 16);
    let m5 = fwd_layer(m4, 8);
    let m6 = fwd_layer(m5, 4);
    let f = fwd_image(s);
    let u1 = inv_layer(f, 2);
    let u2 = inv_layer(u1, 4);
    let u3 = inv_layer(u2, 8);
    let u4 = inv_layer(u3, 16);
    let u5 = inv_layer(u4, 32);
    let u6 = inv_layer(u5, 64);
    let u7 = inv_layer(u6, 128);
    lemma_inv_step(f, m6, 1, 2);
    lemma_inv_step(u1, m5, 2, 4);
    lemma_inv_step(u2, m4, 4, 8);
    lemma_inv_step(u3, m3, 8, 16);
    lemma_inv_step(u4, m2, 16, 32);
    lemma_inv_step(u5, m1, 32, 64);
    lemma_inv_step(u6, s, 64, 128);
    let fz = ZETAS_INV@[127] as int;
    assert(fz == 1441);
    assert forall|k: int| 0 <= k < 256 implies (#[trigger] inv_image(fwd_image(s))[k] - 2285
        * s[k]) % 3329 == 0 by {
        assert(inv_image(f)[k] == mont_mul_q(fz, u7[k]));
        lemma_scale_point(u7[k], s[k], fz);
    }
}

/// The inverse image respects coefficient-wise congruence mod q.
#[verifier::rlimit(100)]
#[verifier::spinoff_prover]
proof fn lemma_inv_image_cong(u: Seq<int>, v: Seq<int>)
    requires
        u.len() == 256,
        v.len() == 256,
        forall|i: int| 0 <= i < 256 ==> ((#[trigger] u[i]) - v[i]) % 3329 == 0,
    ensures
        forall|k: int| 0 <= k < 256 ==> (#[trigger] inv_image(u)[k] - inv_image(v)[k]) % 3329 == 0,
{
    lemma_inv_layer_cong(u, v, 2);
    lemma_inv_layer_cong(inv_layer(u, 2), inv_layer(v, 2), 4);
    lemma_inv_layer_cong(inv_layer(inv_layer(u, 2), 4), inv_layer(inv_layer(v, 2), 4), 8);
    let u3 = inv_layer(inv_layer(inv_layer(u, 2), 4), 8);
    let v3 = inv_layer(inv_layer(inv_layer(v, 2), 4), 8);
    lemma_inv_layer_cong(u3, v3, 16);
    lemma_inv_layer_cong(inv_layer(u3, 16), inv_layer(v3, 16), 32);
    lemma_inv_layer_cong(inv_layer(inv_layer(u3, 16), 32), inv_layer(inv_layer(v3, 16), 32), 64);
    let u6 = inv_layer(inv_layer(inv_layer(u3, 16), 32), 64);
    let v6 = inv_layer(inv_layer(inv_layer(v3, 16), 32), 64);
    lemma_inv_layer_cong(u6, v6, 128);
    let u7 = inv_layer(u6, 128);
    let v7 = inv_layer(v6, 128);
    let fz = ZETAS_INV@[127] as int;
    assert forall|k: int| 0 <= k < 256 implies (#[trigger] inv_image(u)[k] - inv_image(v)[k])
        % 3329 == 0 by {
        assert(inv_image(u)[k] == mont_mul_q(fz, u7[k]));
        assert(inv_image(v)[k] == mont_mul_q(fz, v7[k]));
        lemma_mm_cong(fz, u7[k], v7[k]);
    }
}

/// Three pointwise congruences chain into one.
proof fn lemma_round_trip_chain(uc: Seq<i16>, w1: Seq<int>, w2: Seq<int>, pc: Seq<i16>)
    requires
        forall|k: int| 0 <= k < 256 ==> ((#[trigger] uc[k]) - w1[k]) % 3329 == 0,
        forall|k: int| 0 <= k < 256 ==> ((#[trigger] w1[k]) - w2[k]) % 3329 == 0,
        forall|k: int| 0 <= k < 256 ==> ((#[trigger] w2[k]) - 2285 * pc[k]) % 3329 == 0,
    ensures
        forall|k: int| 0 <= k < 256 ==> ((#[trigger] uc[k]) - 2285 * pc[k]) % 3329 == 0,
{
    assert forall|k: int| 0 <= k < 256 implies ((#[trigger] uc[k]) - 2285 * pc[k]) % 3329 == 0 by {
        lemma_mod_zero_add(uc[k] as int - w1[k], w1[k] - w2[k]);
        lemma_mod_zero_add((uc[k] as int - w1[k]) + (w1[k] - w2[k]), w2[k] - 2285 * pc[k]);
    }
}

/// Transform round trip at the polynomial level: applying `poly_ntt` and
/// then `poly_invntt` returns every coefficient scaled by the Montgomery
/// factor 2^16 mod q, the documented scale of the transform pair;
/// canonicalizing both sides then makes them equal as residues.
#[verifier::rlimit(100)]
#[verifier::spinoff_prover]
pub proof fn lemma_poly_transform_round_trip(p: Poly, t: Poly, u: Poly)
    requires
        forall|k: int|
            0 <= k < 256 ==> ((#[trigger] t.coeffs@[k]) - fwd_image(to_ints(p.coeffs@))[k]) % 3329
                == 0,
        forall|k: int|
            0 <= k < 256 ==> ((#[trigger] u.coeffs@[k]) - inv_image(to_ints(t.coeffs@))[k]) % 3329
                == 0,
    ensures
        forall|k: int|
            0 <= k < 256 ==> ((#[trigger] u.coeffs@[k]) - 2285 * p.coeffs@[k]) % 3329 == 0,
{
    let pi = to_ints(p.coeffs@);
    let ti = to_ints(t.coeffs@);
    assert forall|i: int| 0 <= i < 256 implies ((#[trigger] ti[i]) - fwd_image(pi)[i]) % 3329
        == 0 by {
        assert(ti[i] == t.coeffs@[i] as int);
    }
    lemma_inv_image_cong(ti, fwd_image(pi));
    lemma_transform_round_trip(pi);
    assert forall|k: int| 0 <= k < 256 implies ((#[trigger] inv_image(fwd_image(pi))[k]) - 2285
        * p.coeffs@[k]) % 3329 == 0 by {
        assert(pi[k] == p.coeffs@[k] as int);
    }
    lemma_round_trip_chain(u.coeffs@, inv_image(ti), inv_image(fwd_image(pi)), p.coeffs@);
}

} // verus!

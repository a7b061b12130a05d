//! Known-answer and round-trip tests for the number-theoretic transform and
//! the reduction primitives.

use kyber_poly::poly::{
    poly_basemul, poly_csubq, poly_frommont, poly_invntt, poly_ntt, poly_reduce, Poly,
};
use kyber_poly::reduce::{barrett_reduce, csubq, montgomery_reduce};

fn decode_hex(s: &str) -> Vec<u8> {
    let b = s.as_bytes();
    let mut out = Vec::new();
    let mut i = 0;
    while i < b.len() {
        let hi = (b[i] as char).to_digit(16).unwrap();
        let lo = (b[i + 1] as char).to_digit(16).unwrap();
        out.push((hi * 16 + lo) as u8);
        i += 2;
    }
    out
}

fn sample_poly() -> Poly {
    let mut p = Poly::new();
    for i in 0..256usize {
        p.coeffs[i] = (((i * i * 7 + 3 * i + 1) % 3329) as u16) as i16;
    }
    p
}

#[test]
fn ntt_known_vector() {
    let mut p = sample_poly();
    poly_ntt(&mut p);
    let mut buf = vec![0u8; 384];
    kyber_poly::poly::poly_tobytes(&mut buf, &mut p);
    assert_eq!(buf, decode_hex("58306669898166c26732797298d19229a03ed81865cc838be164202eab89d92c8073834e7c07507e11c30e5bad73a1b21357600ed731b37047a66c0d217c8163606c62250927742db382a87b55278a938fa7545c54a51a8eac265387187c294ff6306cb2c04fe54689257a0938d0c612b916f8d9b5f9f14422790159044f4c0040d13c74577679a60c23a3d49ccd64798d977a83f302368b3433fa11795c8ede07b00800a2b8c6c88b397c02fbac00211f6095048a1350581050050008987022b7e7235f28bc70d96c0328cfa6fc67d4ba74bcc0c785c1611d771263184c63817d3bcb1b6275b41d70b80d863a532acc31329fb1a3203b238f6907b491f1ae675252fa1292c15b0a90c227fe1780654249aa088049b37f13b4b24f32b15e713f687045ce76ae97c88299c3bb15b0181a48c047dcc42007742ad2957ec455d388618ee16322366211e69ee0ac9e9022a8db3a2e2a0b62f6b80d968b58cee87f5534ca6fecbfb3b7c3f5846cd23203f718a067090387132679f173bd86c22229b8"));
}

#[test]
fn transform_round_trip() {
    // Forward then inverse transform scales each coefficient by the
    // Montgomery factor 2^16 mod q; base multiplication by the constant
    // polynomial 1 multiplies pointwise by 1 / 2^16, which cancels the
    // scale exactly.
    let mut p = sample_poly();
    let orig = p;
    poly_ntt(&mut p);
    poly_invntt(&mut p);
    let mut one = Poly::new();
    let mut i = 0;
    while i < 256 {
        one.coeffs[i] = 1;
        i += 2;
    }
    let mut out = Poly::new();
    poly_basemul(&mut out, &p, &one);
    poly_reduce(&mut out);
    poly_csubq(&mut out);
    for i in 0..256 {
        assert_eq!(out.coeffs[i], orig.coeffs[i], "index {}", i);
    }
}

#[test]
fn frommont_known_values() {
    let spots: [(i16, i16); 7] = [(0, 0), (1, -1044), (-1, 1044), (100, -1201), (3328, 1044), (-3328, -1044), (2285, 1353)];
    for (c, expect) in spots {
        let mut p = Poly::new();
        p.coeffs[0] = c;
        poly_frommont(&mut p);
        assert_eq!(p.coeffs[0], expect, "input {}", c);
    }
}

#[test]
fn barrett_reduce_known_values() {
    let spots: [(i16, i16); 10] = [(0, 0), (1, 1), (3328, 3328), (3329, 0), (3330, 1), (-1, 3328), (-3329, 0), (32767, 2806), (-32768, 522), (12345, 2358)];
    for (a, expect) in spots {
        assert_eq!(barrett_reduce(a), expect, "input {}", a);
    }
}

#[test]
fn csubq_known_values() {
    let spots: [(i16, i16); 6] = [(0, 0), (1, 1), (3328, 3328), (3329, 0), (3330, 1), (6657, 3328)];
    for (a, expect) in spots {
        assert_eq!(csubq(a), expect, "input {}", a);
    }
}

#[test]
fn montgomery_reduce_congruence() {
    for a in [-109084672i32, -65536, -1, 0, 1, 65536, 3329 * 5, 109084671] {
        let r = montgomery_reduce(a) as i64;
        assert!(-3329 < r && r < 3329);
        assert_eq!((r * 65536 - a as i64).rem_euclid(3329), 0, "input {}", a);
    }
}

#[test]
fn reduce_brings_into_range() {
    let mut p = Poly::new();
    let inputs: [i16; 6] = [-32768, -3329, -1, 3329, 12345, 32767];
    for (i, v) in inputs.iter().enumerate() {
        p.coeffs[i] = *v;
    }
    poly_reduce(&mut p);
    for (i, v) in inputs.iter().enumerate() {
        let r = p.coeffs[i] as i64;
        assert!((0..=3328).contains(&r));
        assert_eq!((r - *v as i64).rem_euclid(3329), 0, "input {}", v);
    }
}

#[test]
fn ntt_linearity() {
    let mut a = Poly::new();
    let mut b = Poly::new();
    for i in 0..256usize {
        a.coeffs[i] = ((i * i * 11 + 5) % 3329) as i16;
        b.coeffs[i] = ((i * 31 + 17) % 3329) as i16;
    }
    let mut s = a;
    kyber_poly::poly::poly_add(&mut s, &b);
    let (mut ta, mut tb, mut ts) = (a, b, s);
    poly_ntt(&mut ta);
    poly_ntt(&mut tb);
    poly_ntt(&mut ts);
    for i in 0..256 {
        let lhs = ts.coeffs[i] as i64;
        let rhs = ta.coeffs[i] as i64 + tb.coeffs[i] as i64;
        assert_eq!((lhs - rhs).rem_euclid(3329), 0, "index {}", i);
    }
}

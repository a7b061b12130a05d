//! Byte-level known-answer and round-trip tests for serialization and
//! compression.

use kyber_poly::poly::{poly_compress, poly_decompress, poly_frombytes, poly_tobytes, Poly};

fn decode_hex(s: &str) -> Vec<u8> {
    let b = s.as_bytes();
    let mut out = Vec::new();
    let mut i = 0;
    while i < b.len() {
        let hi = (b[i] as char).to_digit(16).unwrap();
        let lo = (b[i + 1] as char).to_digit(16).unwrap();
        out.push((hi * 16 + lo) as u8);
        i += 2;
    }
    out
}

fn sample_poly() -> Poly {
    let mut p = Poly::new();
    for i in 0..256usize {
        p.coeffs[i] = (((i * i * 7 + 3 * i + 1) % 3329) as u16) as i16;
    }
    p
}

#[test]
fn new_is_zero() {
    let p = Poly::new();
    for i in 0..256 {
        assert_eq!(p.coeffs[i], 0);
    }
}

#[test]
fn tobytes_known_vector() {
    let mut p = sample_poly();
    let mut buf = vec![0u8; 384];
    poly_tobytes(&mut buf, &mut p);
    assert_eq!(buf, decode_hex("01b0002390047df00b0fd116d93125db123715744c87556531b7811399a12dfbc47ec01b082346ca0574c468a5f63b0a5f924201767edbd9bdeca030360577b8e9c071313e63168f8d6b13ee436b88a9c659725563d8b7a4a14d1e08b7cfd153b938c4da0268345a0fc5348a8f8c389067bac9b26f3b8b28e4e6b4c5b274df0b3830e8ceb934997a0167745b38a5280d0e86b5af539188a1709a7c53e3ca396499231de8100eb7013716c698e5bd3135b90205b80b55ba4c25c0c575c97636065f871680582ad9a9416a7b5c32c07a33929c6ce4c1dda61a86f94667cc767f12aad0d51059294b19f0881244ca43083fac5c874c14032569523531a57e762bff4b85b78412a85a73d09307316a6fc9a30a9a7a79a2b41be38b915bc63a0b91b7f4d86714941b6deca2fda75dc5e31bc6bcadfef8726eb53b16f207f7cba70f097b5fc651e7032ca7c109a01cbbd0da9f381988d8d773b01663c0d55508154c88d44540144330d443581448b8d44f50155b20d66928177c68d891e019ab90dbc7"));
}

#[test]
fn serialize_round_trip() {
    let mut p = sample_poly();
    let orig = p;
    let mut buf = vec![0u8; 384];
    poly_tobytes(&mut buf, &mut p);
    let mut q = Poly::new();
    poly_frombytes(&mut q, &buf);
    for i in 0..256 {
        assert_eq!(q.coeffs[i], orig.coeffs[i]);
    }
}

#[test]
fn compress_known_vectors() {
    for (n, hex) in [
        (96usize, "00002489b48dac7d201a591f19eb47ab1fd18f68647dd66785e8ac502f5ebc7815737835bc1c6297d310c4beeffb4e104de59d68bc331eaa331e3a54e8e0c5d4bb9c8229bccb4de5e602970a6e4ec1ed725280df6e4972dbb66ddb36926ced1f"),
        (128, "0000112132446587a9cbfe215497db1f53a7fc4196fc52b81e85fc73ea62ea62fb841db64fe9933ee8934f0ac6824e1be7b592604d3c1a09f8f7e6e6e6f7f708293a5c7e90c3f5285c9fd3176cb0055aa0056bd138af169d159d159d26bf58e18b25df7a25d09b5713df9b683512e0cdab9a88776656555565667788a9badcfe"),
        (160, "008010c420c51ca4988392dacc7d20673969731746bd89bb384d624f14b47c2878bf699513463969d51f9805ab3fcd7e2237911fd913050c13c853158f274be26f3bdd424704cfbbde38e3ac37ef3e0c72d48315776016bc7c24777d69b41b9781aa3e55bf2e70dbc8f078ca869629e498849e8b740bd3e0162af2337589fc6d654b25746d276cea90f0fbceb74e099f6b8cada594526b31d6dc8372568b35ff"),
    ] {
        let mut p = sample_poly();
        let mut buf = vec![0u8; n];
        poly_compress(&mut buf, &mut p);
        assert_eq!(buf, decode_hex(hex), "width {}", n);
    }
}

#[test]
fn decompress_known_values() {
    let expected96: [i16; 256] = [0, 0, 0, 0, 0, 0, 416, 416, 416, 416, 832, 832, 1248, 1248, 1248, 1665, 1665, 2081, 2497, 2497, 2913, 0, 0, 416, 832, 1248, 1665, 1665, 2081, 2497, 2913, 0, 416, 1248, 1665, 2081, 2497, 2913, 416, 832, 1248, 2081, 2497, 2913, 416, 832, 1665, 2497, 2913, 416, 832, 1665, 2497, 0, 416, 1248, 2081, 2913, 416, 1248, 2081, 2913, 416, 1248, 2081, 0, 832, 1665, 2497, 416, 1248, 2081, 0, 832, 2081, 2913, 832, 1665, 2913, 832, 1665, 2913, 832, 1665, 2913, 832, 2081, 0, 1248, 2497, 416, 1665, 2913, 832, 2081, 416, 1665, 2913, 832, 2497, 416, 1665, 0, 1248, 2913, 832, 2497, 416, 2081, 416, 1665, 0, 1665, 0, 1248, 2913, 1248, 2913, 1248, 2913, 1248, 2913, 1248, 2913, 1665, 0, 1665, 0, 2081, 416, 2081, 832, 2497, 1248, 2913, 1665, 0, 2081, 416, 2497, 1248, 2913, 1665, 416, 2497, 1248, 0, 2081, 832, 2913, 1665, 416, 2497, 1248, 0, 2081, 1248, 0, 2081, 832, 0, 2081, 1248, 0, 2497, 1248, 416, 2497, 1665, 832, 2913, 2081, 1248, 416, 2913, 1665, 832, 0, 2497, 1665, 832, 0, 2913, 2081, 1248, 416, 2913, 2497, 1665, 832, 416, 2913, 2497, 1665, 1248, 416, 0, 2497, 2081, 1665, 832, 416, 0, 2913, 2497, 1665, 1248, 832, 416, 0, 2913, 2497, 2497, 2081, 1665, 1248, 832, 832, 416, 0, 0, 2913, 2913, 2497, 2497, 2081, 2081, 1665, 1665, 1665, 1665, 1248, 1248, 1248, 1248, 1248, 1248, 1248, 1248, 1248, 1248, 1248, 1248, 1248, 1248, 1665, 1665, 1665, 1665, 2081, 2081, 2497, 2497, 2913, 2913, 0];
    let expected128: [i16; 256] = [0, 0, 0, 0, 208, 208, 208, 416, 416, 624, 832, 832, 1040, 1248, 1456, 1665, 1873, 2081, 2289, 2497, 2913, 3121, 208, 416, 832, 1040, 1456, 1873, 2289, 2705, 3121, 208, 624, 1040, 1456, 2081, 2497, 3121, 208, 832, 1248, 1873, 2497, 3121, 416, 1040, 1665, 2289, 2913, 208, 1040, 1665, 2497, 3121, 624, 1456, 2081, 2913, 416, 1248, 2081, 2913, 416, 1248, 2289, 3121, 832, 1665, 2705, 208, 1248, 2289, 3121, 832, 1873, 2913, 624, 1873, 2913, 624, 1665, 2913, 624, 1873, 3121, 832, 2081, 0, 1248, 2497, 416, 1665, 2913, 832, 2289, 208, 1456, 2913, 1040, 2289, 416, 1873, 0, 1248, 2705, 832, 2497, 624, 2081, 208, 1873, 0, 1665, 3121, 1456, 3121, 1248, 2913, 1248, 2913, 1248, 2913, 1456, 3121, 1456, 3121, 1665, 0, 1873, 416, 2081, 624, 2497, 1040, 2913, 1456, 0, 1873, 624, 2497, 1040, 3121, 1665, 416, 2497, 1040, 3121, 1873, 624, 2705, 1456, 208, 2497, 1248, 0, 2289, 1040, 0, 2081, 1040, 0, 2081, 1040, 0, 2289, 1248, 208, 2705, 1665, 624, 3121, 2081, 1248, 208, 2705, 1873, 1040, 208, 2705, 1873, 1040, 208, 2705, 1873, 1248, 416, 3121, 2289, 1665, 1040, 208, 2913, 2289, 1665, 1040, 416, 3121, 2705, 2081, 1456, 1040, 416, 0, 2705, 2289, 1873, 1456, 1040, 624, 208, 3121, 2705, 2289, 1873, 1665, 1248, 1040, 624, 416, 208, 0, 2913, 2705, 2497, 2289, 2081, 2081, 1873, 1665, 1665, 1456, 1456, 1248, 1248, 1248, 1040, 1040, 1040, 1040, 1040, 1040, 1248, 1248, 1248, 1456, 1456, 1665, 1665, 1873, 2081, 2081, 2289, 2497, 2705, 2913, 3121];
    let expected160: [i16; 256] = [0, 0, 0, 104, 104, 208, 312, 416, 520, 624, 728, 832, 1040, 1248, 1456, 1665, 1873, 2081, 2289, 2601, 2913, 3121, 104, 416, 728, 1144, 1456, 1873, 2289, 2601, 3017, 208, 624, 1040, 1560, 1977, 2497, 3017, 208, 728, 1352, 1873, 2497, 3121, 416, 1040, 1665, 2289, 2913, 312, 1040, 1665, 2393, 3225, 624, 1352, 2185, 2913, 416, 1248, 2081, 2913, 416, 1352, 2185, 3121, 728, 1665, 2601, 208, 1248, 2185, 3225, 936, 1977, 3017, 728, 1769, 2913, 624, 1769, 2913, 728, 1873, 3017, 936, 2081, 0, 1248, 2497, 416, 1665, 2913, 936, 2185, 208, 1560, 2913, 936, 2289, 416, 1769, 3225, 1352, 2809, 936, 2393, 520, 2081, 312, 1769, 0, 1560, 3121, 1456, 3017, 1352, 2913, 1248, 2913, 1248, 3017, 1352, 3121, 1456, 3225, 1665, 104, 1873, 312, 2185, 728, 2497, 1040, 2913, 1456, 0, 1977, 520, 2497, 1144, 3121, 1769, 416, 2393, 1144, 3225, 1873, 624, 2705, 1456, 312, 2393, 1248, 0, 2185, 1040, 3225, 2081, 1040, 3225, 2185, 1144, 0, 2393, 1352, 312, 2601, 1665, 728, 3121, 2081, 1248, 312, 2705, 1873, 936, 104, 2601, 1769, 936, 208, 2705, 1977, 1144, 416, 3017, 2289, 1665, 936, 312, 2913, 2289, 1665, 1040, 416, 3225, 2601, 2081, 1456, 936, 416, 3225, 2809, 2289, 1873, 1352, 936, 520, 104, 3017, 2705, 2289, 1977, 1665, 1352, 1040, 728, 416, 104, 3225, 3017, 2809, 2601, 2393, 2185, 1977, 1873, 1665, 1560, 1456, 1352, 1248, 1248, 1144, 1144, 1040, 1040, 1040, 1040, 1144, 1144, 1248, 1248, 1352, 1456, 1560, 1665, 1873, 1977, 2185, 2289, 2497, 2705, 2913, 3225];
    for (n, hex, expected) in [
        (96usize, "00002489b48dac7d201a591f19eb47ab1fd18f68647dd66785e8ac502f5ebc7815737835bc1c6297d310c4beeffb4e104de59d68bc331eaa331e3a54e8e0c5d4bb9c8229bccb4de5e602970a6e4ec1ed725280df6e4972dbb66ddb36926ced1f", &expected96),
        (128, "0000112132446587a9cbfe215497db1f53a7fc4196fc52b81e85fc73ea62ea62fb841db64fe9933ee8934f0ac6824e1be7b592604d3c1a09f8f7e6e6e6f7f708293a5c7e90c3f5285c9fd3176cb0055aa0056bd138af169d159d159d26bf58e18b25df7a25d09b5713df9b683512e0cdab9a88776656555565667788a9badcfe", &expected128),
        (160, "008010c420c51ca4988392dacc7d20673969731746bd89bb384d624f14b47c2878bf699513463969d51f9805ab3fcd7e2237911fd913050c13c853158f274be26f3bdd424704cfbbde38e3ac37ef3e0c72d48315776016bc7c24777d69b41b9781aa3e55bf2e70dbc8f078ca869629e498849e8b740bd3e0162af2337589fc6d654b25746d276cea90f0fbceb74e099f6b8cada594526b31d6dc8372568b35ff", &expected160),
    ] {
        let bytes = decode_hex(hex);
        let mut q = Poly::new();
        poly_decompress(&mut q, &bytes);
        for i in 0..256 {
            assert_eq!(q.coeffs[i], expected[i], "width {} index {}", n, i);
        }
    }
}

#[test]
fn compress_error_bound() {
    for (n, bound) in [(96usize, 208i32), (128, 104), (160, 52)] {
        let mut p = sample_poly();
        let orig = p;
        let mut buf = vec![0u8; n];
        poly_compress(&mut buf, &mut p);
        let mut q = Poly::new();
        poly_decompress(&mut q, &buf);
        for i in 0..256 {
            let a = q.coeffs[i] as i32;
            let b = orig.coeffs[i] as i32;
            let d = (a - b).abs();
            let dist = d.min(3329 - d);
            assert!(dist <= bound, "width {} index {} dist {}", n, i, dist);
        }
    }
}

#[test]
fn tobytes_canonicalizes() {
    let mut p = Poly::new();
    p.coeffs[0] = 3329;
    p.coeffs[1] = 3330;
    p.coeffs[2] = 6657;
    let mut buf = vec![0u8; 384];
    poly_tobytes(&mut buf, &mut p);
    assert_eq!(p.coeffs[0], 0);
    assert_eq!(p.coeffs[1], 1);
    assert_eq!(p.coeffs[2], 3328);
    let mut q = Poly::new();
    poly_frombytes(&mut q, &buf);
    assert_eq!(q.coeffs[0], 0);
    assert_eq!(q.coeffs[1], 1);
    assert_eq!(q.coeffs[2], 3328);
}

//! Tests for deterministic noise sampling, message embedding, and linear
//! arithmetic.

use kyber_poly::poly::{poly_add, poly_frommsg, poly_getnoise, poly_sub, poly_tomsg, Poly};

#[test]
fn noise_known_vectors() {
    let seed: Vec<u8> = (0u8..32).collect();
    let expected0: [i16; 256] = [-1, 0, 1, 1, -2, 1, 0, 0, -1, 1, -1, -1, -2, 0, 1, -1, 1, 0, 0, 0, 0, 0, 1, -1, 1, 0, -1, -1, 0, 0, 0, -2, 0, 1, 1, 1, 1, 0, -2, 0, 0, -1, -1, 1, 0, 2, 0, 0, -1, -1, 0, 0, 0, -2, -1, 2, 0, 0, -1, -1, -2, 2, -2, 2, 1, 0, 1, -2, 0, 0, 1, 1, 0, 0, 1, 1, 2, -1, 0, -2, 0, 1, 1, 1, 0, -1, -1, 0, 1, 0, 0, 0, 1, -2, 0, 0, 0, 1, 0, 0, -2, 0, 1, 0, -2, 1, 0, 0, 0, 0, 0, 0, 0, 0, -1, 0, 0, 0, 1, -2, -1, 1, -1, 2, 0, -1, 1, 1, 0, 0, -1, -2, 0, -2, 0, 1, 0, 1, 1, -2, 0, 0, 1, 1, 0, -1, 1, 1, -1, 0, 2, 1, 1, 1, 0, 1, -1, -1, -1, 0, 2, 0, 0, 0, 1, 0, 0, 2, 0, -1, -1, 1, -1, 0, 0, 0, 1, 0, 0, 1, -1, 2, 1, -1, 1, 0, 1, 0, -1, 0, -1, 0, -1, 0, 0, 0, 0, 1, -1, 1, 0, 1, 0, 0, 1, 0, -2, 1, -1, -2, 0, 0, -1, 2, -2, -1, 2, -1, 0, 1, 0, 0, 1, -1, 0, 1, 1, 0, 0, -1, 0, 1, 0, -1, 2, 0, -1, 1, 0, -1, 0, -2, 0, 2, 1, 0, -1, -1, 0, 0, 0, -1, 2, 0, 0, 1];
    let expected1: [i16; 256] = [0, 2, -1, 1, 2, 1, 1, 2, 0, 1, 0, 0, 0, 0, -1, 1, 1, 1, 2, 1, 0, 0, 0, -1, -1, 2, -2, 1, 1, -2, 1, 1, -1, 2, 1, 0, -1, 1, 0, -1, -1, 0, -1, 2, 0, 0, -1, 1, 0, 0, -2, 0, 0, 0, 2, -2, -2, 0, 0, 1, -1, 0, -1, 0, -1, 1, -2, 0, 1, 1, 0, -1, 0, 0, 1, 2, 0, -1, -1, 1, 0, 1, -1, 0, -1, 1, 1, -1, 1, -1, 1, 0, 0, -1, -1, 1, 0, 0, 0, -1, 0, 1, -1, -1, -1, 2, -1, 1, 1, 2, -2, -1, -1, 2, 1, 0, 0, 1, 0, 1, -1, 0, -1, 0, -1, -1, -1, -2, 0, 0, 0, -2, 1, 1, 1, 0, 0, -2, 1, 0, 0, -2, -1, 1, 2, 0, 1, 1, 0, -1, 0, 1, -1, 0, -1, 0, 0, 0, -1, -2, -1, 1, 0, 0, -1, 0, 0, -2, -1, -1, 1, 1, 1, 1, -1, 0, 0, 0, -1, -1, 0, 0, 1, 0, 0, 0, 1, 1, 1, 0, 0, -1, -1, 1, 1, -1, 2, 0, 0, -1, 0, -1, 1, 1, 1, 0, 0, 0, -1, 1, 2, 0, 0, -2, 1, 0, 1, -2, -2, -1, 2, -1, -1, 0, 1, 0, -2, 0, 2, -1, -1, -1, -2, 0, -1, 0, 1, -2, 2, 0, 0, -1, 1, 0, -1, 1, 1, -1, 1, 0, 0, 0, 1, 0, -1, 0];
    let mut r = Poly::new();
    poly_getnoise(&mut r, &seed, 0);
    for i in 0..256 {
        assert_eq!(r.coeffs[i], expected0[i], "nonce 0 index {}", i);
    }
    poly_getnoise(&mut r, &seed, 1);
    for i in 0..256 {
        assert_eq!(r.coeffs[i], expected1[i], "nonce 1 index {}", i);
    }
}

#[test]
fn noise_deterministic() {
    let seed = [7u8; 32];
    let mut a = Poly::new();
    let mut b = Poly::new();
    poly_getnoise(&mut a, &seed, 3);
    poly_getnoise(&mut b, &seed, 3);
    for i in 0..256 {
        assert_eq!(a.coeffs[i], b.coeffs[i]);
    }
    poly_getnoise(&mut b, &seed, 4);
    let mut differs = false;
    for i in 0..256 {
        if a.coeffs[i] != b.coeffs[i] {
            differs = true;
        }
    }
    assert!(differs, "different nonces should give different noise");
}

#[test]
fn message_round_trip() {
    let patterns: [[u8; 32]; 4] = [
        [0u8; 32],
        [0xFF; 32],
        {
            let mut m = [0u8; 32];
            let mut i = 0;
            while i < 32 {
                m[i] = (i as u8).wrapping_mul(37).wrapping_add(11);
                i += 1;
            }
            m
        },
        {
            let mut m = [0u8; 32];
            let mut i = 0;
            while i < 32 {
                m[i] = if i % 2 == 0 { 0x55 } else { 0xAA };
                i += 1;
            }
            m
        },
    ];
    for msg in patterns {
        let mut p = Poly::new();
        poly_frommsg(&mut p, &msg);
        for i in 0..256 {
            let bit = (msg[i / 8] >> (i % 8)) & 1;
            assert_eq!(p.coeffs[i], if bit == 1 { 1665 } else { 0 });
        }
        let mut out = vec![0u8; 32];
        poly_tomsg(&mut out, &mut p);
        assert_eq!(&out[..], &msg[..]);
    }
}

#[test]
fn add_then_sub_restores() {
    let mut a = Poly::new();
    let mut b = Poly::new();
    for i in 0..256usize {
        a.coeffs[i] = ((i as i16) * 13) % 3329 - 1600;
        b.coeffs[i] = ((i as i16) * 7) % 3329 - 1000;
    }
    let mut r = a;
    poly_add(&mut r, &b);
    for i in 0..256 {
        assert_eq!(r.coeffs[i], a.coeffs[i] + b.coeffs[i]);
    }
    let mut s = b;
    poly_sub(&mut s, &r);
    for i in 0..256 {
        assert_eq!(s.coeffs[i], a.coeffs[i]);
    }
}

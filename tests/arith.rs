use kyber_rust::arith::{add_mod, compress, decompress, mul_mod, reduce, sub_mod, DU, DV};
use kyber_rust::encode::{
    poly_compress_u, poly_compress_v, poly_decompress_u, poly_decompress_v, poly_from_bytes,
    poly_from_msg, poly_to_bytes, poly_to_msg,
};
use kyber_rust::poly::{basemul, inv_ntt, ntt, poly_add, poly_sub};
use kyber_rust::sample::{cbd2, rej_uniform};

fn sample_poly(step: u32) -> Vec<u16> {
    (0u32..256).map(|i| ((i * step + 17) % 3329) as u16).collect()
}

#[test]
fn modular_operations() {
    assert_eq!(add_mod(3328, 1), 0);
    assert_eq!(add_mod(1000, 2000), 3000);
    assert_eq!(sub_mod(0, 1), 3328);
    assert_eq!(sub_mod(5, 3), 2);
    assert_eq!(mul_mod(3328, 3328), 1);
    assert_eq!(mul_mod(17, 65535), ((17u32 * 65535) % 3329) as u16);
    assert_eq!(reduce(65535), (65535 % 3329) as u16);
}

#[test]
fn compression_values() {
    assert_eq!(compress(0, 1), 0);
    assert_eq!(compress(1665, 1), 1);
    assert_eq!(compress(832, 1), 0);
    assert_eq!(compress(833, 1), 1);
    assert_eq!(compress(3328, DU), 0);
    assert_eq!(compress(1664, DU), 512);
    assert_eq!(compress(1, DV), 0);
    assert_eq!(decompress(1, 1), 1665);
    assert_eq!(decompress(15, DV), 3121);
    assert_eq!(decompress(1023, DU), 3326);
    // At 10 bits the error reaches 2, above Q / 2^11 but within it plus a half.
    assert_eq!(compress(5, DU), 2);
    assert_eq!(decompress(compress(5, DU), DU), 7);
}

#[test]
fn compression_error_bound_exhaustive() {
    for &d in &[1u32, DV, DU] {
        for x in 0u16..3329 {
            let y = decompress(compress(x, d), d) as i32;
            let e = (y - x as i32).rem_euclid(3329);
            let dist = if e <= 1664 { e } else { 3329 - e };
            assert!(dist * (1 << (d + 1)) <= 3329 - 1 + (1 << d), "x = {}, d = {}", x, d);
            if d != DU {
                assert!(dist * (1 << (d + 1)) <= 3329, "x = {}, d = {}", x, d);
            }
        }
    }
}

#[test]
fn ntt_round_trip_and_product() {
    let a = sample_poly(5);
    let b = sample_poly(11);
    let mut t = a.clone();
    ntt(&mut t);
    assert_ne!(t, a);
    let mut back = t.clone();
    inv_ntt(&mut back);
    assert_eq!(back, a);
    // x * x = x^2 in the ring.
    let mut x = vec![0u16; 256];
    x[1] = 1;
    let mut xh = x.clone();
    ntt(&mut xh);
    let mut sq = basemul(&xh, &xh);
    inv_ntt(&mut sq);
    let mut expect = vec![0u16; 256];
    expect[2] = 1;
    assert_eq!(sq, expect);
    // x^255 * x = x^256 = -1.
    let mut hi = vec![0u16; 256];
    hi[255] = 1;
    let mut hh = hi.clone();
    ntt(&mut hh);
    let mut prod = basemul(&hh, &xh);
    inv_ntt(&mut prod);
    let mut minus_one = vec![0u16; 256];
    minus_one[0] = 3328;
    assert_eq!(prod, minus_one);
    let s = poly_add(&a, &b);
    assert_eq!(poly_sub(&s, &b), a);
}

#[test]
fn twelve_bit_round_trip() {
    let a = sample_poly(13);
    let bytes = poly_to_bytes(&a);
    assert_eq!(bytes.len(), 384);
    assert_eq!(poly_from_bytes(&bytes, 0), a);
    let mut shifted = vec![9u8; 5];
    shifted.extend_from_slice(&bytes);
    assert_eq!(poly_from_bytes(&shifted, 5), a);
}

#[test]
fn twelve_bit_reduces() {
    let bytes = vec![0xffu8; 384];
    let p = poly_from_bytes(&bytes, 0);
    assert!(p.iter().all(|&c| c == (4095 % 3329) as u16));
}

#[test]
fn compressed_encodings() {
    let a = sample_poly(7);
    let u = poly_compress_u(&a);
    assert_eq!(u.len(), 320);
    let du = poly_decompress_u(&u, 0);
    for i in 0..256 {
        assert_eq!(du[i], decompress(compress(a[i], DU), DU));
    }
    let v = poly_compress_v(&a);
    assert_eq!(v.len(), 128);
    let dv = poly_decompress_v(&v, 0);
    for i in 0..256 {
        assert_eq!(dv[i], decompress(compress(a[i], DV), DV));
    }
}

#[test]
fn message_round_trip() {
    let m: Vec<u8> = (0u8..32).map(|i| i.wrapping_mul(37) ^ 0x5a).collect();
    let p = poly_from_msg(&m);
    assert_eq!(p[0], if m[0] & 1 == 1 { 1665 } else { 0 });
    assert_eq!(poly_to_msg(&p), m);
}

#[test]
fn rejection_sampling_values() {
    let buf = vec![1u8, 0, 0, 255, 255, 255, 0x01, 0xd0, 0x00];
    // candidates: 1, 0, 4095, 4095, 1, 0x00d = 13
    assert_eq!(rej_uniform(&buf), vec![1u16, 0, 1, 13]);
    let mut zeros = vec![0u8; 3 * 200];
    zeros[0] = 5;
    let r = rej_uniform(&zeros);
    assert_eq!(r.len(), 256);
    assert_eq!(r[0], 5);
}

#[test]
fn binomial_noise_values() {
    let mut buf = vec![0u8; 128];
    buf[0] = 0x0f;
    buf[1] = 0x03;
    buf[2] = 0xc0;
    let p = cbd2(&buf);
    assert_eq!(p[0], 0);
    assert_eq!(p[1], 0);
    assert_eq!(p[2], 2);
    assert_eq!(p[3], 0);
    assert_eq!(p[4], 0);
    assert_eq!(p[5], 3327);
    assert!(p[6..].iter().all(|&c| c == 0));
}

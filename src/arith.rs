//! Arithmetic modulo `Q` on canonical coefficients, and lossy compression.
use vstd::prelude::*;
use vstd::arithmetic::power2::{pow2, lemma2_to64};

verus! {

/// The prime modulus of the coefficient ring.
pub const Q: u16 = 3329;

/// The modulus as a mathematical integer.
pub open spec fn q() -> int {
    3329
}

/// `x` is a canonical coefficient: an integer in `[0, Q)`.
pub open spec fn canonical(x: int) -> bool {
    0 <= x < q()
}

/// Distance between `a` and `b` on the ring `Z_Q`, in `[0, Q/2]`.
pub open spec fn mod_dist(a: int, b: int) -> int {
    let r = (a - b) % q();
    if r <= q() / 2 { r } else { q() - r }
}

/// `Compress(x, d) = round(x * 2^d / Q) mod 2^d`, halves rounded up.
pub open spec fn compress_spec(x: int, d: nat) -> int {
    ((x * pow2(d) + q() / 2) / q()) % (pow2(d) as int)
}

/// `Decompress(y, d) = round(y * Q / 2^d)`, halves rounded up.
pub open spec fn decompress_spec(y: int, d: nat) -> int {
    (y * q() + pow2(d) / 2) / (pow2(d) as int)
}

/// `(a + b) mod Q` on canonical coefficients.
pub fn add_mod(a: u16, b: u16) -> (r: u16)
    requires
        a < Q,
        b < Q,
    ensures
        r as int == (a as int + b as int) % q(),
        r < Q,
{
    let s: u16 = a + b;
    if s >= Q { s - Q } else { s }
}

/// `(a - b) mod Q` on canonical coefficients.
pub fn sub_mod(a: u16, b: u16) -> (r: u16)
    requires
        a < Q,
        b < Q,
    ensures
        r as int == (a as int - b as int) % q(),
        r < Q,
{
    if a >= b { a - b } else { a + Q - b }
}

/// `(a * b) mod Q`; only `a` need be canonical.
pub fn mul_mod(a: u16, b: u16) -> (r: u16)
    requires
        a < Q,
    ensures
        r as int == (a as int * b as int) % q(),
        r < Q,
{
    assert(a as u32 * b as u32 <= 3328u32 * 65535u32) by (nonlinear_arith)
        requires a < 3329, b <= 65535;
    ((a as u32 * b as u32) % 3329) as u16
}

/// Reduces an arbitrary 16-bit value to its canonical representative.
pub fn reduce(a: u16) -> (r: u16)
    ensures
        r as int == (a as int) % q(),
        r < Q,
{
    a % Q
}

/// Number of bits kept for coefficients of the vector part of a ciphertext.
pub const DU: u32 = 10;

/// Number of bits kept for coefficients of the scalar part of a ciphertext.
pub const DV: u32 = 4;

/// `2^d` for the compression widths in use.
fn width_modulus(d: u32) -> (p: u32)
    requires
        d == 1 || d == DV || d == DU,
    ensures
        p as nat == pow2(d as nat),
        2 <= p <= 1024,
{
    proof {
        lemma2_to64();
    }
    if d == 1 {
        2
    } else if d == DV {
        16
    } else {
        1024
    }
}

/// Compresses a canonical coefficient to `d` bits.
pub fn compress(x: u16, d: u32) -> (r: u16)
    requires
        x < Q,
        d == 1 || d == DV || d == DU,
    ensures
        r as int == compress_spec(x as int, d as nat),
        (r as nat) < pow2(d as nat),
{
    let p = width_modulus(d);
    assert(x as u32 * p <= 3328u32 * 1024u32) by (nonlinear_arith)
        requires x < 3329, p <= 1024;
    let r = ((x as u32 * p + 1664) / 3329) % p;
    r as u16
}

/// Decompresses a `d`-bit value to a canonical coefficient.
pub fn decompress(y: u16, d: u32) -> (r: u16)
    requires
        d == 1 || d == DV || d == DU,
        (y as nat) < pow2(d as nat),
    ensures
        r as int == decompress_spec(y as int, d as nat),
        r < Q,
{
    let p = width_modulus(d);
    assert(y as u32 * 3329 < p * 3329) by (nonlinear_arith)
        requires (y as u32) < p;
    let r: u32 = (y as u32 * 3329 + p / 2) / p;
    proof {
        lemma_decompress_bound(y as int, p as int);
    }
    r as u16
}

/// `x < b * d` bounds the quotient `x / d` below `b`.
proof fn lemma_div_lt(x: int, d: int, b: int)
    requires
        0 <= x,
        0 < d,
        x < b * d,
    ensures
        x / d < b,
{
    vstd::arithmetic::div_mod::lemma_fundamental_div_mod(x, d);
    let qq = x / d;
    assert(x % d >= 0) by {
        vstd::arithmetic::div_mod::lemma_mod_pos_bound(x, d);
    }
    assert(qq < b) by (nonlinear_arith)
        requires x == d * qq + x % d, x % d >= 0, x < b * d, d > 0;
}

/// A decompressed value is canonical.
proof fn lemma_decompress_bound(y: int, p: int)
    requires
        0 <= y < p,
        2 <= p <= 2048,
    ensures
        (y * 3329 + p / 2) / p < 3329,
        0 <= (y * 3329 + p / 2) / p,
{
    assert(y * 3329 + p / 2 < 3329 * p) by (nonlinear_arith)
        requires 0 <= y < p, 2 <= p <= 2048;
    assert(y * 3329 >= 0) by (nonlinear_arith)
        requires 0 <= y;
    lemma_div_lt(y * 3329 + p / 2, p, 3329);
    vstd::arithmetic::div_mod::lemma_div_pos_is_pos(y * 3329 + p / 2, p);
}

/// Compression followed by decompression moves a coefficient by at most
/// `Q / 2^(d+1)` plus one half, measured on the ring: `|e| * 2^(d+1) <= Q - 1 + 2^d`.
pub proof fn lemma_compress_round_trip(x: int, d: nat)
    requires
        canonical(x),
        1 <= d <= 11,
    ensures
        mod_dist(decompress_spec(compress_spec(x, d), d), x) * pow2(d + 1)
            <= q() - 1 + pow2(d),
{
    lemma2_to64();
    let p = pow2(d) as int;
    assert(pow2(d + 1) == 2 * p) by {
        vstd::arithmetic::power2::lemma_pow2_adds(d, 1);
    }
    assert(2 <= p <= 2048) by {
        vstd::arithmetic::power2::lemma_pow2_pos(d);
        if d == 1 {} else if d == 2 {} else if d == 3 {} else if d == 4 {} else if d == 5 {}
        else if d == 6 {} else if d == 7 {} else if d == 8 {} else if d == 9 {} else if d == 10 {}
        else {}
    }
    let y0 = (x * p + 1664) / 3329;
    assert(0 <= y0 <= p) by (nonlinear_arith)
        requires y0 == (x * p + 1664) / 3329, 0 <= x < 3329, p >= 2;
    assert(y0 * 3329 <= x * p + 1664 < y0 * 3329 + 3329) by (nonlinear_arith)
        requires y0 == (x * p + 1664) / 3329, 0 <= x, p >= 2;
    let y = y0 % p;
    assert(compress_spec(x, d) == y);
    let z = (y * 3329 + p / 2) / p;
    assert(decompress_spec(y, d) == z);
    assert(z * p <= y * 3329 + p / 2 < z * p + p) by (nonlinear_arith)
        requires z == (y * 3329 + p / 2) / p, p >= 2, y >= 0;
    assert(p % 2 == 0) by {
        vstd::arithmetic::power2::lemma_pow2_adds((d - 1) as nat, 1);
        assert(pow2(1) == 2);
    }
    if y0 < p {
        assert(y == y0) by {
            vstd::arithmetic::div_mod::lemma_small_mod(y0 as nat, p as nat);
        }
        lemma_decompress_bound(y, p);
        // (z - x) * p lies in (-p/2 - 1664, p/2 + 1664]
        assert(-(p / 2) - 1664 <= (z - x) * p <= p / 2 + 1664) by (nonlinear_arith)
            requires
                z * p <= y * 3329 + p / 2,
                y * 3329 + p / 2 < z * p + p,
                y * 3329 <= x * p + 1664,
                x * p + 1664 < y * 3329 + 3329;
        let e = z - x;
        assert(-3329 < e < 3329);
        assert(e * p <= p / 2 + 1664 && -e * p <= p / 2 + 1664) by (nonlinear_arith)
            requires -(p / 2) - 1664 <= e * p <= p / 2 + 1664;
        if e >= 0 {
            assert(mod_dist(z, x) <= e);
            assert(mod_dist(z, x) * (2 * p) <= e * (2 * p)) by (nonlinear_arith)
                requires mod_dist(z, x) <= e, p >= 0, mod_dist(z, x) >= 0;
        } else {
            assert(mod_dist(z, x) <= -e);
            assert(mod_dist(z, x) * (2 * p) <= (-e) * (2 * p)) by (nonlinear_arith)
                requires mod_dist(z, x) <= -e, p >= 0, mod_dist(z, x) >= 0;
        }
    } else {
        assert(y0 == p);
        assert(y == 0) by {
            vstd::arithmetic::div_mod::lemma_mod_self_0(p);
        }
        assert(z == 0) by {
            vstd::arithmetic::div_mod::lemma_div_of0(p);
        }
        assert((3329 - x) * p <= 1664) by (nonlinear_arith)
            requires p * 3329 <= x * p + 1664;
        assert(mod_dist(z, x) <= 3329 - x);
        assert(mod_dist(z, x) * (2 * p) <= (3329 - x) * (2 * p)) by (nonlinear_arith)
            requires mod_dist(z, x) <= 3329 - x, p >= 0, mod_dist(z, x) >= 0;
    }
}

/// For `d` in `1..=7` and `d == 9`, compression followed by decompression
/// moves a coefficient by at most `Q / 2^(d+1)`, measured on the ring.
pub proof fn lemma_compress_round_trip_within_half_step(x: int, d: nat)
    requires
        canonical(x),
        1 <= d <= 7 || d == 9,
    ensures
        mod_dist(decompress_spec(compress_spec(x, d), d), x) * pow2(d + 1) <= q(),
{
    lemma_compress_round_trip(x, d);
    lemma2_to64();
    let e = mod_dist(decompress_spec(compress_spec(x, d), d), x);
    assert(e >= 0);
    if d == 1 {
        assert(e * 4 <= 3330);
    } else if d == 2 {
        assert(e * 8 <= 3332);
    } else if d == 3 {
        assert(e * 16 <= 3336);
    } else if d == 4 {
        assert(e * 32 <= 3344);
    } else if d == 5 {
        assert(e * 64 <= 3360);
    } else if d == 6 {
        assert(e * 128 <= 3392);
    } else if d == 7 {
        assert(e * 256 <= 3456);
    } else {
        assert(e * 1024 <= 3840);
    }
}

} // verus!

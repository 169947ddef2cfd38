//! Polynomials of the ring `Z_Q[X]/(X^256 + 1)` and the number-theoretic transform.
use vstd::prelude::*;
use crate::arith::{Q, q, add_mod, sub_mod, mul_mod};

verus! {

/// Number of coefficients of a polynomial.
pub const N: usize = 256;

/// A polynomial is 256 canonical coefficients.
pub open spec fn poly_wf(p: Seq<u16>) -> bool {
    &&& p.len() == 256
    &&& forall|i: int| 0 <= i < 256 ==> p[i] < 3329
}

/// The shape of one transform layer: butterflies of span `len` in `groups` blocks.
pub open spec fn layer(len: usize, groups: usize) -> bool {
    ||| len == 128 && groups == 1
    ||| len == 64 && groups == 2
    ||| len == 32 && groups == 4
    ||| len == 16 && groups == 8
    ||| len == 8 && groups == 16
    ||| len == 4 && groups == 32
    ||| len == 2 && groups == 64
}

/// The table of powers of 17 used by the transforms (see `zetas`).
pub open spec fn zetas_spec() -> Seq<u16> {
    seq![
        1, 1729, 2580, 3289, 2642, 630, 1897, 848, 1062, 1919,
        193, 797, 2786, 3260, 569, 1746, 296, 2447, 1339, 1476,
        3046, 56, 2240, 1333, 1426, 2094, 535, 2882, 2393, 2879,
        1974, 821, 289, 331, 3253, 1756, 1197, 2304, 2277, 2055,
        650, 1977, 2513, 632, 2865, 33, 1320, 1915, 2319, 1435,
        807, 452, 1438, 2868, 1534, 2402, 2647, 2617, 1481, 648,
        2474, 3110, 1227, 910, 17, 2761, 583, 2649, 1637, 723,
        2288, 1100, 1409, 2662, 3281, 233, 756, 2156, 3015, 3050,
        1703, 1651, 2789, 1789, 1847, 952, 1461, 2687, 939, 2308,
        2437, 2388, 733, 2337, 268, 641, 1584, 2298, 2037, 3220,
        375, 2549, 2090, 1645, 1063, 319, 2773, 757, 2099, 561,
        2466, 2594, 2804, 1092, 403, 1026, 1143, 2150, 2775, 886,
        1722, 1212, 1874, 1029, 2110, 2935, 885, 2154,
    ]
}

/// Sum of two polynomials.
pub open spec fn poly_add_spec(a: Seq<u16>, b: Seq<u16>) -> Seq<u16> {
    Seq::new(256, |i: int| ((a[i] + b[i]) % q()) as u16)
}

/// Difference of two polynomials.
pub open spec fn poly_sub_spec(a: Seq<u16>, b: Seq<u16>) -> Seq<u16> {
    Seq::new(256, |i: int| ((a[i] - b[i]) % q()) as u16)
}

/// Coefficient `t` after one forward layer of butterflies of span `len`:
/// `(a, b) -> (a + zeta b, a - zeta b)` with `zeta` the table entry of the block.
pub open spec fn fwd_butterfly(p: Seq<u16>, len: int, groups: int, t: int) -> u16 {
    let z = zetas_spec()[groups + t / (2 * len)] as int;
    if t % (2 * len) < len {
        ((p[t] + (p[t + len] * z) % q()) % q()) as u16
    } else {
        ((p[t - len] - (p[t] * z) % q()) % q()) as u16
    }
}

/// One forward layer.
pub open spec fn fwd_layer(p: Seq<u16>, len: int, groups: int) -> Seq<u16> {
    Seq::new(256, |t: int| fwd_butterfly(p, len, groups, t))
}

/// The forward layers of span `len`, `len / 2`, ..., `2`.
pub open spec fn fwd_layers(p: Seq<u16>, len: nat, groups: int) -> Seq<u16>
    decreases len,
{
    if len < 2 {
        p
    } else {
        fwd_layers(fwd_layer(p, len as int, groups), len / 2, groups * 2)
    }
}

/// The forward transform.
pub open spec fn ntt_spec(p: Seq<u16>) -> Seq<u16> {
    fwd_layers(p, 128, 1)
}

/// Coefficient `t` after one inverse layer of butterflies of span `len`:
/// `(a, b) -> (a + b, zeta (b - a))`.
pub open spec fn inv_butterfly(p: Seq<u16>, len: int, groups: int, t: int) -> u16 {
    let z = zetas_spec()[2 * groups - 1 - t / (2 * len)] as int;
    if t % (2 * len) < len {
        ((p[t] + p[t + len]) % q()) as u16
    } else {
        ((((p[t] - p[t - len]) % q()) * z) % q()) as u16
    }
}

/// One inverse layer.
pub open spec fn inv_layer(p: Seq<u16>, len: int, groups: int) -> Seq<u16> {
    Seq::new(256, |t: int| inv_butterfly(p, len, groups, t))
}

/// The inverse layers of span `len`, `2 len`, ..., `128`.
pub open spec fn inv_layers(p: Seq<u16>, len: nat, groups: int) -> Seq<u16>
    decreases 256 - len,
{
    if len > 128 || len == 0 {
        p
    } else {
        inv_layers(inv_layer(p, len as int, groups), len * 2, groups / 2)
    }
}

/// The inverse transform, scaled by `1/128 = 3303 (mod Q)`.
pub open spec fn inv_ntt_spec(p: Seq<u16>) -> Seq<u16> {
    let r = inv_layers(p, 2, 64);
    Seq::new(256, |i: int| ((r[i] * 3303) % q()) as u16)
}

/// Coefficient `t` of the product in the transform domain: pairs
/// `(a0 + a1 X)(b0 + b1 X) mod (X^2 - w)`, with `w` the table entry of the
/// block of four, negated for its second pair.
pub open spec fn basemul_coeff(a: Seq<u16>, b: Seq<u16>, t: int) -> u16 {
    let i = t / 4;
    let h = (t % 4) / 2;
    let o = 4 * i + 2 * h;
    let zeta = (1 * zetas_spec()[64 + i]) % q();
    let w = if h == 0 { zeta } else { (0 - zeta) % q() };
    let (a0, a1, b0, b1) = (a[o] as int, a[o + 1] as int, b[o] as int, b[o + 1] as int);
    if t % 2 == 0 {
        let hi = (((a1 * b1) % q()) * w) % q();
        ((hi + (a0 * b0) % q()) % q()) as u16
    } else {
        (((a0 * b1) % q() + (a1 * b0) % q()) % q()) as u16
    }
}

/// The product in the transform domain.
pub open spec fn basemul_spec(a: Seq<u16>, b: Seq<u16>) -> Seq<u16> {
    Seq::new(256, |t: int| basemul_coeff(a, b, t))
}

/// The shape of a layer in numbers.
proof fn lemma_layer(len: usize, groups: usize)
    requires
        layer(len, groups),
    ensures
        len * groups == 128,
        2 <= len <= 128,
        1 <= groups <= 64,
{
}

/// `t` lies in block `g` of size `m`.
pub proof fn lemma_block(t: int, m: int, g: int)
    requires
        m > 0,
        m * g <= t < m * g + m,
    ensures
        t / m == g,
        t % m == t - m * g,
{
    assert(g * m == m * g) by (nonlinear_arith);
    vstd::arithmetic::div_mod::lemma_fundamental_div_mod_converse(t, m, g, t - m * g);
}

/// The powers of the primitive 256-th root of unity 17, in bit-reversed order:
/// entry `i` is `17^brv7(i) mod Q`.
fn zetas() -> (z: Vec<u16>)
    ensures
        z@ == zetas_spec(),
{
    vec![
        1, 1729, 2580, 3289, 2642, 630, 1897, 848, 1062, 1919,
        193, 797, 2786, 3260, 569, 1746, 296, 2447, 1339, 1476,
        3046, 56, 2240, 1333, 1426, 2094, 535, 2882, 2393, 2879,
        1974, 821, 289, 331, 3253, 1756, 1197, 2304, 2277, 2055,
        650, 1977, 2513, 632, 2865, 33, 1320, 1915, 2319, 1435,
        807, 452, 1438, 2868, 1534, 2402, 2647, 2617, 1481, 648,
        2474, 3110, 1227, 910, 17, 2761, 583, 2649, 1637, 723,
        2288, 1100, 1409, 2662, 3281, 233, 756, 2156, 3015, 3050,
        1703, 1651, 2789, 1789, 1847, 952, 1461, 2687, 939, 2308,
        2437, 2388, 733, 2337, 268, 641, 1584, 2298, 2037, 3220,
        375, 2549, 2090, 1645, 1063, 319, 2773, 757, 2099, 561,
        2466, 2594, 2804, 1092, 403, 1026, 1143, 2150, 2775, 886,
        1722, 1212, 1874, 1029, 2110, 2935, 885, 2154,
    ]
}

/// The all-zero polynomial.
pub fn poly_zero() -> (r: Vec<u16>)
    ensures
        poly_wf(r@),
        forall|i: int| 0 <= i < 256 ==> r@[i] == 0,
{
    let mut r: Vec<u16> = Vec::new();
    let mut i: usize = 0;
    while i < N
        invariant
            i <= N,
            r@.len() == i,
            forall|t: int| 0 <= t < i ==> r@[t] == 0,
        decreases N - i,
    {
        r.push(0);
        i = i + 1;
    }
    r
}

/// Coefficient-wise sum.
pub fn poly_add(a: &Vec<u16>, b: &Vec<u16>) -> (r: Vec<u16>)
    requires
        poly_wf(a@),
        poly_wf(b@),
    ensures
        poly_wf(r@),
        r@ == poly_add_spec(a@, b@),
{
    let mut r: Vec<u16> = Vec::new();
    let mut i: usize = 0;
    while i < N
        invariant
            i <= N,
            poly_wf(a@),
            poly_wf(b@),
            r@.len() == i,
            forall|t: int| 0 <= t < i ==> r@[t] < 3329 && r@[t] as int == (a@[t] + b@[t]) % q(),
        decreases N - i,
    {
        r.push(add_mod(a[i], b[i]));
        i = i + 1;
    }
    assert(r@ =~= poly_add_spec(a@, b@));
    r
}

/// Coefficient-wise difference.
pub fn poly_sub(a: &Vec<u16>, b: &Vec<u16>) -> (r: Vec<u16>)
    requires
        poly_wf(a@),
        poly_wf(b@),
    ensures
        poly_wf(r@),
        r@ == poly_sub_spec(a@, b@),
{
    let mut r: Vec<u16> = Vec::new();
    let mut i: usize = 0;
    while i < N
        invariant
            i <= N,
            poly_wf(a@),
            poly_wf(b@),
            r@.len() == i,
            forall|t: int| 0 <= t < i ==> r@[t] < 3329 && r@[t] as int == (a@[t] - b@[t]) % q(),
        decreases N - i,
    {
        r.push(sub_mod(a[i], b[i]));
        i = i + 1;
    }
    assert(r@ =~= poly_sub_spec(a@, b@));
    r
}

/// Forward transform, in place: seven layers of Cooley-Tukey butterflies;
/// the output is in bit-reversed order.
pub fn ntt(r: &mut Vec<u16>)
    requires
        poly_wf(old(r)@),
    ensures
        poly_wf(final(r)@),
        final(r)@ == ntt_spec(old(r)@),
{
    let ghost orig = r@;
    let z = zetas();
    let mut len: usize = 128;
    let mut groups: usize = 1;
    while len >= 2
        invariant
            poly_wf(r@),
            z@ == zetas_spec(),
            layer(len, groups) || (len == 1 && groups == 128),
            fwd_layers(r@, len as nat, groups as int) == ntt_spec(orig),
        decreases len,
    {
        let ghost prev = r@;
        proof {
            lemma_layer(len, groups);
        }
        let mut grp: usize = 0;
        while grp < groups
            invariant
                poly_wf(r@),
                poly_wf(prev),
                z@ == zetas_spec(),
                layer(len, groups),
                len * groups == 128,
                grp <= groups,
                forall|t: int| 0 <= t < 256 ==> r@[t] == (if t < 2 * len * grp {
                    fwd_layer(prev, len as int, groups as int)[t]
                } else {
                    prev[t]
                }),
            decreases groups - grp,
        {
            assert(groups <= 64 && 2 * len * grp + 2 * len <= 256) by (nonlinear_arith)
                requires len * groups == 128, 2 <= len, grp < groups;
            let zeta = z[groups + grp];
            let start: usize = 2 * len * grp;
            let mut j: usize = start;
            while j < start + len
                invariant
                    poly_wf(r@),
                    poly_wf(prev),
                    layer(len, groups),
                    start == 2 * len * grp,
                    grp < groups,
                    zeta == zetas_spec()[groups + grp],
                    start <= j <= start + len,
                    start + 2 * len <= 256,
                    forall|t: int| 0 <= t < 256 ==> r@[t] == (if t < j || (start + len <= t < j + len) {
                        fwd_layer(prev, len as int, groups as int)[t]
                    } else {
                        prev[t]
                    }),
                decreases start + len - j,
            {
                proof {
                    lemma_block(j as int, 2 * len as int, grp as int);
                    lemma_block((j + len) as int, 2 * len as int, grp as int);
                }
                let t = mul_mod(r[j + len], zeta);
                let hi = sub_mod(r[j], t);
                let lo = add_mod(r[j], t);
                r.set(j + len, hi);
                r.set(j, lo);
                j = j + 1;
            }
            assert(2 * len * (grp + 1) == start + 2 * len) by (nonlinear_arith)
                requires start == 2 * len * grp;
            grp = grp + 1;
        }
        assert(r@ =~= fwd_layer(prev, len as int, groups as int));
        len = len / 2;
        groups = groups * 2;
    }
}

/// Inverse transform, in place, including the factor `1/128 mod Q`:
/// seven layers of Gentleman-Sande butterflies.
pub fn inv_ntt(r: &mut Vec<u16>)
    requires
        poly_wf(old(r)@),
    ensures
        poly_wf(final(r)@),
        final(r)@ == inv_ntt_spec(old(r)@),
{
    let ghost orig = r@;
    let z = zetas();
    let mut len: usize = 2;
    let mut groups: usize = 64;
    while len <= 128
        invariant
            poly_wf(r@),
            z@ == zetas_spec(),
            layer(len, groups) || (len == 256 && groups == 0),
            inv_layers(r@, len as nat, groups as int) == inv_layers(orig, 2, 64),
        decreases 256 - len,
    {
        let ghost prev = r@;
        proof {
            lemma_layer(len, groups);
        }
        let mut grp: usize = 0;
        while grp < groups
            invariant
                poly_wf(r@),
                poly_wf(prev),
                z@ == zetas_spec(),
                layer(len, groups),
                len * groups == 128,
                grp <= groups,
                forall|t: int| 0 <= t < 256 ==> r@[t] == (if t < 2 * len * grp {
                    inv_layer(prev, len as int, groups as int)[t]
                } else {
                    prev[t]
                }),
            decreases groups - grp,
        {
            assert(groups <= 64 && 2 * len * grp + 2 * len <= 256) by (nonlinear_arith)
                requires len * groups == 128, 2 <= len, grp < groups;
            let zeta = z[2 * groups - 1 - grp];
            let start: usize = 2 * len * grp;
            let mut j: usize = start;
            while j < start + len
                invariant
                    poly_wf(r@),
                    poly_wf(prev),
                    layer(len, groups),
                    start == 2 * len * grp,
                    grp < groups,
                    zeta == zetas_spec()[2 * groups - 1 - grp],
                    start <= j <= start + len,
                    start + 2 * len <= 256,
                    forall|t: int| 0 <= t < 256 ==> r@[t] == (if t < j || (start + len <= t < j + len) {
                        inv_layer(prev, len as int, groups as int)[t]
                    } else {
                        prev[t]
                    }),
                decreases start + len - j,
            {
                proof {
                    lemma_block(j as int, 2 * len as int, grp as int);
                    lemma_block((j + len) as int, 2 * len as int, grp as int);
                }
                let t = r[j];
                let hi = sub_mod(r[j + len], t);
                let lo = add_mod(t, r[j + len]);
                r.set(j, lo);
                r.set(j + len, mul_mod(hi, zeta));
                j = j + 1;
            }
            assert(2 * len * (grp + 1) == start + 2 * len) by (nonlinear_arith)
                requires start == 2 * len * grp;
            grp = grp + 1;
        }
        assert(r@ =~= inv_layer(prev, len as int, groups as int));
        len = len * 2;
        groups = groups / 2;
    }
    let ghost mid = r@;
    assert(mid == inv_layers(orig, 2, 64));
    let mut i: usize = 0;
    while i < N
        invariant
            poly_wf(r@),
            poly_wf(mid),
            i <= N,
            forall|t: int| 0 <= t < 256 ==> r@[t] == (if t < i {
                ((mid[t] * 3303) % q()) as u16
            } else {
                mid[t]
            }),
        decreases N - i,
    {
        let c = mul_mod(r[i], 3303);
        r.set(i, c);
        i = i + 1;
    }
    assert(r@ =~= inv_ntt_spec(orig));
}

/// Product of two polynomials in the transform domain: 128 products of
/// degree-one polynomials modulo `X^2 - zeta`.
pub fn basemul(a: &Vec<u16>, b: &Vec<u16>) -> (r: Vec<u16>)
    requires
        poly_wf(a@),
        poly_wf(b@),
    ensures
        poly_wf(r@),
        r@ == basemul_spec(a@, b@),
{
    let z = zetas();
    let mut r: Vec<u16> = Vec::new();
    let mut i: usize = 0;
    while i < 64
        invariant
            poly_wf(a@),
            poly_wf(b@),
            z@ == zetas_spec(),
            i <= 64,
            r@.len() == 4 * i,
            forall|t: int| 0 <= t < r@.len() ==> r@[t] < 3329 && r@[t] == basemul_coeff(a@, b@, t),
        decreases 64 - i,
    {
        let zeta = mul_mod(1, z[64 + i]);
        let neg = sub_mod(0, zeta);
        let mut h: usize = 0;
        while h < 2
            invariant
                poly_wf(a@),
                poly_wf(b@),
                i < 64,
                h <= 2,
                zeta < Q,
                neg < Q,
                zeta as int == (1 * zetas_spec()[64 + i]) % q(),
                neg as int == (0 - zeta) % q(),
                r@.len() == 4 * i + 2 * h,
                forall|t: int| 0 <= t < r@.len() ==> r@[t] < 3329 && r@[t] == basemul_coeff(a@, b@, t),
            decreases 2 - h,
        {
            let w = if h == 0 { zeta } else { neg };
            let o = 4 * i + 2 * h;
            let (a0, a1, b0, b1) = (a[o], a[o + 1], b[o], b[o + 1]);
            let c0 = add_mod(mul_mod(mul_mod(a1, b1), w), mul_mod(a0, b0));
            let c1 = add_mod(mul_mod(a0, b1), mul_mod(a1, b0));
            proof {
                lemma_block(o as int, 4, i as int);
                lemma_block(o + 1, 4, i as int);
                lemma_block(o as int, 2, (2 * i + h) as int);
                lemma_block(o + 1, 2, (2 * i + h) as int);
            }
            r.push(c0);
            r.push(c1);
            h = h + 1;
        }
        i = i + 1;
    }
    assert(r@ =~= basemul_spec(a@, b@));
    r
}

} // verus!

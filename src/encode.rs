//! Byte encodings of polynomials: 12 bits per coefficient for keys, and the
//! compressed 10-bit and 4-bit forms of ciphertexts, and messages.
use vstd::prelude::*;
use vstd::arithmetic::power2::{pow2, lemma2_to64};
use crate::arith::{q, reduce, compress, decompress, compress_spec, decompress_spec, DU, DV};
use crate::poly::poly_wf;
use crate::sample::candidate;

verus! {

/// Bytes of one polynomial at 12 bits per coefficient.
pub const POLY_BYTES: usize = 384;

/// Bytes of one polynomial compressed to 10 bits per coefficient.
pub const POLY_COMPRESSED_U: usize = 320;

/// Bytes of one polynomial compressed to 4 bits per coefficient.
pub const POLY_COMPRESSED_V: usize = 128;

/// Byte `n` of the 12-bit packing of `a`: two coefficients fill three bytes,
/// least significant bits first.
pub open spec fn pack12(a: Seq<u16>, n: int) -> int {
    let t = n / 3;
    let (c0, c1) = (a[2 * t] as int, a[2 * t + 1] as int);
    if n % 3 == 0 {
        c0 % 256
    } else if n % 3 == 1 {
        c0 / 256 + (c1 % 16) * 16
    } else {
        c1 / 16
    }
}

/// The 12-bit packing of a polynomial.
pub open spec fn poly_bytes_spec(a: Seq<u16>) -> Seq<u8> {
    Seq::new(384, |n: int| pack12(a, n) as u8)
}

/// The polynomial read from 384 bytes at 12 bits per coefficient, reduced.
pub open spec fn poly_from_bytes_spec(b: Seq<u8>) -> Seq<u16> {
    Seq::new(256, |c: int| (candidate(b, c) % q()) as u16)
}

/// Serialises a polynomial at 12 bits per coefficient.
pub fn poly_to_bytes(a: &Vec<u16>) -> (r: Vec<u8>)
    requires
        poly_wf(a@),
    ensures
        r@.len() == POLY_BYTES,
        forall|n: int| 0 <= n < 384 ==> r@[n] as int == pack12(a@, n),
        r@ == poly_bytes_spec(a@),
{
    let mut r: Vec<u8> = Vec::new();
    let mut i: usize = 0;
    while i < 128
        invariant
            poly_wf(a@),
            i <= 128,
            r@.len() == 3 * i,
            forall|n: int| 0 <= n < r@.len() ==> r@[n] as int == pack12(a@, n),
        decreases 128 - i,
    {
        let c0 = a[2 * i];
        let c1 = a[2 * i + 1];
        r.push((c0 % 256) as u8);
        r.push((c0 / 256 + (c1 % 16) * 16) as u8);
        r.push((c1 / 16) as u8);
        proof {
            assert forall|n: int| 3 * i <= n < 3 * i + 3 implies r@[n] as int == pack12(a@, n) by {
                assert(n / 3 == i);
            }
        }
        i = i + 1;
    }
    assert(r@ =~= poly_bytes_spec(a@));
    r
}

/// Reads a polynomial at 12 bits per coefficient from `b[off..off + 384]`,
/// reducing each coefficient modulo `Q`.
pub fn poly_from_bytes(b: &Vec<u8>, off: usize) -> (r: Vec<u16>)
    requires
        off + POLY_BYTES <= b@.len(),
    ensures
        poly_wf(r@),
        forall|c: int| 0 <= c < 256 ==> r@[c] as int
            == candidate(b@.subrange(off as int, off + 384), c) % q(),
        r@ == poly_from_bytes_spec(b@.subrange(off as int, off + 384)),
{
    let ghost s = b@.subrange(off as int, off + 384);
    let blen = b.len();
    let mut r: Vec<u16> = Vec::new();
    let mut i: usize = 0;
    while i < 128
        invariant
            off + POLY_BYTES <= b@.len(),
            blen == b@.len(),
            s == b@.subrange(off as int, off + 384),
            i <= 128,
            r@.len() == 2 * i,
            forall|c: int| 0 <= c < r@.len() ==> r@[c] < 3329 && r@[c] as int == candidate(s, c) % q(),
        decreases 128 - i,
    {
        let b0 = b[off + 3 * i] as u16;
        let b1 = b[off + 3 * i + 1] as u16;
        let b2 = b[off + 3 * i + 2] as u16;
        r.push(reduce(b0 + (b1 % 16) * 256));
        r.push(reduce(b1 / 16 + b2 * 16));
        proof {
            assert forall|c: int| 2 * i <= c < 2 * i + 2 implies r@[c] as int == candidate(s, c) % q() by {
                assert(c / 2 == i);
            }
        }
        i = i + 1;
    }
    assert(r@ =~= poly_from_bytes_spec(s));
    r
}

/// Byte `n` of the 10-bit packing of the values `y`: four values fill five bytes.
pub open spec fn pack10(y: Seq<int>, n: int) -> int {
    let t = n / 5;
    let (y0, y1, y2, y3) = (y[4 * t], y[4 * t + 1], y[4 * t + 2], y[4 * t + 3]);
    if n % 5 == 0 {
        y0 % 256
    } else if n % 5 == 1 {
        y0 / 256 + (y1 % 64) * 4
    } else if n % 5 == 2 {
        y1 / 64 + (y2 % 16) * 16
    } else if n % 5 == 3 {
        y2 / 16 + (y3 % 4) * 64
    } else {
        y3 / 4
    }
}

/// Value `c` of the 10-bit unpacking of `b`.
pub open spec fn unpack10(b: Seq<u8>, c: int) -> int {
    let t = c / 4;
    let (b0, b1, b2, b3, b4) = (
        b[5 * t] as int,
        b[5 * t + 1] as int,
        b[5 * t + 2] as int,
        b[5 * t + 3] as int,
        b[5 * t + 4] as int,
    );
    if c % 4 == 0 {
        b0 + (b1 % 4) * 256
    } else if c % 4 == 1 {
        b1 / 4 + (b2 % 16) * 64
    } else if c % 4 == 2 {
        b2 / 16 + (b3 % 64) * 16
    } else {
        b3 / 64 + b4 * 4
    }
}

/// The coefficients of `a` compressed to `d` bits.
pub open spec fn compressed(a: Seq<u16>, d: nat) -> Seq<int> {
    Seq::new(a.len(), |i: int| compress_spec(a[i] as int, d))
}

/// The 10-bit compressed packing of a polynomial.
pub open spec fn compress_u_spec(a: Seq<u16>) -> Seq<u8> {
    Seq::new(320, |n: int| pack10(compressed(a, 10), n) as u8)
}

/// The polynomial decompressed from a 320-byte 10-bit packing.
pub open spec fn decompress_u_spec(b: Seq<u8>) -> Seq<u16> {
    Seq::new(256, |c: int| decompress_spec(unpack10(b, c), 10) as u16)
}

/// The 4-bit compressed packing of a polynomial.
pub open spec fn compress_v_spec(a: Seq<u16>) -> Seq<u8> {
    Seq::new(
        128,
        |n: int| (compress_spec(a[2 * n] as int, 4) + 16 * compress_spec(a[2 * n + 1] as int, 4)) as u8,
    )
}

/// The polynomial decompressed from a 128-byte 4-bit packing.
pub open spec fn decompress_v_spec(b: Seq<u8>) -> Seq<u16> {
    Seq::new(
        256,
        |c: int|
            decompress_spec(
                if c % 2 == 0 { b[c / 2] as int % 16 } else { b[c / 2] as int / 16 },
                4,
            ) as u16,
    )
}

/// Compresses a polynomial to 10 bits per coefficient and packs it.
pub fn poly_compress_u(a: &Vec<u16>) -> (r: Vec<u8>)
    requires
        poly_wf(a@),
    ensures
        r@.len() == POLY_COMPRESSED_U,
        r@ == compress_u_spec(a@),
{
    proof {
        lemma2_to64();
    }
    let ghost y = compressed(a@, 10);
    let mut r: Vec<u8> = Vec::new();
    let mut i: usize = 0;
    while i < 64
        invariant
            poly_wf(a@),
            y == compressed(a@, 10),
            pow2(10) == 1024,
            i <= 64,
            r@.len() == 5 * i,
            forall|n: int| 0 <= n < r@.len() ==> r@[n] as int == pack10(y, n),
        decreases 64 - i,
    {
        let y0 = compress(a[4 * i], DU);
        let y1 = compress(a[4 * i + 1], DU);
        let y2 = compress(a[4 * i + 2], DU);
        let y3 = compress(a[4 * i + 3], DU);
        r.push((y0 % 256) as u8);
        r.push((y0 / 256 + (y1 % 64) * 4) as u8);
        r.push((y1 / 64 + (y2 % 16) * 16) as u8);
        r.push((y2 / 16 + (y3 % 4) * 64) as u8);
        r.push((y3 / 4) as u8);
        proof {
            assert forall|n: int| 5 * i <= n < 5 * i + 5 implies r@[n] as int == pack10(y, n) by {
                assert(n / 5 == i);
            }
        }
        i = i + 1;
    }
    assert(r@ =~= compress_u_spec(a@));
    r
}

/// Unpacks 10-bit values from `b[off..off + 320]` and decompresses them.
pub fn poly_decompress_u(b: &Vec<u8>, off: usize) -> (r: Vec<u16>)
    requires
        off + POLY_COMPRESSED_U <= b@.len(),
    ensures
        poly_wf(r@),
        r@ == decompress_u_spec(b@.subrange(off as int, off + 320)),
{
    proof {
        lemma2_to64();
    }
    let ghost s = b@.subrange(off as int, off + 320);
    let blen = b.len();
    let mut r: Vec<u16> = Vec::new();
    let mut i: usize = 0;
    while i < 64
        invariant
            off + POLY_COMPRESSED_U <= b@.len(),
            blen == b@.len(),
            s == b@.subrange(off as int, off + 320),
            pow2(10) == 1024,
            i <= 64,
            r@.len() == 4 * i,
            forall|c: int| 0 <= c < r@.len() ==> r@[c] < 3329
                && r@[c] as int == decompress_spec(unpack10(s, c), 10),
        decreases 64 - i,
    {
        let o = off + 5 * i;
        let (b0, b1, b2, b3, b4) = (b[o] as u16, b[o + 1] as u16, b[o + 2] as u16, b[o + 3] as u16, b[o + 4] as u16);
        r.push(decompress(b0 + (b1 % 4) * 256, DU));
        r.push(decompress(b1 / 4 + (b2 % 16) * 64, DU));
        r.push(decompress(b2 / 16 + (b3 % 64) * 16, DU));
        r.push(decompress(b3 / 64 + b4 * 4, DU));
        proof {
            assert forall|c: int| 4 * i <= c < 4 * i + 4 implies r@[c] as int
                == decompress_spec(unpack10(s, c), 10) by {
                assert(c / 4 == i);
            }
        }
        i = i + 1;
    }
    assert(r@ =~= decompress_u_spec(s));
    r
}

/// Compresses a polynomial to 4 bits per coefficient and packs two per byte.
pub fn poly_compress_v(a: &Vec<u16>) -> (r: Vec<u8>)
    requires
        poly_wf(a@),
    ensures
        r@.len() == POLY_COMPRESSED_V,
        r@ == compress_v_spec(a@),
{
    proof {
        lemma2_to64();
    }
    let mut r: Vec<u8> = Vec::new();
    let mut i: usize = 0;
    while i < 128
        invariant
            poly_wf(a@),
            pow2(4) == 16,
            i <= 128,
            r@.len() == i,
            forall|n: int| 0 <= n < i ==> r@[n] as int
                == compress_spec(a@[2 * n] as int, 4) + 16 * compress_spec(a@[2 * n + 1] as int, 4),
        decreases 128 - i,
    {
        let y0 = compress(a[2 * i], DV);
        let y1 = compress(a[2 * i + 1], DV);
        r.push((y0 + 16 * y1) as u8);
        i = i + 1;
    }
    assert(r@ =~= compress_v_spec(a@));
    r
}

/// Unpacks 4-bit values from `b[off..off + 128]` and decompresses them.
pub fn poly_decompress_v(b: &Vec<u8>, off: usize) -> (r: Vec<u16>)
    requires
        off + POLY_COMPRESSED_V <= b@.len(),
    ensures
        poly_wf(r@),
        r@ == decompress_v_spec(b@.subrange(off as int, off + 128)),
{
    proof {
        lemma2_to64();
    }
    let blen = b.len();
    let mut r: Vec<u16> = Vec::new();
    let mut i: usize = 0;
    while i < 128
        invariant
            off + POLY_COMPRESSED_V <= b@.len(),
            blen == b@.len(),
            pow2(4) == 16,
            i <= 128,
            r@.len() == 2 * i,
            forall|c: int| 0 <= c < r@.len() ==> r@[c] < 3329 && r@[c] as int == decompress_spec(
                if c % 2 == 0 { b@[off + c / 2] as int % 16 } else { b@[off + c / 2] as int / 16 },
                4,
            ),
        decreases 128 - i,
    {
        let x = b[off + i] as u16;
        r.push(decompress(x % 16, DV));
        r.push(decompress(x / 16, DV));
        proof {
            assert forall|c: int| 2 * i <= c < 2 * i + 2 implies r@[c] as int == decompress_spec(
                if c % 2 == 0 { b@[off + c / 2] as int % 16 } else { b@[off + c / 2] as int / 16 },
                4,
            ) by {
                assert(c / 2 == i);
            }
        }
        i = i + 1;
    }
    assert(r@ =~= decompress_v_spec(b@.subrange(off as int, off + 128)));
    r
}

/// Bit `n` of a 32-byte message, least significant bit of each byte first.
pub open spec fn msg_bit(m: Seq<u8>, n: int) -> int {
    (m[n / 8] as int / pow2((n % 8) as nat) as int) % 2
}

/// The polynomial of a message.
pub open spec fn from_msg_spec(m: Seq<u8>) -> Seq<u16> {
    Seq::new(256, |n: int| decompress_spec(msg_bit(m, n), 1) as u16)
}

/// Byte `i` of the message of `a`, built from its bits `7, 6, ..., j`, most
/// significant first: bit `j` is coefficient `8 i + j` compressed to one bit.
pub open spec fn msg_byte(a: Seq<u16>, i: int, j: int) -> int
    decreases 8 - j,
{
    if j >= 8 || j < 0 {
        0
    } else {
        2 * msg_byte(a, i, j + 1) + compress_spec(a[8 * i + j] as int, 1)
    }
}

/// The message of a polynomial.
pub open spec fn to_msg_spec(a: Seq<u16>) -> Seq<u8> {
    Seq::new(32, |i: int| msg_byte(a, i, 0) as u8)
}

/// The polynomial of a message: each bit becomes `0` or `(Q + 1) / 2`.
pub fn poly_from_msg(m: &Vec<u8>) -> (r: Vec<u16>)
    requires
        m@.len() == 32,
    ensures
        poly_wf(r@),
        r@ == from_msg_spec(m@),
{
    proof {
        lemma2_to64();
    }
    let mut r: Vec<u16> = Vec::new();
    let mut i: usize = 0;
    while i < 32
        invariant
            m@.len() == 32,
            i <= 32,
            r@.len() == 8 * i,
            forall|n: int| 0 <= n < r@.len() ==> r@[n] < 3329
                && r@[n] as int == decompress_spec(msg_bit(m@, n), 1),
        decreases 32 - i,
    {
        let byte = m[i];
        let mut rest: u8 = byte;
        let mut j: usize = 0;
        proof {
            lemma2_to64();
        }
        while j < 8
            invariant
                m@.len() == 32,
                i < 32,
                j <= 8,
                byte == m@[i as int],
                rest as int == byte as int / pow2(j as nat) as int,
                r@.len() == 8 * i + j,
                forall|n: int| 0 <= n < r@.len() ==> r@[n] < 3329
                    && r@[n] as int == decompress_spec(msg_bit(m@, n), 1),
            decreases 8 - j,
        {
            proof {
                lemma2_to64();
                assert(pow2(1) == 2);
                assert((8 * i + j) / 8 == i && (8 * i + j) % 8 == j) by (nonlinear_arith)
                    requires j < 8;
            }
            let c = decompress((rest % 2) as u16, 1);
            r.push(c);
            proof {
                vstd::arithmetic::power2::lemma_pow2_adds(j as nat, 1);
                vstd::arithmetic::power2::lemma_pow2_pos(j as nat);
                vstd::arithmetic::div_mod::lemma_div_denominator(byte as int, pow2(j as nat) as int, 2);
            }
            rest = rest / 2;
            j = j + 1;
        }
        i = i + 1;
    }
    assert(r@ =~= from_msg_spec(m@));
    r
}

/// Decodes a polynomial to a message: each coefficient compressed to one bit.
pub fn poly_to_msg(a: &Vec<u16>) -> (m: Vec<u8>)
    requires
        poly_wf(a@),
    ensures
        m@ == to_msg_spec(a@),
{
    let mut m: Vec<u8> = Vec::new();
    let mut i: usize = 0;
    while i < 32
        invariant
            poly_wf(a@),
            i <= 32,
            m@.len() == i,
            forall|t: int| 0 <= t < i ==> m@[t] == msg_byte(a@, t, 0) as u8,
        decreases 32 - i,
    {
        let mut byte: u16 = 0;
        let mut j: usize = 8;
        proof {
            lemma2_to64();
        }
        while j > 0
            invariant
                poly_wf(a@),
                i < 32,
                j <= 8,
                byte < pow2((8 - j) as nat),
                byte as int == msg_byte(a@, i as int, j as int),
                m@.len() == i,
                forall|t: int| 0 <= t < i ==> m@[t] == msg_byte(a@, t, 0) as u8,
            decreases j,
        {
            proof {
                lemma2_to64();
            }
            let bit = compress(a[8 * i + j - 1], 1);
            proof {
                vstd::arithmetic::power2::lemma_pow2_adds((8 - j) as nat, 1);
            }
            byte = byte * 2 + bit;
            j = j - 1;
        }
        proof {
            lemma2_to64();
        }
        m.push(byte as u8);
        i = i + 1;
    }
    assert(m@ =~= to_msg_spec(a@));
    m
}

} // verus!

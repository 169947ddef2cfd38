//! The underlying public-key encryption scheme: key generation, encryption of
//! a 32-byte message under explicit coins, and decryption.
use vstd::prelude::*;
use crate::poly::{
    poly_wf, poly_zero, poly_add, poly_sub, ntt, inv_ntt, basemul, poly_add_spec, poly_sub_spec,
    ntt_spec, inv_ntt_spec, basemul_spec, lemma_block,
};
use crate::sample::{K, rej_uniform, sample_noise, accepted, noise_spec};
use crate::encode::{
    POLY_BYTES, POLY_COMPRESSED_U, poly_to_bytes, poly_from_bytes, poly_compress_u,
    poly_decompress_u, poly_compress_v, poly_decompress_v, poly_from_msg, poly_to_msg,
    poly_bytes_spec, poly_from_bytes_spec, compress_u_spec, compress_v_spec, decompress_u_spec,
    decompress_v_spec, from_msg_spec, to_msg_spec,
};
use crate::hash::{sha3_512, sha3_512_of, shake128, shake128_of};
use crate::bytes::{concat, slice, window};

verus! {

/// Bytes of a vector of three polynomials at 12 bits per coefficient.
pub const POLYVEC_BYTES: usize = 1152;

/// Bytes of an encryption public key: the vector `t` and the matrix seed.
pub const INDCPA_PUBLICKEY_BYTES: usize = 1184;

/// Bytes of a ciphertext: the compressed vector `u` and polynomial `v`.
pub const INDCPA_CIPHERTEXT_BYTES: usize = 1088;

/// Bytes of the SHAKE128 stream read first for one matrix entry.
pub const XOF_FIRST_BYTES: usize = 504;

/// Bytes of the longer SHAKE128 stream read when the first falls short.
pub const XOF_LONG_BYTES: usize = 5376;

/// A vector of three well-formed polynomials.
pub open spec fn vec_wf(v: Seq<Vec<u16>>) -> bool {
    &&& v.len() == 3
    &&& forall|i: int| 0 <= i < 3 ==> poly_wf(#[trigger] v[i]@)
}

/// A 3x3 matrix of well-formed polynomials, row by row.
pub open spec fn mat_wf(m: Seq<Vec<u16>>) -> bool {
    &&& m.len() == 9
    &&& forall|i: int| 0 <= i < 9 ==> poly_wf(#[trigger] m[i]@)
}

/// The accepted candidates of the first `len` bytes of the stream for seed
/// `rho` and index bytes `x`, `y`.
pub open spec fn uniform_stream(rho: Seq<u8>, x: u8, y: u8, len: nat) -> Seq<u16> {
    accepted(shake128_of(rho.push(x).push(y), len), 2 * (len / 3))
}

/// The uniform polynomial for seed `rho` and index bytes `x`, `y`: the first
/// 256 accepted candidates of the 504-byte stream, else of the 5376-byte
/// stream, else all of the latter followed by zeros.
pub open spec fn uniform_spec(rho: Seq<u8>, x: u8, y: u8) -> Seq<u16> {
    let s1 = uniform_stream(rho, x, y, 504);
    let s2 = uniform_stream(rho, x, y, 5376);
    if s1.len() >= 256 {
        s1.take(256)
    } else if s2.len() >= 256 {
        s2.take(256)
    } else {
        s2 + Seq::new((256 - s2.len()) as nat, |i: int| 0u16)
    }
}

/// A uniform polynomial from the SHAKE128 stream of `rho || x || y`, by
/// rejection sampling. The first 504 bytes of the stream are read; where they
/// yield fewer than 256 coefficients, the first 5376 bytes are; where even
/// those fall short (an event of negligible probability) the missing
/// coefficients are zero.
pub fn sample_uniform(rho: &Vec<u8>, x: u8, y: u8) -> (r: Vec<u16>)
    ensures
        poly_wf(r@),
        r@ == uniform_spec(rho@, x, y),
{
    let mut seed = rho.clone();
    seed.push(x);
    seed.push(y);
    assert(seed@ == rho@.push(x).push(y));
    let buf = shake128(seed.as_slice(), XOF_FIRST_BYTES);
    assert(2 * (buf@.len() / 3) == 336);
    let mut r = rej_uniform(&buf);
    proof {
        assert(r@.len() == 256 ==> r@ =~= uniform_stream(rho@, x, y, 504).take(256));
    }
    if r.len() < 256 {
        let long = shake128(seed.as_slice(), XOF_LONG_BYTES);
        assert(2 * (long@.len() / 3) == 3584);
        r = rej_uniform(&long);
        assert(r@.len() == 256 ==> r@ =~= uniform_stream(rho@, x, y, 5376).take(256));
    }
    let ghost got = r@;
    proof {
        assert(got.len() == 256 ==> got == uniform_spec(rho@, x, y));
        assert(got.len() < 256 ==> got == uniform_stream(rho@, x, y, 5376)
            && uniform_stream(rho@, x, y, 504).len() < 256);
    }
    while r.len() < 256
        invariant
            r@.len() <= 256,
            forall|i: int| 0 <= i < r@.len() ==> r@[i] < 3329,
            got.len() <= r@.len(),
            r@ == got + Seq::new((r@.len() - got.len()) as nat, |i: int| 0u16),
        decreases 256 - r@.len(),
    {
        r.push(0);
        assert(r@ =~= got + Seq::new((r@.len() - got.len()) as nat, |i: int| 0u16));
    }
    assert(r@ =~= uniform_spec(rho@, x, y));
    r
}

/// The polynomials of a vector of vectors.
pub open spec fn views(v: Seq<Vec<u16>>) -> Seq<Seq<u16>> {
    Seq::new(v.len(), |i: int| v[i]@)
}

/// The matrix `A` from seed `rho`, row by row: entry `(i, j)` is drawn with
/// index bytes `(j, i)`, or `(i, j)` for the transpose.
pub open spec fn matrix_spec(rho: Seq<u8>, transposed: bool) -> Seq<Seq<u16>> {
    Seq::new(
        9,
        |e: int|
            if transposed {
                uniform_spec(rho, (e / 3) as u8, (e % 3) as u8)
            } else {
                uniform_spec(rho, (e % 3) as u8, (e / 3) as u8)
            },
    )
}

/// Three noise polynomials with consecutive nonces from `nonce`.
pub open spec fn noise_vec_spec(key: Seq<u8>, nonce: u8) -> Seq<Seq<u16>> {
    Seq::new(3, |i: int| noise_spec(key, (nonce + i) as u8))
}

/// The forward transform of each of three polynomials.
pub open spec fn ntt_vec_spec(v: Seq<Seq<u16>>) -> Seq<Seq<u16>> {
    Seq::new(3, |i: int| ntt_spec(v[i]))
}

/// The zero polynomial.
pub open spec fn zero_poly() -> Seq<u16> {
    Seq::new(256, |i: int| 0u16)
}

/// `sum_{j < n} a[j] * b[j]` in the transform domain.
pub open spec fn dot_upto(a: Seq<Seq<u16>>, b: Seq<Seq<u16>>, n: nat) -> Seq<u16>
    decreases n,
{
    if n == 0 {
        zero_poly()
    } else {
        poly_add_spec(dot_upto(a, b, (n - 1) as nat), basemul_spec(a[n - 1], b[n - 1]))
    }
}

/// The inner product of two vectors of three polynomials.
pub open spec fn dot_spec(a: Seq<Seq<u16>>, b: Seq<Seq<u16>>) -> Seq<u16> {
    dot_upto(a, b, 3)
}

/// Row `i` of a 3x3 matrix.
pub open spec fn row(m: Seq<Seq<u16>>, i: int) -> Seq<Seq<u16>> {
    m.subrange(3 * i, 3 * i + 3)
}

/// The 12-bit packing of the first `n` polynomials of a vector.
pub open spec fn vec_bytes_upto(v: Seq<Seq<u16>>, n: nat) -> Seq<u8>
    decreases n,
{
    if n == 0 {
        Seq::empty()
    } else {
        vec_bytes_upto(v, (n - 1) as nat) + poly_bytes_spec(v[n - 1])
    }
}

/// The 12-bit packing of a vector of three polynomials.
pub open spec fn vec_bytes_spec(v: Seq<Seq<u16>>) -> Seq<u8> {
    vec_bytes_upto(v, 3)
}

/// The packing of `n` polynomials takes `384 n` bytes.
pub proof fn lemma_vec_bytes_len(v: Seq<Seq<u16>>, n: nat)
    ensures
        vec_bytes_upto(v, n).len() == 384 * n,
    decreases n,
{
    if n > 0 {
        lemma_vec_bytes_len(v, (n - 1) as nat);
    }
}

/// The vector of three polynomials read from 1152 bytes.
pub open spec fn vec_from_bytes_spec(b: Seq<u8>) -> Seq<Seq<u16>> {
    Seq::new(3, |i: int| poly_from_bytes_spec(b.subrange(384 * i, 384 * i + 384)))
}

/// Key generation on seed `d`: the public key `t || rho` and the secret key `s`.
#[verifier::opaque]
pub open spec fn keypair_spec(d: Seq<u8>) -> (Seq<u8>, Seq<u8>) {
    let g = sha3_512_of(d);
    let rho = window(g, 0, 32);
    let sigma = window(g, 32, 32);
    let a = matrix_spec(rho, false);
    let s = ntt_vec_spec(noise_vec_spec(sigma, 0));
    let e = ntt_vec_spec(noise_vec_spec(sigma, 3));
    let t = Seq::new(3, |i: int| poly_add_spec(dot_spec(row(a, i), s), e[i]));
    (vec_bytes_spec(t) + rho, vec_bytes_spec(s))
}

/// Encryption of message `m` under public key `pk` with coins `coins`.
#[verifier::opaque]
pub open spec fn enc_spec(pk: Seq<u8>, m: Seq<u8>, coins: Seq<u8>) -> Seq<u8> {
    let t = vec_from_bytes_spec(pk.subrange(0, 1152));
    let at = matrix_spec(pk.subrange(1152, 1184), true);
    let r = ntt_vec_spec(noise_vec_spec(coins, 0));
    let e1 = noise_vec_spec(coins, 3);
    let e2 = noise_spec(coins, 6);
    let u = Seq::new(3, |i: int| poly_add_spec(inv_ntt_spec(dot_spec(row(at, i), r)), e1[i]));
    let v = poly_add_spec(poly_add_spec(inv_ntt_spec(dot_spec(t, r)), e2), from_msg_spec(m));
    compress_u_spec(u[0]) + compress_u_spec(u[1]) + compress_u_spec(u[2]) + compress_v_spec(v)
}

/// Decryption of ciphertext `ct` with the secret key `sk`.
#[verifier::opaque]
pub open spec fn dec_spec(ct: Seq<u8>, sk: Seq<u8>) -> Seq<u8> {
    let u = Seq::new(3, |i: int| decompress_u_spec(ct.subrange(320 * i, 320 * i + 320)));
    let v = decompress_v_spec(ct.subrange(960, 1088));
    let s = vec_from_bytes_spec(sk.subrange(0, 1152));
    to_msg_spec(poly_sub_spec(v, inv_ntt_spec(dot_spec(s, ntt_vec_spec(u)))))
}

/// The public matrix `A` (or its transpose) expanded from the seed `rho`.
pub fn gen_matrix(rho: &Vec<u8>, transposed: bool) -> (m: Vec<Vec<u16>>)
    ensures
        mat_wf(m@),
        views(m@) == matrix_spec(rho@, transposed),
{
    let mut m: Vec<Vec<u16>> = Vec::new();
    let mut i: usize = 0;
    while i < K
        invariant
            i <= K,
            m@.len() == 3 * i,
            forall|t: int| 0 <= t < m@.len() ==> poly_wf(#[trigger] m@[t]@),
            forall|t: int| 0 <= t < m@.len() ==> #[trigger] m@[t]@ == matrix_spec(rho@, transposed)[t],
        decreases K - i,
    {
        let mut j: usize = 0;
        while j < K
            invariant
                i < K,
                j <= K,
                m@.len() == 3 * i + j,
                forall|t: int| 0 <= t < m@.len() ==> poly_wf(#[trigger] m@[t]@),
                forall|t: int| 0 <= t < m@.len() ==> #[trigger] m@[t]@ == matrix_spec(rho@, transposed)[t],
            decreases K - j,
        {
            proof {
                lemma_block((3 * i + j) as int, 3, i as int);
            }
            let p = if transposed {
                sample_uniform(rho, i as u8, j as u8)
            } else {
                sample_uniform(rho, j as u8, i as u8)
            };
            m.push(p);
            j = j + 1;
        }
        i = i + 1;
    }
    assert(views(m@) =~= matrix_spec(rho@, transposed));
    m
}

/// Three noise polynomials drawn with nonces `nonce`, `nonce + 1`, `nonce + 2`.
pub fn noise_vec(key: &Vec<u8>, nonce: u8) -> (v: Vec<Vec<u16>>)
    requires
        nonce <= 250,
    ensures
        vec_wf(v@),
        views(v@) == noise_vec_spec(key@, nonce),
{
    let mut v: Vec<Vec<u16>> = Vec::new();
    let mut i: u8 = 0;
    while i < 3
        invariant
            nonce <= 250,
            i <= 3,
            v@.len() == i,
            forall|t: int| 0 <= t < v@.len() ==> poly_wf(#[trigger] v@[t]@),
            forall|t: int| 0 <= t < v@.len() ==> #[trigger] v@[t]@ == noise_vec_spec(key@, nonce)[t],
        decreases 3 - i,
    {
        v.push(sample_noise(key, nonce + i));
        i = i + 1;
    }
    assert(views(v@) =~= noise_vec_spec(key@, nonce));
    v
}

/// The forward transform of each polynomial of a vector.
pub fn ntt_vec(v: &Vec<Vec<u16>>) -> (r: Vec<Vec<u16>>)
    requires
        vec_wf(v@),
    ensures
        vec_wf(r@),
        views(r@) == ntt_vec_spec(views(v@)),
{
    let mut r: Vec<Vec<u16>> = Vec::new();
    let mut i: usize = 0;
    while i < K
        invariant
            vec_wf(v@),
            i <= K,
            r@.len() == i,
            forall|t: int| 0 <= t < r@.len() ==> poly_wf(#[trigger] r@[t]@),
            forall|t: int| 0 <= t < r@.len() ==> #[trigger] r@[t]@ == ntt_spec(v@[t]@),
        decreases K - i,
    {
        let mut p = v[i].clone();
        assert(p@ == v@[i as int]@);
        ntt(&mut p);
        r.push(p);
        i = i + 1;
    }
    assert(views(r@) =~= ntt_vec_spec(views(v@)));
    r
}

/// The inner product `sum_j a[off + j] * b[j]` in the transform domain.
pub fn dot(a: &Vec<Vec<u16>>, off: usize, b: &Vec<Vec<u16>>) -> (r: Vec<u16>)
    requires
        off <= 6,
        off + 3 <= a@.len(),
        forall|t: int| off <= t < off + 3 ==> poly_wf(#[trigger] a@[t]@),
        vec_wf(b@),
    ensures
        poly_wf(r@),
        r@ == dot_spec(views(a@).subrange(off as int, off + 3), views(b@)),
{
    let ghost av = views(a@).subrange(off as int, off + 3);
    let ghost bv = views(b@);
    let r0 = poly_zero();
    assert(r0@ =~= zero_poly());
    let mut r = r0;
    let mut j: usize = 0;
    while j < K
        invariant
            off <= 6,
            off + 3 <= a@.len(),
            forall|t: int| off <= t < off + 3 ==> poly_wf(#[trigger] a@[t]@),
            vec_wf(b@),
            av == views(a@).subrange(off as int, off + 3),
            bv == views(b@),
            j <= K,
            poly_wf(r@),
            r@ == dot_upto(av, bv, j as nat),
        decreases K - j,
    {
        assert(poly_wf(a@[off + j]@));
        let p = basemul(&a[off + j], &b[j]);
        r = poly_add(&r, &p);
        j = j + 1;
    }
    r
}

/// Serialises a vector of three polynomials at 12 bits per coefficient.
pub fn polyvec_to_bytes(v: &Vec<Vec<u16>>) -> (r: Vec<u8>)
    requires
        vec_wf(v@),
    ensures
        r@.len() == POLYVEC_BYTES,
        r@ == vec_bytes_spec(views(v@)),
{
    let mut r: Vec<u8> = Vec::new();
    let mut i: usize = 0;
    while i < K
        invariant
            vec_wf(v@),
            i <= K,
            r@.len() == POLY_BYTES * i,
            r@ == vec_bytes_upto(views(v@), i as nat),
        decreases K - i,
    {
        let b = poly_to_bytes(&v[i]);
        r = concat(&r, &b);
        i = i + 1;
    }
    r
}

/// Reads a vector of three polynomials from `b[off..off + 1152]`.
pub fn polyvec_from_bytes(b: &Vec<u8>, off: usize) -> (v: Vec<Vec<u16>>)
    requires
        off + POLYVEC_BYTES <= b@.len(),
    ensures
        vec_wf(v@),
        views(v@) == vec_from_bytes_spec(b@.subrange(off as int, off + 1152)),
{
    let ghost whole = b@.subrange(off as int, off + 1152);
    let blen = b.len();
    let mut v: Vec<Vec<u16>> = Vec::new();
    let mut i: usize = 0;
    while i < K
        invariant
            off + POLYVEC_BYTES <= b@.len(),
            blen == b@.len(),
            whole == b@.subrange(off as int, off + 1152),
            i <= K,
            v@.len() == i,
            forall|t: int| 0 <= t < v@.len() ==> poly_wf(#[trigger] v@[t]@),
            forall|t: int| 0 <= t < v@.len() ==> #[trigger] v@[t]@ == vec_from_bytes_spec(whole)[t],
        decreases K - i,
    {
        let p = poly_from_bytes(b, off + POLY_BYTES * i);
        assert(b@.subrange(off + 384 * i, off + 384 * i + 384) =~= whole.subrange(
            384 * i as int,
            384 * i + 384,
        ));
        v.push(p);
        i = i + 1;
    }
    assert(views(v@) =~= vec_from_bytes_spec(whole));
    v
}

/// Key generation from a 32-byte seed `d`: `(rho, sigma) = SHA3-512(d)`,
/// `t = A s + e` in the transform domain; the public key is `t || rho`, the
/// secret key is `s`.
pub fn indcpa_keypair(d: &Vec<u8>) -> (r: (Vec<u8>, Vec<u8>))
    ensures
        r.0@.len() == INDCPA_PUBLICKEY_BYTES,
        r.1@.len() == POLYVEC_BYTES,
        (r.0@, r.1@) == keypair_spec(d@),
{
    reveal(keypair_spec);
    let g = sha3_512(d.as_slice());
    let rho = slice(g.as_slice(), 0, 32);
    let sigma = slice(g.as_slice(), 32, 64);
    assert(rho@ =~= window(g@, 0, 32));
    assert(sigma@ =~= window(g@, 32, 32));
    let a = gen_matrix(&rho, false);
    let s = ntt_vec(&noise_vec(&sigma, 0));
    let e = ntt_vec(&noise_vec(&sigma, 3));
    let ghost av = views(a@);
    let ghost sv = views(s@);
    let ghost ev = views(e@);
    let mut t: Vec<Vec<u16>> = Vec::new();
    let mut i: usize = 0;
    while i < K
        invariant
            mat_wf(a@),
            vec_wf(s@),
            vec_wf(e@),
            av == views(a@),
            sv == views(s@),
            ev == views(e@),
            i <= K,
            t@.len() == i,
            forall|x: int| 0 <= x < t@.len() ==> poly_wf(#[trigger] t@[x]@),
            forall|x: int| 0 <= x < t@.len() ==> #[trigger] t@[x]@ == poly_add_spec(
                dot_spec(row(av, x), sv),
                ev[x],
            ),
        decreases K - i,
    {
        let p = dot(&a, 3 * i, &s);
        assert(views(a@).subrange(3 * i as int, 3 * i + 3) == row(av, i as int));
        t.push(poly_add(&p, &e[i]));
        i = i + 1;
    }
    let tb = polyvec_to_bytes(&t);
    let pk = concat(&tb, &rho);
    let sk = polyvec_to_bytes(&s);
    assert(views(t@) =~= Seq::new(3, |x: int| poly_add_spec(dot_spec(row(av, x), sv), ev[x])));
    (pk, sk)
}

/// Encryption of a 32-byte message under a public key with 32 bytes of coins:
/// `u = invNTT(A^T r) + e1`, `v = invNTT(t . r) + e2 + Decompress(m)`, and the
/// ciphertext is `Compress_10(u) || Compress_4(v)`.
pub fn indcpa_enc(pk: &Vec<u8>, m: &Vec<u8>, coins: &Vec<u8>) -> (ct: Vec<u8>)
    requires
        pk@.len() == INDCPA_PUBLICKEY_BYTES,
        m@.len() == 32,
    ensures
        ct@.len() == INDCPA_CIPHERTEXT_BYTES,
        ct@ == enc_spec(pk@, m@, coins@),
{
    reveal(enc_spec);
    let t = polyvec_from_bytes(pk, 0);
    let rho = slice(pk.as_slice(), POLYVEC_BYTES, INDCPA_PUBLICKEY_BYTES);
    let at = gen_matrix(&rho, true);
    let r = ntt_vec(&noise_vec(coins, 0));
    let e1 = noise_vec(coins, 3);
    let e2 = sample_noise(coins, 6);
    let ghost atv = views(at@);
    let ghost rv = views(r@);
    let ghost e1v = views(e1@);
    let ghost u = Seq::new(
        3,
        |i: int| poly_add_spec(inv_ntt_spec(dot_spec(row(atv, i), rv)), e1v[i]),
    );
    let mut ct: Vec<u8> = Vec::new();
    let mut i: usize = 0;
    while i < K
        invariant
            mat_wf(at@),
            vec_wf(r@),
            vec_wf(e1@),
            atv == views(at@),
            rv == views(r@),
            e1v == views(e1@),
            u == Seq::new(3, |i: int| poly_add_spec(inv_ntt_spec(dot_spec(row(atv, i), rv)), e1v[i])),
            i <= K,
            ct@.len() == POLY_COMPRESSED_U * i,
            i == 0 ==> ct@ == Seq::<u8>::empty(),
            i == 1 ==> ct@ == compress_u_spec(u[0]),
            i == 2 ==> ct@ == compress_u_spec(u[0]) + compress_u_spec(u[1]),
            i == 3 ==> ct@ == compress_u_spec(u[0]) + compress_u_spec(u[1]) + compress_u_spec(u[2]),
        decreases K - i,
    {
        let mut p = dot(&at, 3 * i, &r);
        assert(views(at@).subrange(3 * i as int, 3 * i + 3) == row(atv, i as int));
        inv_ntt(&mut p);
        let ui = poly_add(&p, &e1[i]);
        let packed = poly_compress_u(&ui);
        ct = concat(&ct, &packed);
        proof {
            if i == 0 {
                assert(ct@ =~= compress_u_spec(u[0]));
            }
        }
        i = i + 1;
    }
    let mut v = dot(&t, 0, &r);
    assert(views(t@).subrange(0, 3) =~= views(t@));
    inv_ntt(&mut v);
    let v = poly_add(&v, &e2);
    let v = poly_add(&v, &poly_from_msg(m));
    let packed = poly_compress_v(&v);
    concat(&ct, &packed)
}

/// Decryption: `m = Compress_1(v - invNTT(s . NTT(u)))`.
pub fn indcpa_dec(ct: &Vec<u8>, sk: &Vec<u8>) -> (m: Vec<u8>)
    requires
        ct@.len() == INDCPA_CIPHERTEXT_BYTES,
        sk@.len() >= POLYVEC_BYTES,
    ensures
        m@.len() == 32,
        m@ == dec_spec(ct@, sk@),
{
    reveal(dec_spec);
    let ghost us = Seq::new(3, |i: int| decompress_u_spec(ct@.subrange(320 * i, 320 * i + 320)));
    let mut u: Vec<Vec<u16>> = Vec::new();
    let mut i: usize = 0;
    while i < K
        invariant
            ct@.len() == INDCPA_CIPHERTEXT_BYTES,
            us == Seq::new(3, |i: int| decompress_u_spec(ct@.subrange(320 * i, 320 * i + 320))),
            i <= K,
            u@.len() == i,
            forall|x: int| 0 <= x < u@.len() ==> poly_wf(#[trigger] u@[x]@),
            forall|x: int| 0 <= x < u@.len() ==> #[trigger] u@[x]@ == us[x],
        decreases K - i,
    {
        u.push(poly_decompress_u(ct, POLY_COMPRESSED_U * i));
        i = i + 1;
    }
    assert(views(u@) =~= us);
    let v = poly_decompress_v(ct, 960);
    let s = polyvec_from_bytes(sk, 0);
    let uh = ntt_vec(&u);
    let mut w = dot(&s, 0, &uh);
    assert(views(s@).subrange(0, 3) =~= views(s@));
    inv_ntt(&mut w);
    let d = poly_sub(&v, &w);
    poly_to_msg(&d)
}

} // verus!

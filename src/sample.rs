//! Deterministic sampling: uniform polynomials by rejection from SHAKE128, and
//! centered binomial noise from SHAKE256.
use vstd::prelude::*;
use crate::arith::{Q, q, sub_mod};
use crate::poly::poly_wf;
use crate::hash::{shake256, shake256_of};

verus! {

/// Number of polynomials in a vector (the module rank of Kyber768).
pub const K: usize = 3;

/// The noise coefficient drawn from one half-byte `nib`: the sum of its two low
/// bits minus the sum of its two high bits, modulo `Q`.
pub open spec fn cbd_coeff(nib: int) -> int {
    ((nib % 2 + (nib / 2) % 2) - ((nib / 4) % 2 + (nib / 8) % 2)) % q()
}

/// The half-byte of `buf` that coefficient `n` is drawn from, low half first.
pub open spec fn nibble(buf: Seq<u8>, n: int) -> int {
    if n % 2 == 0 { buf[n / 2] as int % 16 } else { buf[n / 2] as int / 16 }
}

/// A polynomial drawn from the centered binomial distribution with `eta = 2`
/// from 128 uniform bytes.
pub fn cbd2(buf: &Vec<u8>) -> (r: Vec<u16>)
    requires
        buf@.len() == 128,
    ensures
        poly_wf(r@),
        forall|n: int| 0 <= n < 256 ==> r@[n] as int == cbd_coeff(nibble(buf@, n)),
{
    let mut r: Vec<u16> = Vec::new();
    let mut n: usize = 0;
    while n < 256
        invariant
            buf@.len() == 128,
            n <= 256,
            r@.len() == n,
            forall|t: int| 0 <= t < n ==> r@[t] < 3329 && r@[t] as int == cbd_coeff(nibble(buf@, t)),
        decreases 256 - n,
    {
        let byte = buf[n / 2];
        let nib: u8 = if n % 2 == 0 { byte % 16 } else { byte / 16 };
        let a: u16 = (nib % 2 + (nib / 2) % 2) as u16;
        let b: u16 = ((nib / 4) % 2 + nib / 8) as u16;
        assert((nib / 8) % 2 == nib / 8);
        let c = sub_mod(a, b);
        r.push(c);
        n = n + 1;
    }
    r
}

/// The pseudo-random function: `SHAKE256(key || nonce)`, 128 bytes.
pub fn prf(key: &Vec<u8>, nonce: u8) -> (r: Vec<u8>)
    ensures
        r@ == shake256_of(key@.push(nonce), 128),
        r@.len() == 128,
{
    let mut input = key.clone();
    input.push(nonce);
    shake256(input.as_slice(), 128)
}

/// The noise polynomial drawn from `SHAKE256(key || nonce)`.
pub open spec fn noise_spec(key: Seq<u8>, nonce: u8) -> Seq<u16> {
    Seq::new(256, |n: int| cbd_coeff(nibble(shake256_of(key.push(nonce), 128), n)) as u16)
}

/// A noise polynomial: `cbd2(prf(key, nonce))`.
pub fn sample_noise(key: &Vec<u8>, nonce: u8) -> (r: Vec<u16>)
    ensures
        poly_wf(r@),
        r@ == noise_spec(key@, nonce),
{
    let buf = prf(key, nonce);
    let r = cbd2(&buf);
    assert(r@ =~= noise_spec(key@, nonce));
    r
}

/// The two 12-bit candidates read from the three bytes at `3 * t`.
pub open spec fn candidate(b: Seq<u8>, i: int) -> int {
    let t = i / 2;
    if i % 2 == 0 {
        b[3 * t] as int + (b[3 * t + 1] as int % 16) * 256
    } else {
        b[3 * t + 1] as int / 16 + b[3 * t + 2] as int * 16
    }
}

/// The candidates among the first `n` that are below `Q`, in order.
pub open spec fn accepted(b: Seq<u8>, n: nat) -> Seq<u16>
    decreases n,
{
    if n == 0 {
        Seq::empty()
    } else {
        let prev = accepted(b, (n - 1) as nat);
        let c = candidate(b, n - 1);
        if c < q() { prev.push(c as u16) } else { prev }
    }
}

proof fn lemma_accepted_canonical(b: Seq<u8>, n: nat)
    ensures
        forall|i: int| 0 <= i < accepted(b, n).len() ==> accepted(b, n)[i] < 3329,
        accepted(b, n).len() <= n,
    decreases n,
{
    if n > 0 {
        lemma_accepted_canonical(b, (n - 1) as nat);
    }
}

proof fn lemma_accepted_prefix(b: Seq<u8>, m: nat, n: nat)
    requires
        m <= n,
    ensures
        accepted(b, m).len() <= accepted(b, n).len(),
        forall|i: int| 0 <= i < accepted(b, m).len() ==> accepted(b, n)[i] == accepted(b, m)[i],
    decreases n,
{
    if m < n {
        lemma_accepted_prefix(b, m, (n - 1) as nat);
    }
}

/// Rejection sampling: the first (at most 256) candidates of `buf` below `Q`.
pub fn rej_uniform(buf: &Vec<u8>) -> (r: Vec<u16>)
    requires
        buf@.len() % 3 == 0,
    ensures
        r@.len() <= 256,
        forall|i: int| 0 <= i < r@.len() ==> r@[i] < 3329,
        r@ == accepted(buf@, (2 * (buf@.len() / 3)) as nat).take(r@.len() as int),
        r@.len() < 256 ==> r@ == accepted(buf@, (2 * (buf@.len() / 3)) as nat),
        r@.len() == 256 ==> accepted(buf@, (2 * (buf@.len() / 3)) as nat).len() >= 256,
{
    let ghost total = (2 * (buf@.len() / 3)) as nat;
    let mut r: Vec<u16> = Vec::new();
    let mut pos: usize = 0;
    while pos < buf.len() && r.len() < 256
        invariant
            buf@.len() % 3 == 0,
            pos % 3 == 0,
            pos <= buf@.len(),
            total == 2 * (buf@.len() / 3),
            r@.len() <= 256,
            r@.len() < 256 ==> r@ == accepted(buf@, (2 * (pos / 3)) as nat),
            r@ == accepted(buf@, (2 * (pos / 3)) as nat).take(r@.len() as int),
            r@.len() == 256 ==> accepted(buf@, (2 * (pos / 3)) as nat).len() >= 256,
        decreases buf@.len() - pos,
    {
        assert(pos + 3 <= buf@.len());
        let b0 = buf[pos] as u16;
        let b1 = buf[pos + 1] as u16;
        let b2 = buf[pos + 2] as u16;
        let v0: u16 = b0 + (b1 % 16) * 256;
        let v1: u16 = b1 / 16 + b2 * 16;
        let ghost t = pos / 3;
        proof {
            assert(candidate(buf@, 2 * t) == v0);
            assert(candidate(buf@, 2 * t + 1) == v1);
            lemma_accepted_canonical(buf@, (2 * t) as nat);
        }
        let ghost before = r@;
        if v0 < Q {
            r.push(v0);
        }
        assert(r@ == accepted(buf@, (2 * t + 1) as nat)) by {
            assert(r@ =~= accepted(buf@, (2 * t + 1) as nat));
        }
        let ghost mid = r@;
        if v1 < Q && r.len() < 256 {
            r.push(v1);
        }
        proof {
            assert(pos + 3 == 3 * (t + 1));
            assert((pos + 3) / 3 == t + 1);
            let acc = accepted(buf@, (2 * (t + 1)) as nat);
            if mid.len() < 256 {
                assert(r@ =~= acc);
            } else {
                assert(acc == (if v1 < Q { mid.push(v1) } else { mid }));
                assert(r@ =~= acc.take(r@.len() as int));
            }
            if r@.len() < 256 {
                assert(r@ =~= acc);
            } else {
                assert(r@ =~= acc.take(r@.len() as int));
            }
        }
        pos = pos + 3;
    }
    proof {
        lemma_accepted_canonical(buf@, (2 * (pos / 3)) as nat);
        if r@.len() < 256 {
            assert(pos / 3 == buf@.len() / 3);
        }
        if r@.len() == 256 {
            lemma_accepted_prefix(buf@, (2 * (pos / 3)) as nat, total);
            assert(r@ =~= accepted(buf@, total).take(r@.len() as int));
        }
    }
    r
}

} // verus!

//! The Fujisaki-Okamoto transform with implicit rejection, on explicit seeds.
use vstd::prelude::*;
use crate::hash::{sha3_256, sha3_512, shake256, sha3_256_of, sha3_512_of, shake256_of};
use crate::bytes::{concat, slice, bytes_equal, select, window};
use crate::indcpa::{
    indcpa_keypair, indcpa_enc, indcpa_dec, POLYVEC_BYTES, keypair_spec, enc_spec, dec_spec,
    lemma_vec_bytes_len,
};

verus! {

/// Bytes of a public key.
pub const CRYPTO_PUBLICKEYBYTES: usize = 1184;

/// Bytes of a secret key: the encryption secret key, the public key, the
/// hash of the public key, and the rejection seed `z`.
pub const CRYPTO_SECRETKEYBYTES: usize = 2400;

/// Bytes of a ciphertext.
pub const CRYPTO_CIPHERTEXTBYTES: usize = 1088;

/// Bytes of a shared secret.
pub const CRYPTO_BYTES: usize = 32;

/// The shared secret derived from a 32-byte prefix and a ciphertext:
/// `SHAKE256(prefix || SHA3-256(ct))`, 32 bytes.
pub open spec fn kdf(prefix: Seq<u8>, ct: Seq<u8>) -> Seq<u8> {
    shake256_of(prefix + sha3_256_of(ct), 32)
}

/// The key-derivation prefix and the encryption coins for message `m` under
/// a public key whose hash is `h`: `SHA3-512(m || h)`.
pub open spec fn derive_kr(m: Seq<u8>, h: Seq<u8>) -> Seq<u8> {
    sha3_512_of(m + h)
}

/// The public key held in a secret key.
pub open spec fn sk_public(sk: Seq<u8>) -> Seq<u8> {
    sk.subrange(1152, 2336)
}

/// The hash of the public key held in a secret key.
pub open spec fn sk_pk_hash(sk: Seq<u8>) -> Seq<u8> {
    sk.subrange(2336, 2368)
}

/// The rejection seed held in a secret key.
pub open spec fn sk_reject(sk: Seq<u8>) -> Seq<u8> {
    sk.subrange(2368, 2400)
}

/// The shared secret of decapsulation, given the recovered message `m` and the
/// ciphertext `reenc` obtained by encrypting it again: the key of `m` when
/// `reenc` is the received ciphertext, and the key of the rejection seed otherwise.
pub open spec fn decaps_secret(ct: Seq<u8>, sk: Seq<u8>, m: Seq<u8>, reenc: Seq<u8>) -> Seq<u8> {
    if reenc == ct {
        kdf(derive_kr(m, sk_pk_hash(sk)).subrange(0, 32), ct)
    } else {
        kdf(sk_reject(sk), ct)
    }
}

/// The keypair of seed `d || z`.
pub open spec fn kem_keypair_spec(seed: Seq<u8>) -> (Seq<u8>, Seq<u8>) {
    let (pk, skp) = keypair_spec(seed.subrange(0, 32));
    (pk, skp + pk + window(sha3_256_of(pk), 0, 32) + seed.subrange(32, 64))
}

/// The message encrypted by encapsulation with coins `coins`.
pub open spec fn encaps_message(coins: Seq<u8>) -> Seq<u8> {
    sha3_256_of(coins)
}

/// The ciphertext and the shared secret of encapsulation under `pk` with coins `coins`.
pub open spec fn encaps_spec(pk: Seq<u8>, coins: Seq<u8>) -> (Seq<u8>, Seq<u8>) {
    let m = encaps_message(coins);
    let kr = derive_kr(m, window(sha3_256_of(pk), 0, 32));
    let ct = enc_spec(pk, m, kr.subrange(32, 64));
    (ct, kdf(kr.subrange(0, 32), ct))
}

/// The message that decapsulation recovers from `ct`.
pub open spec fn decaps_message(ct: Seq<u8>, sk: Seq<u8>) -> Seq<u8> {
    dec_spec(ct, sk)
}

/// The encryption of the recovered message under the public key of `sk`,
/// with the coins derived from it.
pub open spec fn decaps_reencryption(ct: Seq<u8>, sk: Seq<u8>) -> Seq<u8> {
    let m = decaps_message(ct, sk);
    enc_spec(sk_public(sk), m, derive_kr(m, sk_pk_hash(sk)).subrange(32, 64))
}

/// The shared secret of decapsulation.
pub open spec fn decaps_spec(ct: Seq<u8>, sk: Seq<u8>) -> Seq<u8> {
    decaps_secret(ct, sk, decaps_message(ct, sk), decaps_reencryption(ct, sk))
}

/// Key generation from 64 bytes of seed `d || z`: the public key and the
/// secret key `sk_indcpa || pk || SHA3-256(pk) || z`.
pub fn keypair_derand(seed: &[u8]) -> (r: (Vec<u8>, Vec<u8>))
    requires
        seed@.len() == 64,
    ensures
        r.0@.len() == CRYPTO_PUBLICKEYBYTES,
        r.1@.len() == CRYPTO_SECRETKEYBYTES,
        (r.0@, r.1@) == kem_keypair_spec(seed@),
        sk_public(r.1@) == r.0@,
        sk_pk_hash(r.1@) == sha3_256_of(r.0@),
        sk_reject(r.1@) == seed@.subrange(32, 64),
{
    let d = slice(seed, 0, 32);
    let z = slice(seed, 32, 64);
    let (pk, skp) = indcpa_keypair(&d);
    let h = sha3_256(pk.as_slice());
    let sk = concat(&concat(&concat(&skp, &pk), &h), &z);
    assert(h@ =~= window(sha3_256_of(pk@), 0, 32));
    assert(sk_public(sk@) =~= pk@);
    assert(sk_pk_hash(sk@) =~= h@);
    assert(sk_reject(sk@) =~= z@);
    (pk, sk)
}

/// Encapsulation under a 1184-byte public key with 32 bytes of coins:
/// `m = SHA3-256(coins)`, `(K', c) = SHA3-512(m || SHA3-256(pk))`,
/// `ct = Enc(pk, m, c)`, shared secret `SHAKE256(K' || SHA3-256(ct))`.
pub fn encaps_derand(pk: &[u8], coins: &[u8]) -> (r: (Vec<u8>, Vec<u8>))
    requires
        pk@.len() == CRYPTO_PUBLICKEYBYTES,
        coins@.len() == 32,
    ensures
        r.0@.len() == CRYPTO_CIPHERTEXTBYTES,
        r.1@.len() == CRYPTO_BYTES,
        (r.0@, r.1@) == encaps_spec(pk@, coins@),
{
    let m = sha3_256(coins);
    let h = sha3_256(pk);
    assert(h@ =~= window(sha3_256_of(pk@), 0, 32));
    let kr = sha3_512(concat(&m, &h).as_slice());
    let pkv = slice(pk, 0, CRYPTO_PUBLICKEYBYTES);
    assert(pkv@ =~= pk@);
    let ct = indcpa_enc(&pkv, &m, &slice(kr.as_slice(), 32, 64));
    let ss = shared_secret(&slice(kr.as_slice(), 0, 32), &ct);
    (ct, ss)
}

/// `SHAKE256(prefix || SHA3-256(ct))`, 32 bytes.
pub fn shared_secret(prefix: &Vec<u8>, ct: &Vec<u8>) -> (ss: Vec<u8>)
    requires
        prefix@.len() == 32,
    ensures
        ss@ == kdf(prefix@, ct@),
        ss@.len() == CRYPTO_BYTES,
{
    let hc = sha3_256(ct.as_slice());
    let input = concat(prefix, &hc);
    shake256(input.as_slice(), 32)
}

/// The decision of decapsulation, given the recovered message `m` and its
/// re-encryption `reenc`: the ciphertexts are compared and the key prefix is
/// chosen without branching on the secret outcome.
pub fn decaps_select(ct: &Vec<u8>, sk: &Vec<u8>, m: &Vec<u8>, reenc: &Vec<u8>) -> (ss: Vec<u8>)
    requires
        sk@.len() == CRYPTO_SECRETKEYBYTES,
        m@.len() == 32,
    ensures
        ss@ == decaps_secret(ct@, sk@, m@, reenc@),
        ss@.len() == CRYPTO_BYTES,
{
    let h = slice(sk.as_slice(), 2336, 2368);
    let z = slice(sk.as_slice(), 2368, 2400);
    let kr = sha3_512(concat(m, &h).as_slice());
    let kp = slice(kr.as_slice(), 0, 32);
    let same = bytes_equal(reenc, ct);
    let prefix = select(same, &kp, &z);
    shared_secret(&prefix, ct)
}

/// Decapsulation of a 1088-byte ciphertext with a 2400-byte secret key:
/// decrypt to `m`, encrypt `m` again under the embedded public key with the
/// coins derived from it, and choose the key of `m` or of the rejection seed.
pub fn decaps_checked(ct: &[u8], sk: &[u8]) -> (ss: Vec<u8>)
    requires
        ct@.len() == CRYPTO_CIPHERTEXTBYTES,
        sk@.len() == CRYPTO_SECRETKEYBYTES,
    ensures
        ss@.len() == CRYPTO_BYTES,
        ss@ == decaps_spec(ct@, sk@),
{
    let ctv = slice(ct, 0, CRYPTO_CIPHERTEXTBYTES);
    let skv = slice(sk, 0, CRYPTO_SECRETKEYBYTES);
    assert(ctv@ =~= ct@);
    assert(skv@ =~= sk@);
    let m = indcpa_dec(&ctv, &skv);
    let h = slice(sk, 2336, 2368);
    let kr = sha3_512(concat(&m, &h).as_slice());
    let pk = slice(sk, POLYVEC_BYTES, 2336);
    let reenc = indcpa_enc(&pk, &m, &slice(kr.as_slice(), 32, 64));
    assert(pk@ == sk_public(sk@));
    assert(h@ == sk_pk_hash(sk@));
    decaps_select(&ctv, &skv, &m, &reenc)
}

/// Decapsulating the ciphertext of an encapsulation under a generated key
/// gives back the encapsulated shared secret, whenever the underlying
/// decryption recovers the encrypted message.
pub proof fn lemma_round_trip_when_decryption_succeeds(seed: Seq<u8>, coins: Seq<u8>)
    requires
        seed.len() == 64,
        coins.len() == 32,
        decaps_message(encaps_spec(kem_keypair_spec(seed).0, coins).0, kem_keypair_spec(seed).1)
            == encaps_message(coins),
    ensures
        decaps_spec(encaps_spec(kem_keypair_spec(seed).0, coins).0, kem_keypair_spec(seed).1)
            == encaps_spec(kem_keypair_spec(seed).0, coins).1,
{
    let (pk, sk) = kem_keypair_spec(seed);
    let (pk0, skp) = keypair_spec(seed.subrange(0, 32));
    lemma_keypair_lengths(seed.subrange(0, 32));
    let h = window(sha3_256_of(pk), 0, 32);
    let z = seed.subrange(32, 64);
    assert(sk == skp + pk + h + z);
    assert(sk_public(sk) =~= pk);
    assert(sk_pk_hash(sk) =~= h);
    assert(decaps_reencryption(encaps_spec(pk, coins).0, sk) == encaps_spec(pk, coins).0);
}

/// A ciphertext that is not the re-encryption of the message it decrypts to
/// is answered with the key of the rejection seed: the same value on every
/// call, which depends on the secret key through that seed alone.
pub proof fn lemma_implicit_rejection(ct: Seq<u8>, sk: Seq<u8>)
    requires
        decaps_reencryption(ct, sk) != ct,
    ensures
        decaps_spec(ct, sk) == kdf(sk_reject(sk), ct),
{
}

/// The lengths of the keys of the encryption scheme.
proof fn lemma_keypair_lengths(d: Seq<u8>)
    ensures
        keypair_spec(d).0.len() == 1184,
        keypair_spec(d).1.len() == 1152,
{
    reveal(keypair_spec);
    assert forall|v: Seq<Seq<u16>>| #[trigger] crate::indcpa::vec_bytes_spec(v).len() == 1152 by {
        lemma_vec_bytes_len(v, 3);
    }
}

} // verus!

//! Kyber768 key encapsulation, verified with Verus.
//!
//! The lattice arithmetic, sampling, encoding and the Fujisaki-Okamoto
//! transform are written here; the symmetric primitives (SHA3-256, SHA3-512,
//! SHAKE128, SHAKE256) and the system entropy source are outside crates.
use vstd::prelude::*;

pub mod arith;
pub mod bytes;
pub mod poly;
pub mod hash;
pub mod sample;
pub mod encode;
pub mod indcpa;
pub mod kem;

pub use kem::{
    CRYPTO_PUBLICKEYBYTES, CRYPTO_SECRETKEYBYTES, CRYPTO_CIPHERTEXTBYTES, CRYPTO_BYTES,
    keypair_derand, encaps_derand, decaps_checked,
};

verus! {

use crate::hash::random_bytes;
use crate::kem::{kem_keypair_spec, encaps_spec, decaps_spec};

/// Why an operation failed.
#[derive(Debug, Clone, Copy, PartialEq, Eq, Structural)]
pub enum KemError {
    /// The system entropy source could not supply a seed.
    EntropyUnavailable,
    /// The public key is not exactly 1184 bytes.
    InvalidPublicKeyLength,
    /// The ciphertext is not exactly 1088 bytes.
    InvalidCiphertextLength,
    /// The secret key is not exactly 2400 bytes.
    InvalidSecretKeyLength,
}

/// Generates a keypair from 64 fresh bytes of the system entropy source.
/// Fails only when the source fails.
pub fn generate_keypair() -> (r: Result<(Vec<u8>, Vec<u8>), KemError>)
    ensures
        r matches Err(e) ==> e == KemError::EntropyUnavailable,
        r matches Ok((pk, sk)) ==> {
            &&& pk@.len() == CRYPTO_PUBLICKEYBYTES
            &&& sk@.len() == CRYPTO_SECRETKEYBYTES
            &&& exists|seed: Seq<u8>| seed.len() == 64 && (pk@, sk@) == kem_keypair_spec(seed)
        },
{
    match random_bytes(64) {
        Ok(seed) => {
            let (pk, sk) = keypair_derand(seed.as_slice());
            assert(seed@.len() == 64 && (pk@, sk@) == kem_keypair_spec(seed@));
            Ok((pk, sk))
        },
        Err(_) => Err(KemError::EntropyUnavailable),
    }
}

/// Encapsulates a fresh shared secret under a public key. A key of any length
/// but 1184 bytes is refused; otherwise only a failing entropy source fails it.
pub fn encapsulate(pk: &[u8]) -> (r: Result<(Vec<u8>, Vec<u8>), KemError>)
    ensures
        pk@.len() != CRYPTO_PUBLICKEYBYTES <==> r == Err::<(Vec<u8>, Vec<u8>), KemError>(
            KemError::InvalidPublicKeyLength,
        ),
        r matches Err(e) ==> e == KemError::InvalidPublicKeyLength || e
            == KemError::EntropyUnavailable,
        r matches Ok((ct, ss)) ==> {
            &&& ct@.len() == CRYPTO_CIPHERTEXTBYTES
            &&& ss@.len() == CRYPTO_BYTES
            &&& exists|coins: Seq<u8>| coins.len() == 32 && (ct@, ss@) == encaps_spec(pk@, coins)
        },
{
    if pk.len() != CRYPTO_PUBLICKEYBYTES {
        return Err(KemError::InvalidPublicKeyLength);
    }
    match random_bytes(32) {
        Ok(coins) => {
            let (ct, ss) = encaps_derand(pk, coins.as_slice());
            assert(coins@.len() == 32 && (ct@, ss@) == encaps_spec(pk@, coins@));
            Ok((ct, ss))
        },
        Err(_) => Err(KemError::EntropyUnavailable),
    }
}

/// Decapsulates a ciphertext with a secret key. Lengths other than 1088 and
/// 2400 bytes are refused, the ciphertext's first; every ciphertext of the
/// right length yields a shared secret, the rejection key where it is not
/// the encryption of the message it decrypts to.
pub fn decapsulate(ct: &[u8], sk: &[u8]) -> (r: Result<Vec<u8>, KemError>)
    ensures
        ct@.len() != CRYPTO_CIPHERTEXTBYTES ==> r == Err::<Vec<u8>, KemError>(
            KemError::InvalidCiphertextLength,
        ),
        ct@.len() == CRYPTO_CIPHERTEXTBYTES && sk@.len() != CRYPTO_SECRETKEYBYTES ==> r == Err::<
            Vec<u8>,
            KemError,
        >(KemError::InvalidSecretKeyLength),
        ct@.len() == CRYPTO_CIPHERTEXTBYTES && sk@.len() == CRYPTO_SECRETKEYBYTES ==> r is Ok,
        r matches Ok(ss) ==> ss@.len() == CRYPTO_BYTES && ss@ == decaps_spec(ct@, sk@),
{
    if ct.len() != CRYPTO_CIPHERTEXTBYTES {
        return Err(KemError::InvalidCiphertextLength);
    }
    if sk.len() != CRYPTO_SECRETKEYBYTES {
        return Err(KemError::InvalidSecretKeyLength);
    }
    Ok(decaps_checked(ct, sk))
}

} // verus!

//! The symmetric primitives and the entropy source, from outside crates.
//!
//! Each digest is named by an uninterpreted function of its input: the
//! contracts of the library speak of those names.
use vstd::prelude::*;

verus! {

/// The SHA3-256 digest of a byte string.
pub uninterp spec fn sha3_256_of(data: Seq<u8>) -> Seq<u8>;

/// The SHA3-512 digest of a byte string.
pub uninterp spec fn sha3_512_of(data: Seq<u8>) -> Seq<u8>;

/// The first `len` bytes of the SHAKE128 stream of a byte string.
pub uninterp spec fn shake128_of(data: Seq<u8>, len: nat) -> Seq<u8>;

/// The first `len` bytes of the SHAKE256 stream of a byte string.
pub uninterp spec fn shake256_of(data: Seq<u8>, len: nat) -> Seq<u8>;

#[verifier::external_type_specification]
#[verifier::external_body]
pub struct ExEntropyError(getrandom::Error);

/// Relies on `sha3::Sha3_256` through `digest::Digest::digest`: the 32-byte
/// SHA3-256 digest of `data`.
#[verifier::external_body]
pub(crate) fn sha3_256(data: &[u8]) -> (r: Vec<u8>)
    ensures
        r@ == sha3_256_of(data@),
        r@.len() == 32,
{
    <sha3::Sha3_256 as sha3::Digest>::digest(data).to_vec()
}

/// Relies on `sha3::Sha3_512` through `digest::Digest::digest`: the 64-byte
/// SHA3-512 digest of `data`.
#[verifier::external_body]
pub(crate) fn sha3_512(data: &[u8]) -> (r: Vec<u8>)
    ensures
        r@ == sha3_512_of(data@),
        r@.len() == 64,
{
    <sha3::Sha3_512 as sha3::Digest>::digest(data).to_vec()
}

/// Relies on `sha3::Shake128` through `digest::ExtendableOutput::digest_xof`:
/// the first `len` bytes of the SHAKE128 output on `data`.
#[verifier::external_body]
pub(crate) fn shake128(data: &[u8], len: usize) -> (r: Vec<u8>)
    ensures
        r@ == shake128_of(data@, len as nat),
        r@.len() == len,
{
    let mut out = vec![0u8; len];
    <sha3::Shake128 as sha3::digest::ExtendableOutput>::digest_xof(data, &mut out);
    out
}

/// Relies on `sha3::Shake256` through `digest::ExtendableOutput::digest_xof`:
/// the first `len` bytes of the SHAKE256 output on `data`.
#[verifier::external_body]
pub(crate) fn shake256(data: &[u8], len: usize) -> (r: Vec<u8>)
    ensures
        r@ == shake256_of(data@, len as nat),
        r@.len() == len,
{
    let mut out = vec![0u8; len];
    <sha3::Shake256 as sha3::digest::ExtendableOutput>::digest_xof(data, &mut out);
    out
}

/// Relies on `getrandom::getrandom`: on success the buffer of `len` bytes is
/// filled from the operating system's source; on failure its error is returned.
#[verifier::external_body]
pub(crate) fn random_bytes(len: usize) -> (r: Result<Vec<u8>, getrandom::Error>)
    ensures
        r matches Ok(v) ==> v@.len() == len,
{
    let mut out = vec![0u8; len];
    match getrandom::getrandom(&mut out) {
        Ok(()) => Ok(out),
        Err(e) => Err(e),
    }
}

} // verus!

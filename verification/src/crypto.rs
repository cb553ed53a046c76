//! SHA-1 digests of raw bytes.
//!
//! The digest is the basis of content addressing: every tier of the cache is
//! keyed by the SHA-1 checksum of a contract's raw bytecode.

use vstd::prelude::*;

verus! {

/// The SHA-1 digest of a byte sequence, as the `sha1` crate computes it.
/// The digest is a function of the input bytes alone.
pub uninterp spec fn sha1_of(message: Seq<u8>) -> Seq<u8>;

/// Relies on `sha1::Sha1` (`new`, `update`, `finalize`): the digest is a pure
/// function of the input bytes and is always 20 bytes long.
#[verifier::external_body]
pub(crate) fn sha1_digest(message: &[u8]) -> (r: [u8; 20])
    ensures
        r@ == sha1_of(message@),
{
    let mut hasher = <sha1::Sha1 as sha1::Digest>::new();
    sha1::Digest::update(&mut hasher, message);
    sha1::Digest::finalize(hasher).into()
}

/// Errors from digest computation.
#[derive(Clone, Copy, Debug, PartialEq, Eq, Structural)]
pub enum CryptoError {
    /// A digest over inputs the backing implementation rejects.
    InvalidInput,
}

pub type CryptoResult<T> = Result<T, CryptoError>;

/// Computes the SHA-1 digest of `message`.  Succeeds on every input.
pub fn sha1_calculate(message: &[u8]) -> (r: CryptoResult<[u8; 20]>)
    ensures
        r matches Ok(d) && d@ == sha1_of(message@),
{
    Ok(sha1_digest(message))
}

} // verus!

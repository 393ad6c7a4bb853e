//! The external digest primitive behind the hash tree.

use vstd::prelude::*;
use sha2::Digest;
use vstd::string::StrSliceExecFns;
use vstd::string::StringSliceAdditionalSpecFns;

verus! {

/// The digest SHA-256 assigns to a byte string: a pure function of the bytes
/// alone, named here rather than written out.
pub uninterp spec fn sha256_of(bytes: Seq<u8>) -> Seq<u8>;

/// Relies on sha2's Sha256: one 32-byte digest for the whole input, a
/// function of the input bytes alone.
#[verifier::external_body]
pub fn sha256(bytes: &Vec<u8>) -> (r: Vec<u8>)
    ensures
        r@ == sha256_of(bytes@),
        r@.len() == 32,
{
    let mut hasher = sha2::Sha256::new();
    hasher.update(bytes.as_slice());
    hasher.finalize().to_vec()
}

/// The digest of a rule text: SHA-256 over its UTF-8 bytes.
pub fn hash(value: &str) -> (r: Vec<u8>)
    ensures
        r@ == sha256_of(value.spec_bytes()),
        r@.len() == 32,
{
    let bytes = value.as_bytes_vec();
    sha256(&bytes)
}

} // verus!

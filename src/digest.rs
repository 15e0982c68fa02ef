use vstd::prelude::*;
use sha2::Digest;

verus! {

/// The SHA-256 digest of a byte string.
pub uninterp spec fn sha256_of(b: Seq<u8>) -> Seq<u8>;

/// The base-58 text (Bitcoin alphabet) of a byte string.
pub uninterp spec fn base58_of(b: Seq<u8>) -> Seq<char>;

/// Relies on `sha2::Sha256::digest`: the SHA-256 digest of `bytes`, whose
/// output size is 32 bytes.
#[verifier::external_body]
fn sha256(bytes: &[u8]) -> (r: Vec<u8>)
    ensures
        r@ == sha256_of(bytes@),
        r@.len() == 32,
{
    sha2::Sha256::digest(bytes).to_vec()
}

/// Relies on `bs58::encode(..).into_string()`: the base-58 text of `bytes` in
/// the default (Bitcoin) alphabet.
#[verifier::external_body]
fn base58(bytes: &[u8]) -> (r: String)
    ensures
        r@ == base58_of(bytes@),
{
    bs58::encode(bytes).into_string()
}

/// The content hash of serialized data: the base-58 text of its SHA-256 digest.
pub fn based_hash(serialized: &[u8]) -> (r: String)
    ensures
        r@ == base58_of(sha256_of(serialized@)),
{
    let digest = sha256(serialized);
    base58(digest.as_slice())
}

} // verus!

//! SHA-256 fingerprints of the game executable, rendered as lower-case hex.

use vstd::prelude::*;
use crate::text::spec_hex_padded;

verus! {

/// The SHA-256 digest of the bytes, as the `sha2` crate computes it.
pub uninterp spec fn sha256_of(data: Seq<u8>) -> Seq<u8>;

/// Two lower-case hex digits per byte, without separators.
pub open spec fn spec_hex_encode(data: Seq<u8>) -> Seq<char>
    decreases data.len(),
{
    if data.len() == 0 {
        seq![]
    } else {
        spec_hex_encode(data.drop_last()) + spec_hex_padded(data.last() as nat, 2)
    }
}

/// Trusted: `sha2::Sha256::digest` (through the `Digest` trait), whose result is the
/// 32-byte SHA-256 digest of the input; the digest itself is only named.
#[verifier::external_body]
fn sha256_digest(data: &[u8]) -> (r: Vec<u8>)
    ensures
        r@ == sha256_of(data@),
        r@.len() == 32,
{
    <sha2::Sha256 as sha2::Digest>::digest(data).to_vec()
}

/// Trusted: `hex::encode`, which writes each byte as its high and then its low nibble,
/// both from the table `0123456789abcdef`.
#[verifier::external_body]
fn hex_encode(data: &[u8]) -> (r: String)
    ensures
        r@ == spec_hex_encode(data@),
{
    hex::encode(data)
}

/// The lower-case hex SHA-256 of the bytes, as the manifests record game builds.
pub fn sha256_hex(data: &[u8]) -> (r: String)
    ensures
        r@ == spec_hex_encode(sha256_of(data@)),
        r@.len() == 64,
{
    let digest = sha256_digest(data);
    let r = hex_encode(digest.as_slice());
    proof {
        lemma_hex_encode_len(digest@);
    }
    r
}

proof fn lemma_hex_encode_len(data: Seq<u8>)
    ensures
        spec_hex_encode(data).len() == 2 * data.len(),
    decreases data.len(),
{
    if data.len() > 0 {
        lemma_hex_encode_len(data.drop_last());
        let b = data.last() as nat;
        reveal_with_fuel(crate::text::spec_hex, 3);
        if b >= 16 {
            assert(b / 16 < 16);
        }
    }
}

} // verus!

//! The Keccak-256 digest and the selector cut from it.

use vstd::prelude::*;
use vstd::string::StringSliceAdditionalSpecFns;

verus! {

/// The Keccak-256 digest of `input`.
pub uninterp spec fn keccak256_digest(input: Seq<u8>) -> Seq<u8>;

/// How many bytes of a digest make a selector.
pub const SELECTOR_LEN: usize = 4;

/// The selector that the digest `digest` gives: its first four bytes.
pub open spec fn selector_bytes(digest: Seq<u8>) -> Seq<u8> {
    digest.subrange(0, SELECTOR_LEN as int)
}

/// The selector of a signature is the first four bytes of the digest of its
/// text: whatever [`get_selector`] and [`keccak`] give for one signature, the
/// one is the start of the other.
pub proof fn lemma_selector_starts_digest(signature: Seq<u8>, selector: Vec<u8>, digest: [u8; 32])
    requires
        selector@ == selector_bytes(keccak256_digest(signature)),
        digest@ == keccak256_digest(signature),
    ensures
        selector@.len() == SELECTOR_LEN,
        forall|i: int| 0 <= i < SELECTOR_LEN ==> selector@[i] == digest@[i],
{
}

/// `near_sdk::env::keccak256`.
///
/// Believed of it: it gives the Keccak-256 digest of its input, which is
/// thirty-two bytes long.
#[verifier::external_body]
fn keccak256(input: &[u8]) -> (digest: Vec<u8>)
    ensures
        digest@ == keccak256_digest(input@),
        digest@.len() == 32,
{
    near_sdk::env::keccak256(input)
}

/// The Keccak-256 digest of `input`.
pub fn keccak(input: &[u8]) -> (digest: [u8; 32])
    ensures
        digest@ == keccak256_digest(input@),
{
    let bytes = keccak256(input);
    let mut digest = [0u8; 32];
    let mut i: usize = 0;
    while i < 32
        invariant
            i <= 32,
            bytes@.len() == 32,
            forall|k: int| 0 <= k < i ==> digest@[k] == bytes@[k],
        decreases 32 - i,
    {
        digest[i] = bytes[i];
        i += 1;
    }
    digest
}

/// The first four bytes of a digest.
pub fn selector_from_digest(digest: &[u8; 32]) -> (selector: Vec<u8>)
    ensures
        selector@ == selector_bytes(digest@),
        selector@.len() == SELECTOR_LEN,
{
    let mut selector: Vec<u8> = Vec::new();
    let mut i: usize = 0;
    while i < SELECTOR_LEN
        invariant
            i <= SELECTOR_LEN,
            selector@ == digest@.subrange(0, i as int),
        decreases SELECTOR_LEN - i,
    {
        selector.push(digest[i]);
        i += 1;
    }
    selector
}

/// The selector of a signature: the first four bytes of the Keccak-256 digest
/// of its text.
pub fn get_selector(str_selector: &str) -> (selector: Vec<u8>)
    ensures
        selector@ == selector_bytes(keccak256_digest(str_selector.spec_bytes())),
        selector@.len() == SELECTOR_LEN,
{
    let digest = keccak(str_selector.as_bytes());
    selector_from_digest(&digest)
}

} // verus!

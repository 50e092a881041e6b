//! SHA-1 of a node address or a storage key, folded onto the ring.
use vstd::prelude::*;
use sha1::Digest;
use crate::keyspace::{ring_size, CLUSTER_SIZE};

verus! {

/// The SHA-1 digest of a byte sequence, as the `sha1` crate computes it.
pub uninterp spec fn sha1_of(data: Seq<u8>) -> Seq<u8>;

/// Calls `sha1::Sha1::digest` (through the `digest::Digest` trait).
/// Trusted: the result is the SHA-1 digest of `data`, a function of `data`
/// alone, and it has the 20 bytes that `Sha1Core`'s `OutputSize` (`U20`) fixes.
#[verifier::external_body]
fn sha1_digest(data: &[u8]) -> (d: Vec<u8>)
    ensures
        d@ == sha1_of(data@),
        d@.len() == 20,
{
    sha1::Sha1::digest(data).to_vec()
}

/// The first four bytes of `b` read as a big-endian unsigned integer.
pub open spec fn be_u32(b: Seq<u8>) -> int
    recommends
        b.len() >= 4,
{
    b[0] * 16777216 + b[1] * 65536 + b[2] * 256 + b[3]
}

/// The ring position named by a digest: its leading 32 bits modulo `CLUSTER_SIZE`.
pub open spec fn digest_key(d: Seq<u8>) -> int
    recommends
        d.len() >= 4,
{
    be_u32(d) % ring_size()
}

/// The ring position of a text (an address or a storage key).
pub open spec fn text_key(s: Seq<char>) -> int {
    digest_key(sha1_of(vstd::utf8::encode_utf8(s)))
}

/// Folds a digest onto the ring: the first four bytes, big-endian, modulo `CLUSTER_SIZE`.
pub fn key_of_digest(digest: &[u8]) -> (k: u32)
    requires
        digest@.len() >= 4,
    ensures
        k == digest_key(digest@),
        k < CLUSTER_SIZE,
{
    let b0 = digest[0] as u32;
    let b1 = digest[1] as u32;
    let b2 = digest[2] as u32;
    let b3 = digest[3] as u32;
    let word: u32 = b0 * 16777216 + b1 * 65536 + b2 * 256 + b3;
    word % CLUSTER_SIZE
}

/// The ring position of a text: SHA-1 of its UTF-8 bytes, folded by `key_of_digest`.
pub fn key_of_text(s: &str) -> (k: u32)
    ensures
        k == text_key(s@),
        k < CLUSTER_SIZE,
{
    let d = sha1_digest(s.as_bytes());
    key_of_digest(d.as_slice())
}

} // verus!

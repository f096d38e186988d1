//! Content digests.

use crate::text::{hex, hex_of};
use vstd::prelude::*;

verus! {

/// The BLAKE3 digest of `data`.
pub uninterp spec fn blake3_digest(data: Seq<u8>) -> Seq<u8>;

/// `blake3::hash`: the digest is a function of the bytes alone and is 32 bytes
/// long.
#[verifier::external_body]
fn blake3_of(data: &[u8]) -> (r: Vec<u8>)
    ensures
        r@ == blake3_digest(data@),
        r@.len() == 32,
{
    blake3::hash(data).as_bytes().to_vec()
}

/// The digest of `data` in lower-case hexadecimal.
pub open spec fn digest_text(data: Seq<u8>) -> Seq<char> {
    hex(blake3_digest(data))
}

/// The digest of `data` in lower-case hexadecimal.
pub fn digest_of(data: &[u8]) -> (r: String)
    ensures
        r@ == digest_text(data@),
        r@.len() == 64,
{
    let digest = blake3_of(data);
    hex_of(digest.as_slice())
}

/// `blake3::Hasher`, which takes its input in pieces.
#[verifier::external_type_specification]
#[verifier::external_body]
pub struct ExHasher(blake3::Hasher);

/// The bytes that a hasher was given, in their order.
pub uninterp spec fn hashed(h: blake3::Hasher) -> Seq<u8>;

/// `blake3::Hasher::new`: a new hasher was given nothing.
#[verifier::external_body]
fn hasher_new() -> (h: blake3::Hasher)
    ensures
        hashed(h) == Seq::<u8>::empty(),
{
    blake3::Hasher::new()
}

/// `blake3::Hasher::update` adds its input behind what the hasher was given.
#[verifier::external_body]
fn hasher_update(h: &mut blake3::Hasher, data: &[u8])
    ensures
        hashed(*final(h)) == hashed(*old(h)) + data@,
{
    h.update(data);
}

/// `blake3::Hasher::finalize` gives the digest of what the hasher was given, the
/// same as `blake3::hash` of all of it at once.
#[verifier::external_body]
fn hasher_finalize(h: &blake3::Hasher) -> (r: Vec<u8>)
    ensures
        r@ == blake3_digest(hashed(*h)),
        r@.len() == 32,
{
    h.finalize().as_bytes().to_vec()
}

/// The digest of content that comes in pieces.
pub struct ContentHasher {
    hasher: blake3::Hasher,
}

impl View for ContentHasher {
    type V = Seq<u8>;

    /// The content so far.
    closed spec fn view(&self) -> Seq<u8> {
        hashed(self.hasher)
    }
}

impl ContentHasher {
    pub fn new() -> (r: ContentHasher)
        ensures
            r@ == Seq::<u8>::empty(),
    {
        ContentHasher { hasher: hasher_new() }
    }

    /// Adds a piece.
    pub fn update(&mut self, data: &[u8])
        ensures
            final(self)@ == old(self)@ + data@,
    {
        hasher_update(&mut self.hasher, data);
    }

    /// The digest of the content so far, in lower-case hexadecimal behind `tag`, which
    /// names the algorithm.
    pub fn text(&self, tag: &str) -> (r: String)
        ensures
            r@ == tag@ + digest_text(self@),
    {
        let digest = hasher_finalize(&self.hasher);
        let mut r = tag.to_owned();
        r.append(hex_of(digest.as_slice()).as_str());
        r
    }
}

} // verus!

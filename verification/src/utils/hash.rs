//! Content hashes for duplicate detection: the BLAKE3 digest of a file's
//! bytes, fed in pieces as they are read.
use vstd::prelude::*;

verus! {

/// The BLAKE3 hasher.
#[verifier::external_type_specification]
#[verifier::external_body]
pub struct ExHasher(blake3::Hasher);

/// The bytes a hasher has consumed, in order.
pub uninterp spec fn hashed_bytes(h: blake3::Hasher) -> Seq<u8>;

/// The lowercase hexadecimal BLAKE3 digest of some bytes.
pub uninterp spec fn blake3_hex(data: Seq<u8>) -> Seq<char>;

/// `blake3::Hasher::new`: a hasher for the regular hash function that has
/// consumed nothing yet.
#[verifier::external_body]
fn new_hasher() -> (h: blake3::Hasher)
    ensures
        hashed_bytes(h) == Seq::<u8>::empty(),
{
    blake3::Hasher::new()
}

/// `blake3::Hasher::update`: the bytes are appended to what the hasher has
/// consumed.
#[verifier::external_body]
fn hasher_update(h: &mut blake3::Hasher, data: &[u8])
    ensures
        hashed_bytes(*final(h)) == hashed_bytes(*old(h)) + data@,
{
    h.update(data);
}

/// `blake3::Hasher::finalize` followed by `Hash::to_hex`: the digest of the
/// bytes consumed so far, as 64 lowercase hexadecimal digits. The hasher is
/// left as it was.
#[verifier::external_body]
fn hasher_hex(h: &blake3::Hasher) -> (r: String)
    ensures
        r@ == blake3_hex(hashed_bytes(*h)),
        r@.len() == 64,
{
    h.finalize().to_hex().to_string()
}

/// A content hash in progress.
pub struct ContentHasher {
    hasher: blake3::Hasher,
}

impl ContentHasher {
    /// The bytes fed so far.
    pub closed spec fn consumed(&self) -> Seq<u8> {
        hashed_bytes(self.hasher)
    }

    /// A hash of nothing yet.
    pub fn new() -> (r: Self)
        ensures
            r.consumed() == Seq::<u8>::empty(),
    {
        ContentHasher { hasher: new_hasher() }
    }

    /// Feeds the next piece of the content.
    pub fn update(&mut self, chunk: &[u8])
        ensures
            final(self).consumed() == old(self).consumed() + chunk@,
    {
        hasher_update(&mut self.hasher, chunk);
    }

    /// The hexadecimal digest of everything fed so far.
    pub fn finish(&self) -> (r: String)
        ensures
            r@ == blake3_hex(self.consumed()),
            r@.len() == 64,
    {
        hasher_hex(&self.hasher)
    }
}

/// The hexadecimal digest of some bytes.
pub fn content_hash(data: &[u8]) -> (r: String)
    ensures
        r@ == blake3_hex(data@),
        r@.len() == 64,
{
    let mut h = ContentHasher::new();
    h.update(data);
    assert(Seq::<u8>::empty() + data@ =~= data@);
    h.finish()
}

} // verus!

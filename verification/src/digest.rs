//! Content digests: streaming blake3 hashing and digest comparison.
//!
//! A digest is a 32-byte strong content hash.  Two files are considered
//! content-identical exactly when their digests are equal.  The hash itself
//! is computed by the `blake3` crate; the library only states that it is a
//! deterministic function of the bytes fed in.

use vstd::prelude::*;

verus! {

/// The digest that blake3 assigns to a byte sequence.  The function itself
/// is opaque: all that matters to the library is that the same bytes always
/// produce the same digest.
pub uninterp spec fn blake3_of(bytes: Seq<u8>) -> Seq<u8>;

/// The bytes that have been fed into an incremental hasher so far.
pub uninterp spec fn hasher_fed(h: blake3::Hasher) -> Seq<u8>;

#[verifier::external_type_specification]
#[verifier::external_body]
pub struct ExBlake3Hasher(blake3::Hasher);

/// Relies on `blake3::Hasher::new`: a fresh hasher has consumed no input.
#[verifier::external_body]
pub(crate) fn hasher_new() -> (h: blake3::Hasher)
    ensures
        hasher_fed(h) == Seq::<u8>::empty(),
{
    blake3::Hasher::new()
}

/// Relies on `blake3::Hasher::update`: feeding input appends it to the
/// stream the hasher has consumed, regardless of how the input is chunked.
#[verifier::external_body]
pub(crate) fn hasher_update(h: &mut blake3::Hasher, bytes: &[u8])
    ensures
        hasher_fed(*final(h)) == hasher_fed(*old(h)) + bytes@,
{
    h.update(bytes);
}

/// Relies on `blake3::Hasher::finalize`: the resulting 32-byte digest is a
/// function of the consumed input alone.
#[verifier::external_body]
pub(crate) fn hasher_finalize(h: &blake3::Hasher) -> (d: [u8; 32])
    ensures
        d@ == blake3_of(hasher_fed(*h)),
{
    *h.finalize().as_bytes()
}

/// Compares two digests bytewise.
pub fn digests_equal(a: &[u8; 32], b: &[u8; 32]) -> (r: bool)
    ensures
        r == (a@ == b@),
{
    let mut i: usize = 0;
    while i < 32
        invariant
            i <= 32,
            forall|j: int| 0 <= j < i ==> a@[j] == b@[j],
        decreases 32 - i,
    {
        if a[i] != b[i] {
            return false;
        }
        i += 1;
    }
    assert(a@ =~= b@);
    true
}

/// Hashes a byte slice in one pass.
pub fn hash_bytes(bytes: &[u8]) -> (d: [u8; 32])
    ensures
        d@ == blake3_of(bytes@),
{
    let mut hasher = hasher_new();
    hasher_update(&mut hasher, bytes);
    assert(hasher_fed(hasher) =~= bytes@);
    hasher_finalize(&hasher)
}

/// Copies a 32-byte slice into a digest array.
pub fn bytes_to_digest(v: &[u8]) -> (r: [u8; 32])
    requires
        v@.len() == 32,
    ensures
        r@ == v@,
{
    let mut d = [0u8; 32];
    let mut i: usize = 0;
    while i < 32
        invariant
            i <= 32,
            v@.len() == 32,
            d@.len() == 32,
            forall|j: int| 0 <= j < i ==> d@[j] == v@[j],
        decreases 32 - i,
    {
        d[i] = *vstd::slice::slice_index_get(v, i);
        i += 1;
    }
    assert(d@ =~= v@);
    d
}

/// The verification target of one upload attempt.  Either the caller already
/// knows the digest the transfer must match, or the digest is accumulated
/// over the bytes as they are sent.
pub enum VerificationHash {
    Static([u8; 32]),
    Computing(blake3::Hasher),
}

impl VerificationHash {
    /// The digest this verifier will produce if finished now.
    pub open spec fn spec_target(self) -> Seq<u8> {
        match self {
            VerificationHash::Static(v) => v@,
            VerificationHash::Computing(h) => blake3_of(hasher_fed(h)),
        }
    }

    /// The bytes fed so far, when the digest is being computed.
    pub open spec fn spec_fed(self) -> Seq<u8> {
        match self {
            VerificationHash::Static(_) => Seq::<u8>::empty(),
            VerificationHash::Computing(h) => hasher_fed(h),
        }
    }

    pub open spec fn is_static(self) -> bool {
        self is Static
    }

    pub fn new(verify_hash: Option<[u8; 32]>) -> (r: Self)
        ensures
            r.is_static() == (verify_hash is Some),
            verify_hash matches Some(v) ==> r.spec_target() == v@,
            verify_hash is None ==> r.spec_fed() == Seq::<u8>::empty(),
    {
        if let Some(verify_hash) = verify_hash {
            Self::Static(verify_hash)
        } else {
            Self::Computing(hasher_new())
        }
    }

    pub fn update(&mut self, bytes: &[u8])
        ensures
            final(self).is_static() == old(self).is_static(),
            old(self).is_static() ==> *final(self) == *old(self),
            !old(self).is_static() ==> final(self).spec_fed() == old(self).spec_fed() + bytes@,
    {
        if let VerificationHash::Computing(hasher) = self {
            hasher_update(hasher, bytes);
        }
    }

    pub fn finish(self) -> (d: [u8; 32])
        ensures
            d@ == self.spec_target(),
    {
        match self {
            VerificationHash::Static(value) => value,
            VerificationHash::Computing(hasher) => hasher_finalize(&hasher),
        }
    }
}

} // verus!

//! SHA-256, one piece at a time.
use sha2::Digest;
use vstd::prelude::*;

verus! {

#[verifier::external_type_specification]
#[verifier::external_body]
pub struct ExSha256(sha2::Sha256);

/// The SHA-256 digest of a byte string.
pub uninterp spec fn sha256(bytes: Seq<u8>) -> Seq<u8>;

/// The bytes that a hasher has taken in so far.
pub uninterp spec fn absorbed(hasher: sha2::Sha256) -> Seq<u8>;

/// `Sha256::new` gives a hasher that has taken in nothing.
#[verifier::external_body]
pub(crate) fn start() -> (r: sha2::Sha256)
    ensures
        absorbed(r) == Seq::<u8>::empty(),
{
    sha2::Sha256::new()
}

/// `Digest::update` puts the bytes behind those that the hasher has taken in before.
#[verifier::external_body]
pub(crate) fn absorb(hasher: &mut sha2::Sha256, bytes: &[u8])
    ensures
        absorbed(*final(hasher)) == absorbed(*old(hasher)) + bytes@,
{
    hasher.update(bytes);
}

/// `Digest::finalize` on a copy gives the digest of everything that the hasher has taken in.
#[verifier::external_body]
pub(crate) fn digest_of(hasher: &sha2::Sha256) -> (r: [u8; 32])
    ensures
        r@ == sha256(absorbed(*hasher)),
{
    hasher.clone().finalize().into()
}

/// The SHA-256 digest of `bytes`.
pub fn digest(bytes: &[u8]) -> (r: [u8; 32])
    ensures
        r@ == sha256(bytes@),
{
    let mut hasher = start();
    absorb(&mut hasher, bytes);
    assert(absorbed(hasher) =~= bytes@);
    digest_of(&hasher)
}

} // verus!

//! SHA-1 digests.
use sha1::Digest;
use vstd::prelude::*;

verus! {

/// The SHA-1 digest of a byte string, as `sha1::Sha1::digest` computes it.
pub uninterp spec fn sha1_of(data: Seq<u8>) -> Seq<u8>;

/// `sha1::Sha1::digest`: the SHA-1 digest of the bytes, which depends on nothing but them and is
/// twenty bytes long.
#[verifier::external_body]
pub(crate) fn sha1_digest(data: &[u8]) -> (r: [u8; 20])
    ensures
        r@ == sha1_of(data@),
{
    sha1::Sha1::digest(data).into()
}

} // verus!

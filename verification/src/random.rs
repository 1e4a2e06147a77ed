//! Random numbers.
use rand::RngCore;
use vstd::prelude::*;

verus! {

/// `rand::random`: any number may come back.
#[verifier::external_body]
pub(crate) fn random_u32() -> (r: u32) {
    rand::random()
}

/// `rand::rng().fill_bytes`: any twelve bytes may come back.
#[verifier::external_body]
pub(crate) fn random_bytes() -> (r: [u8; 12]) {
    let mut bytes = [0u8; 12];
    rand::rng().fill_bytes(&mut bytes);
    bytes
}

} // verus!

//! Random bytes.
use rand::RngCore;
use vstd::prelude::*;

verus! {

/// Whether a nonce is one that `fresh_nonce_24` gave.
pub open spec fn drawn(nonce: Seq<u8>) -> bool {
    exists|given: [u8; 24]| #[trigger]
        call_ensures(fresh_nonce_24, (), given) && given@ == nonce
}

/// `rand::RngCore::fill_bytes` of `rand::rngs::OsRng`: random bytes of the
/// operating system, of which nothing is claimed. It stops the program when the
/// system gives no random bytes.
#[verifier::external_body]
pub fn fresh_nonce_24() -> (nonce: [u8; 24]) {
    let mut nonce = [0u8; 24];
    rand::rngs::OsRng.fill_bytes(&mut nonce);
    nonce
}

} // verus!

//! Random bytes from the operating system.

use vstd::prelude::*;

verus! {

/// `N` bytes from the operating system's generator, through
/// `rand::RngCore::fill_bytes` on `rand::rngs::OsRng`. Nothing is claimed of
/// them. The call does not return where the system has no entropy to give.
#[verifier::external_body]
pub(crate) fn random_bytes<const N: usize>() -> (r: [u8; N]) {
    let mut bytes = [0u8; N];
    rand::RngCore::fill_bytes(&mut rand::rngs::OsRng, &mut bytes);
    bytes
}

} // verus!

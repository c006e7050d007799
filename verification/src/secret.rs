//! Secret bytes that do not outlive their owner.

use vstd::prelude::*;
use zeroize::Zeroizing;

verus! {

/// 32 secret bytes in a `zeroize::Zeroizing`, which overwrites them when it is
/// dropped.
#[verifier::external_body]
pub struct SecretBytes {
    inner: Zeroizing<[u8; 32]>,
}

/// The bytes that are held.
pub uninterp spec fn held(secret: SecretBytes) -> Seq<u8>;

impl View for SecretBytes {
    type V = Seq<u8>;

    open spec fn view(&self) -> Seq<u8> {
        held(*self)
    }
}

impl SecretBytes {
    /// `zeroize::Zeroizing::new`: holds the given bytes.
    #[verifier::external_body]
    pub(crate) fn new(bytes: [u8; 32]) -> (r: Self)
        ensures
            held(r) == bytes@,
    {
        SecretBytes { inner: Zeroizing::new(bytes) }
    }

    /// `Deref` of `zeroize::Zeroizing`: the bytes that it holds.
    #[verifier::external_body]
    pub(crate) fn as_bytes(&self) -> (r: &[u8; 32])
        ensures
            r@ == held(*self),
    {
        &self.inner
    }

    /// A copy of the bytes.
    pub fn to_bytes(&self) -> (r: [u8; 32])
        ensures
            r@ == self@,
    {
        *self.as_bytes()
    }
}

} // verus!

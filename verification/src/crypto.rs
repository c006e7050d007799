//! Cryptography at rest: keys stretched from a passphrase, and sealed blobs.
//!
//! A sealed blob is a random 24-byte nonce followed by the XChaCha20-Poly1305
//! ciphertext with its tag.

use crate::random::random_bytes;
use crate::secret::SecretBytes;
use chacha20poly1305::aead::{Aead, KeyInit};
use chacha20poly1305::{Key, XChaCha20Poly1305, XNonce};
use vstd::prelude::*;

verus! {

/// Why a sealed blob could not be opened.
#[derive(Debug, Clone, Copy, PartialEq, Eq, Structural)]
pub enum CryptoError {
    /// The key is wrong or the blob was changed.
    Decrypt,
    /// The blob is too short to hold a nonce.
    Format,
}

impl CryptoError {
    /// The message for people.
    pub open spec fn text(self) -> Seq<char> {
        match self {
            CryptoError::Decrypt => "decryption failed"@,
            CryptoError::Format => "malformed ciphertext"@,
        }
    }

    /// The message for people.
    pub fn message(&self) -> (r: String)
        ensures
            r@ == self.text(),
    {
        match self {
            CryptoError::Decrypt => "decryption failed".to_owned(),
            CryptoError::Format => "malformed ciphertext".to_owned(),
        }
    }
}

/// `chacha20poly1305::aead::Error`, the one error of the cipher.
#[verifier::external_type_specification]
#[verifier::external_body]
pub struct ExAeadError(chacha20poly1305::aead::Error);

/// The Argon2id key of a passphrase and a salt, with the default parameters.
pub uninterp spec fn argon2_key(passphrase: Seq<char>, salt: Seq<u8>) -> Seq<u8>;

/// The XChaCha20-Poly1305 ciphertext, tag last, of a plaintext without
/// associated data.
pub uninterp spec fn aead_seal(key: Seq<u8>, nonce: Seq<u8>, plaintext: Seq<u8>) -> Seq<u8>;

/// The ciphertext is that of the plaintext under the key and the nonce.
pub open spec fn is_ciphertext_of(
    key: Seq<u8>,
    nonce: Seq<u8>,
    plaintext: Seq<u8>,
    ciphertext: Seq<u8>,
) -> bool {
    sealable(plaintext.len()) && ciphertext == aead_seal(key, nonce, plaintext)
}

/// The plaintext whose ciphertext this is, if it is one.
pub open spec fn aead_open(key: Seq<u8>, nonce: Seq<u8>, ciphertext: Seq<u8>) -> Option<Seq<u8>> {
    if exists|plaintext: Seq<u8>| is_ciphertext_of(key, nonce, plaintext, ciphertext) {
        Some(choose|plaintext: Seq<u8>| is_ciphertext_of(key, nonce, plaintext, ciphertext))
    } else {
        None
    }
}

/// The most bytes that Argon2 takes as a passphrase.
pub const MAX_PASSPHRASE: usize = 0xFFFF_FFFF;

/// The bytes of a nonce.
pub const NONCE_LEN: usize = 24;

/// The bytes that the tag adds.
pub const TAG_LEN: usize = 16;

/// The most bytes that the cipher takes: its counter has room for 2^32 - 2
/// blocks of 64 bytes.
pub const MAX_PLAINTEXT: u64 = 0x3F_FFFF_FF80;

/// The cipher takes plaintexts of this length.
pub open spec fn sealable(len: nat) -> bool {
    len <= MAX_PLAINTEXT
}

/// Whether the cipher takes plaintexts of this length.
pub fn is_sealable(len: usize) -> (r: bool)
    ensures
        r == sealable(len as nat),
{
    len as u64 <= MAX_PLAINTEXT
}

/// `argon2::Argon2::hash_password_into` with the default parameters (Argon2id,
/// version 0x13) into 32 bytes: the named key. It takes any salt of 8 bytes or
/// more and passphrases of up to 2^32 - 1 bytes, and fails on no others.
#[verifier::external_body]
fn argon2_into(passphrase: &str, salt: &[u8; 16]) -> (r: [u8; 32])
    requires
        vstd::utf8::encode_utf8(passphrase@).len() <= MAX_PASSPHRASE,
    ensures
        r@ == argon2_key(passphrase@, salt@),
{
    let mut out = [0u8; 32];
    argon2::Argon2::default()
        .hash_password_into(passphrase.as_bytes(), salt, &mut out)
        .expect("argon2 takes the passphrase and the salt");
    out
}

/// `Aead::encrypt` of `chacha20poly1305::XChaCha20Poly1305` without associated
/// data: the named ciphertext, which is 16 bytes longer than the plaintext and
/// that of no other plaintext.
#[verifier::external_body]
fn xchacha_encrypt(key: &[u8; 32], nonce: &[u8; 24], plaintext: &[u8]) -> (r: Vec<u8>)
    requires
        sealable(plaintext@.len()),
    ensures
        r@ == aead_seal(key@, nonce@, plaintext@),
        r@.len() == plaintext@.len() + TAG_LEN,
        forall|p: Seq<u8>| #[trigger]
            is_ciphertext_of(key@, nonce@, p, r@) ==> p == plaintext@,
{
    XChaCha20Poly1305::new(Key::from_slice(key))
        .encrypt(XNonce::from_slice(nonce), plaintext)
        .expect("the plaintext is short enough")
}

/// `Aead::decrypt` of `chacha20poly1305::XChaCha20Poly1305` without associated
/// data: the one plaintext whose ciphertext this is, and the error where it is
/// no ciphertext. Of all that differ only in the tag, the last 16 bytes, one is
/// a ciphertext.
#[verifier::external_body]
fn xchacha_decrypt(key: &[u8; 32], nonce: &[u8], ciphertext: &[u8]) -> (r: Result<
    Vec<u8>,
    chacha20poly1305::aead::Error,
>)
    requires
        nonce@.len() == NONCE_LEN,
        ciphertext@.len() <= MAX_PLAINTEXT + TAG_LEN,
    ensures
        match r {
            Ok(plaintext) => {
                &&& is_ciphertext_of(key@, nonce@, plaintext@, ciphertext@)
                &&& ciphertext@.len() == plaintext@.len() + TAG_LEN
                &&& forall|p: Seq<u8>| #[trigger]
                    is_ciphertext_of(key@, nonce@, p, ciphertext@) ==> p == plaintext@
                &&& forall|p: Seq<u8>, other: Seq<u8>| #[trigger]
                    is_ciphertext_of(key@, nonce@, p, other) && same_but_tag(other, ciphertext@)
                        ==> other == ciphertext@
            },
            Err(_) => forall|p: Seq<u8>| !is_ciphertext_of(key@, nonce@, p, ciphertext@),
        },
{
    XChaCha20Poly1305::new(Key::from_slice(key)).decrypt(XNonce::from_slice(nonce), ciphertext)
}

/// The two have the same bytes before the last 16.
pub open spec fn same_but_tag(a: Seq<u8>, b: Seq<u8>) -> bool {
    &&& a.len() == b.len() >= TAG_LEN
    &&& a.take(a.len() - TAG_LEN) == b.take(b.len() - TAG_LEN)
}

/// Stretches a passphrase into a 32-byte key (Argon2id).
pub fn derive_key(passphrase: &str, salt: &[u8; 16]) -> (r: SecretBytes)
    requires
        vstd::utf8::encode_utf8(passphrase@).len() <= MAX_PASSPHRASE,
    ensures
        r@ == argon2_key(passphrase@, salt@),
{
    SecretBytes::new(argon2_into(passphrase, salt))
}

/// A symmetric key, overwritten when it is dropped. Its view is its bytes.
pub struct VaultKey(SecretBytes);

impl View for VaultKey {
    type V = Seq<u8>;

    closed spec fn view(&self) -> Seq<u8> {
        self.0@
    }
}

impl From<[u8; 32]> for VaultKey {
    fn from(b: [u8; 32]) -> (r: Self)
        ensures
            r@ == b@,
    {
        VaultKey(SecretBytes::new(b))
    }
}

impl vstd::std_specs::convert::FromSpecImpl<[u8; 32]> for VaultKey {
    open spec fn obeys_from_spec() -> bool {
        false
    }

    open spec fn from_spec(b: [u8; 32]) -> VaultKey {
        arbitrary()
    }
}

impl VaultKey {
    /// The key that a passphrase and a salt unlock a vault with.
    pub fn derived(passphrase: &str, salt: &[u8; 16]) -> (r: Self)
        requires
            vstd::utf8::encode_utf8(passphrase@).len() <= MAX_PASSPHRASE,
        ensures
            r@ == argon2_key(passphrase@, salt@),
    {
        VaultKey(derive_key(passphrase, salt))
    }
}

/// The blob is a seal of the plaintext under the key: a nonce and the ciphertext
/// under it.
pub open spec fn is_seal(key: Seq<u8>, plaintext: Seq<u8>, blob: Seq<u8>) -> bool {
    &&& blob.len() == NONCE_LEN + plaintext.len() + TAG_LEN
    &&& is_ciphertext_of(
        key,
        blob.subrange(0, NONCE_LEN as int),
        plaintext,
        blob.subrange(NONCE_LEN as int, blob.len() as int),
    )
}

/// What opening a blob gives.
pub open spec fn opened(key: Seq<u8>, blob: Seq<u8>) -> Result<Seq<u8>, CryptoError> {
    if blob.len() < NONCE_LEN {
        Err(CryptoError::Format)
    } else if blob.len() > NONCE_LEN + MAX_PLAINTEXT + TAG_LEN {
        Err(CryptoError::Decrypt)
    } else {
        match aead_open(
            key,
            blob.subrange(0, NONCE_LEN as int),
            blob.subrange(NONCE_LEN as int, blob.len() as int),
        ) {
            Some(plaintext) => Ok(plaintext),
            None => Err(CryptoError::Decrypt),
        }
    }
}

/// Only a seal opens: what opens to a plaintext is a nonce and the ciphertext of
/// that plaintext under that very key and nonce.
pub proof fn only_a_seal_opens(key: Seq<u8>, blob: Seq<u8>, plaintext: Seq<u8>)
    requires
        opened(key, blob) == Ok::<Seq<u8>, CryptoError>(plaintext),
    ensures
        blob.len() >= NONCE_LEN,
        is_ciphertext_of(
            key,
            blob.subrange(0, NONCE_LEN as int),
            plaintext,
            blob.subrange(NONCE_LEN as int, blob.len() as int),
        ),
{
}

/// The nonce and the ciphertext of a sealed blob.
pub fn split_sealed(blob: &[u8]) -> (r: Result<(&[u8], &[u8]), CryptoError>)
    ensures
        match r {
            Ok((nonce, ciphertext)) => blob@.len() >= NONCE_LEN && nonce@ == blob@.subrange(
                0,
                NONCE_LEN as int,
            ) && ciphertext@ == blob@.subrange(NONCE_LEN as int, blob@.len() as int),
            Err(e) => blob@.len() < NONCE_LEN && e == CryptoError::Format,
        },
{
    if blob.len() < NONCE_LEN {
        return Err(CryptoError::Format);
    }
    Ok(blob.split_at(NONCE_LEN))
}

/// A sealed blob from its nonce and its ciphertext.
pub fn join_sealed(nonce: &[u8; 24], ciphertext: &[u8]) -> (r: Vec<u8>)
    ensures
        r@ == nonce@ + ciphertext@,
{
    let mut out: Vec<u8> = Vec::new();
    out.extend_from_slice(nonce.as_slice());
    out.extend_from_slice(ciphertext);
    assert(out@ =~= nonce@ + ciphertext@);
    out
}

/// Encrypts a plaintext under a fresh random nonce. The blob is a seal of that
/// plaintext, and the key opens it to it.
pub fn seal(key: &VaultKey, plaintext: &[u8]) -> (r: Vec<u8>)
    requires
        sealable(plaintext@.len()),
    ensures
        is_seal(key@, plaintext@, r@),
        opened(key@, r@) == Ok::<Seq<u8>, CryptoError>(plaintext@),
{
    let nonce = random_bytes::<24>();
    let ciphertext = xchacha_encrypt(key.0.as_bytes(), &nonce, plaintext);
    let r = join_sealed(&nonce, ciphertext.as_slice());
    assert(r@.subrange(0, NONCE_LEN as int) =~= nonce@);
    assert(r@.subrange(NONCE_LEN as int, r@.len() as int) =~= ciphertext@);
    assert(is_ciphertext_of(key@, nonce@, plaintext@, ciphertext@));
    r
}

/// Opens a blob made by [`seal`]: a seal of a plaintext under the key opens to
/// that plaintext, and nothing else opens. A seal whose tag was changed does
/// not.
pub fn open(key: &VaultKey, blob: &[u8]) -> (r: Result<Vec<u8>, CryptoError>)
    ensures
        match r {
            Ok(p) => opened(key@, blob@) == Ok::<Seq<u8>, CryptoError>(p@),
            Err(e) => opened(key@, blob@) == Err::<Seq<u8>, CryptoError>(e),
        },
        r matches Ok(p) ==> is_seal(key@, p@, blob@),
        forall|p: Seq<u8>| #[trigger]
            is_seal(key@, p, blob@) ==> (r matches Ok(plaintext) && plaintext@ == p),
        forall|p: Seq<u8>, sealed: Seq<u8>| #[trigger]
            is_seal(key@, p, sealed) && same_but_tag(sealed, blob@) && sealed != blob@ ==> r
                == Err::<Vec<u8>, CryptoError>(CryptoError::Decrypt),
{
    match split_sealed(blob) {
        Err(e) => Err(e),
        Ok((nonce, ciphertext)) => {
            if ciphertext.len() as u64 > MAX_PLAINTEXT + TAG_LEN as u64 {
                return Err(CryptoError::Decrypt);
            }
            match xchacha_decrypt(key.0.as_bytes(), nonce, ciphertext) {
                Ok(plaintext) => {
                    proof {
                        assert forall|p: Seq<u8>, sealed: Seq<u8>|
                            #[trigger] is_seal(key@, p, sealed) && same_but_tag(
                                sealed,
                                blob@,
                            ) implies sealed == blob@ by {
                            let n = blob@.len() as int;
                            let body = sealed.subrange(NONCE_LEN as int, n);
                            let head = sealed.take(n - TAG_LEN);
                            assert(head == blob@.take(n - TAG_LEN));
                            assert(sealed.subrange(0, NONCE_LEN as int) =~= head.take(
                                NONCE_LEN as int,
                            ));
                            assert(nonce@ =~= head.take(NONCE_LEN as int));
                            assert(body.take(body.len() - TAG_LEN) =~= head.skip(
                                NONCE_LEN as int,
                            ));
                            assert(ciphertext@.take(ciphertext@.len() - TAG_LEN) =~= head.skip(
                                NONCE_LEN as int,
                            ));
                            assert(is_ciphertext_of(key@, nonce@, p, body));
                            assert(body == ciphertext@);
                            assert(sealed =~= sealed.subrange(0, NONCE_LEN as int) + body);
                            assert(blob@ =~= nonce@ + ciphertext@);
                        }
                    }
                    Ok(plaintext)
                },
                Err(_) => Err(CryptoError::Decrypt),
            }
        },
    }
}

/// A plaintext can be sealed as long as the cipher has blocks for it: of its
/// counted blocks of 64 bytes one goes into the tag and one is never used.
pub proof fn whatever_fits_can_be_sealed(len: nat)
    ensures
        sealable(len) <==> len <= 64 * (0x1_0000_0000 - 2),
{
}

/// Only what is too short to hold a nonce is malformed; whatever else does not
/// open fails to decrypt.
pub proof fn short_blobs_are_malformed(key: Seq<u8>, blob: Seq<u8>)
    ensures
        opened(key, blob) == Err::<Seq<u8>, CryptoError>(CryptoError::Format) <==> blob.len() < 24,
        opened(key, blob) is Err && blob.len() >= 24 ==> opened(key, blob) == Err::<
            Seq<u8>,
            CryptoError,
        >(CryptoError::Decrypt),
{
}

} // verus!

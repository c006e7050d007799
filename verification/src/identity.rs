//! Cryptographic identity: Ed25519 keys, their fingerprints, and signed
//! profiles.

use crate::bytes::{copy_bytes, push_bytes, to_array};
#[allow(unused_imports)]
use crate::json::{decimal, json_bytes, json_string, text};
use crate::json::{decimal_of, json_bytes_of, push_text, quote};
use crate::secret::SecretBytes;
use ed25519_dalek::{Signer, SigningKey, Verifier, VerifyingKey};
use sha2::Digest;
use vstd::prelude::*;

verus! {

/// Why an identity or a signature was refused.
#[derive(Debug, Clone, Copy, PartialEq, Eq, Structural)]
pub enum IdentityError {
    BadSignature,
    BadPublicKey,
}

impl IdentityError {
    /// The message for people.
    pub open spec fn text(self) -> Seq<char> {
        match self {
            IdentityError::BadSignature => "invalid signature"@,
            IdentityError::BadPublicKey => "invalid public key bytes"@,
        }
    }

    /// The message for people.
    pub fn message(&self) -> (r: String)
        ensures
            r@ == self.text(),
    {
        match self {
            IdentityError::BadSignature => "invalid signature".to_owned(),
            IdentityError::BadPublicKey => "invalid public key bytes".to_owned(),
        }
    }
}

/// `ed25519_dalek::SignatureError`.
#[verifier::external_type_specification]
#[verifier::external_body]
pub struct ExSignatureError(ed25519_dalek::SignatureError);

/// The Ed25519 public key of a secret seed.
pub uninterp spec fn public_key(seed: Seq<u8>) -> Seq<u8>;

/// The Ed25519 signature of a message under a secret seed.
pub uninterp spec fn signature(seed: Seq<u8>, msg: Seq<u8>) -> Seq<u8>;

/// The bytes encode a point of the curve, so they can serve as a public key.
pub uninterp spec fn is_public_key(bytes: Seq<u8>) -> bool;

/// The public key accepts the signature on the message.
pub uninterp spec fn accepts(key: Seq<u8>, msg: Seq<u8>, sig: Seq<u8>) -> bool;

/// The SHA-256 digest.
pub uninterp spec fn sha256(bytes: Seq<u8>) -> Seq<u8>;

/// The base58 text (Bitcoin alphabet) of bytes.
pub uninterp spec fn base58(bytes: Seq<u8>) -> Seq<char>;

/// `ed25519_dalek::SigningKey::generate` on the operating system's generator:
/// a fresh secret seed, of which nothing is claimed.
#[verifier::external_body]
fn generate_seed() -> (r: [u8; 32]) {
    SigningKey::generate(&mut rand::rngs::OsRng).to_bytes()
}

/// `ed25519_dalek::SigningKey::verifying_key`: the named public key of the
/// seed, which is a valid public key.
#[verifier::external_body]
fn public_key_of(seed: &[u8; 32]) -> (r: [u8; 32])
    ensures
        r@ == public_key(seed@),
        is_public_key(r@),
{
    SigningKey::from_bytes(seed).verifying_key().to_bytes()
}

/// `Signer::sign` of `ed25519_dalek::SigningKey`: the named signature. Ed25519
/// signatures are deterministic, and the public key of the seed accepts them.
#[verifier::external_body]
fn sign_with(seed: &[u8; 32], msg: &[u8]) -> (r: [u8; 64])
    ensures
        r@ == signature(seed@, msg@),
        accepts(public_key(seed@), msg@, r@),
{
    SigningKey::from_bytes(seed).sign(msg).to_bytes()
}

/// `ed25519_dalek::VerifyingKey::from_bytes`: whether the bytes are a public
/// key, by name. A key that is accepted keeps the bytes it was made from.
#[verifier::external_body]
fn parse_public_key(bytes: &[u8; 32]) -> (r: Result<[u8; 32], ed25519_dalek::SignatureError>)
    ensures
        match r {
            Ok(key) => is_public_key(bytes@) && key == *bytes,
            Err(_) => !is_public_key(bytes@),
        },
{
    VerifyingKey::from_bytes(bytes).map(|key| key.to_bytes())
}

/// `Verifier::verify` of `ed25519_dalek::VerifyingKey`: whether the key accepts
/// the signature, by name.
#[verifier::external_body]
fn verify_with(key: &[u8; 32], msg: &[u8], sig: &[u8; 64]) -> (r: Result<
    (),
    ed25519_dalek::SignatureError,
>)
    requires
        is_public_key(key@),
    ensures
        r is Ok <==> accepts(key@, msg@, sig@),
{
    let sig = ed25519_dalek::Signature::from_bytes(sig);
    VerifyingKey::from_bytes(key).expect("the bytes are a public key").verify(msg, &sig)
}

/// `sha2::Sha256::digest`: the named digest.
#[verifier::external_body]
pub(crate) fn sha256_of(bytes: &[u8]) -> (r: [u8; 32])
    ensures
        r@ == sha256(bytes@),
{
    sha2::Sha256::digest(bytes).into()
}

/// `bs58::encode` into a string: the named text.
#[verifier::external_body]
fn base58_of(bytes: &[u8]) -> (r: String)
    ensures
        r@ == base58(bytes@),
{
    bs58::encode(bytes).into_string()
}

/// A secret identity: the seed of an Ed25519 signing key, which is its view.
pub struct Identity {
    seed: SecretBytes,
}

impl View for Identity {
    type V = Seq<u8>;

    closed spec fn view(&self) -> Seq<u8> {
        self.seed@
    }
}

/// An Ed25519 signature.
#[derive(Debug, Clone, Copy, PartialEq, Eq)]
pub struct Signature {
    pub bytes: [u8; 64],
}

impl Identity {
    /// A fresh random identity.
    pub fn generate() -> (r: Self)
        ensures
            r@.len() == 32,
    {
        Identity { seed: SecretBytes::new(generate_seed()) }
    }

    /// The identity of a secret seed.
    pub fn from_secret_bytes(bytes: [u8; 32]) -> (r: Self)
        ensures
            r@ == bytes@,
    {
        Identity { seed: SecretBytes::new(bytes) }
    }

    /// The secret seed.
    pub fn secret_bytes(&self) -> (r: SecretBytes)
        ensures
            r@ == self@,
    {
        SecretBytes::new(self.seed.to_bytes())
    }

    /// The public id of this identity.
    pub fn public_id(&self) -> (r: VartalaapId)
        ensures
            r@ == public_key(self@),
    {
        VartalaapId { bytes: public_key_of(self.seed.as_bytes()) }
    }

    /// Signs a message.
    pub fn sign(&self, msg: &[u8]) -> (r: Signature)
        ensures
            r.bytes@ == signature(self@, msg@),
            accepts(public_key(self@), msg@, r.bytes@),
    {
        Signature { bytes: sign_with(self.seed.as_bytes(), msg) }
    }
}

/// The public half of an [`Identity`]: a valid Ed25519 public key. Its view is
/// the bytes of the key.
#[derive(Debug, PartialEq, Eq)]
pub struct VartalaapId {
    bytes: [u8; 32],
}

impl View for VartalaapId {
    type V = Seq<u8>;

    closed spec fn view(&self) -> Seq<u8> {
        self.bytes@
    }
}

impl Copy for VartalaapId {

}

impl Clone for VartalaapId {
    fn clone(&self) -> (r: Self)
        ensures
            r == *self,
    {
        proof {
            use_type_invariant(self);
        }
        VartalaapId { bytes: self.bytes }
    }
}

impl VartalaapId {
    #[verifier::type_invariant]
    pub closed spec fn inv(self) -> bool {
        is_public_key(self.bytes@)
    }

    /// The bytes of the public key.
    pub fn to_bytes(&self) -> (r: [u8; 32])
        ensures
            r@ == self@,
            is_public_key(r@),
    {
        proof {
            use_type_invariant(self);
        }
        self.bytes
    }

    /// Reads a public key.
    pub fn from_bytes(bytes: [u8; 32]) -> (r: Result<Self, IdentityError>)
        ensures
            match r {
                Ok(id) => is_public_key(bytes@) && id@ == bytes@,
                Err(e) => !is_public_key(bytes@) && e == IdentityError::BadPublicKey,
            },
    {
        match parse_public_key(&bytes) {
            Ok(bytes) => Ok(VartalaapId { bytes }),
            Err(_) => Err(IdentityError::BadPublicKey),
        }
    }

    /// Checks a signature that the matching [`Identity`] made.
    pub fn verify(&self, msg: &[u8], sig: &Signature) -> (r: Result<(), IdentityError>)
        ensures
            match r {
                Ok(()) => accepts(self@, msg@, sig.bytes@),
                Err(e) => !accepts(self@, msg@, sig.bytes@) && e == IdentityError::BadSignature,
            },
    {
        proof {
            use_type_invariant(self);
        }
        match verify_with(&self.bytes, msg, &sig.bytes) {
            Ok(()) => Ok(()),
            Err(_) => Err(IdentityError::BadSignature),
        }
    }

    /// The Vartalaap ID for people: the base58 text of the SHA-256 digest of
    /// the public key.
    pub fn fingerprint(&self) -> (r: String)
        ensures
            r@ == base58(sha256(self@)),
    {
        base58_of(sha256_of(self.bytes.as_slice()).as_slice())
    }
}

/// A profile that its owner can edit. The avatar holds raw image bytes.
#[derive(Debug, PartialEq, Eq)]
pub struct Profile {
    pub display_name: String,
    pub bio: String,
    pub status: String,
    pub avatar: Option<Vec<u8>>,
    pub updated_at: u64,
}

/// A profile as a mathematical value.
pub ghost struct ProfileModel {
    pub display_name: Seq<char>,
    pub bio: Seq<char>,
    pub status: Seq<char>,
    pub avatar: Option<Seq<u8>>,
    pub updated_at: u64,
}

/// The bytes of an optional byte vector.
pub open spec fn optional_bytes(v: Option<Vec<u8>>) -> Option<Seq<u8>> {
    match v {
        Some(b) => Some(b@),
        None => None,
    }
}

impl View for Profile {
    type V = ProfileModel;

    open spec fn view(&self) -> ProfileModel {
        ProfileModel {
            display_name: self.display_name@,
            bio: self.bio@,
            status: self.status@,
            avatar: optional_bytes(self.avatar),
            updated_at: self.updated_at,
        }
    }
}

impl Clone for Profile {
    fn clone(&self) -> (r: Self)
        ensures
            r@ == self@,
    {
        Profile {
            display_name: self.display_name.clone(),
            bio: self.bio.clone(),
            status: self.status.clone(),
            avatar: match &self.avatar {
                Some(b) => Some(copy_bytes(b)),
                None => None,
            },
            updated_at: self.updated_at,
        }
    }
}

/// The JSON object that a profile is signed as: its fields in order, without
/// spaces.
pub open spec fn profile_json(p: ProfileModel) -> Seq<u8> {
    text("{\"display_name\":"@) + json_string(p.display_name) + text(",\"bio\":"@) + json_string(
        p.bio,
    ) + text(",\"status\":"@) + json_string(p.status) + text(",\"avatar\":"@) + json_bytes(
        p.avatar,
    ) + text(",\"updated_at\":"@) + decimal(p.updated_at as nat) + text("}"@)
}

impl Profile {
    /// The profile in which nothing is set.
    pub fn blank() -> (r: Self)
        ensures
            r@ == (ProfileModel {
                display_name: Seq::empty(),
                bio: Seq::empty(),
                status: Seq::empty(),
                avatar: None,
                updated_at: 0,
            }),
    {
        Profile {
            display_name: String::new(),
            bio: String::new(),
            status: String::new(),
            avatar: None,
            updated_at: 0,
        }
    }

    /// The JSON object that a profile is signed as.
    pub fn to_json(&self) -> (r: Vec<u8>)
        ensures
            r@ == profile_json(self@),
    {
        let mut out: Vec<u8> = Vec::new();
        push_text(&mut out, "{\"display_name\":");
        assert(out@ =~= text("{\"display_name\":"@));
        push_bytes(&mut out, quote(self.display_name.as_str()).as_slice());
        push_text(&mut out, ",\"bio\":");
        push_bytes(&mut out, quote(self.bio.as_str()).as_slice());
        push_text(&mut out, ",\"status\":");
        push_bytes(&mut out, quote(self.status.as_str()).as_slice());
        push_text(&mut out, ",\"avatar\":");
        push_bytes(&mut out, json_bytes_of(self.avatar.as_ref()).as_slice());
        push_text(&mut out, ",\"updated_at\":");
        push_bytes(&mut out, decimal_of(self.updated_at).as_slice());
        push_text(&mut out, "}");
        out
    }
}

/// A profile with the id of its owner and their signature, so that any peer
/// can check it.
#[derive(Debug, PartialEq, Eq)]
pub struct SignedProfile {
    pub id: [u8; 32],
    pub profile: Profile,
    /// The 64 bytes of an Ed25519 signature.
    pub sig: Vec<u8>,
}

/// A signed profile as a mathematical value.
pub ghost struct SignedProfileModel {
    pub id: [u8; 32],
    pub profile: ProfileModel,
    pub sig: Seq<u8>,
}

impl View for SignedProfile {
    type V = SignedProfileModel;

    open spec fn view(&self) -> SignedProfileModel {
        SignedProfileModel { id: self.id, profile: self.profile@, sig: self.sig@ }
    }
}

impl Clone for SignedProfile {
    fn clone(&self) -> (r: Self)
        ensures
            r@ == self@,
    {
        SignedProfile { id: self.id, profile: self.profile.clone(), sig: copy_bytes(&self.sig) }
    }
}

impl SignedProfileModel {
    /// Whether the signature is that of the owner on the profile.
    pub open spec fn valid(self) -> bool {
        &&& is_public_key(self.id@)
        &&& self.sig.len() == 64
        &&& accepts(self.id@, profile_json(self.profile), self.sig)
    }
}

impl Identity {
    /// Signs a profile. The record verifies as ours.
    pub fn sign_profile(&self, profile: Profile) -> (r: SignedProfile)
        ensures
            r.id@ == public_key(self@),
            r.profile == profile,
            r.sig@ == signature(self@, profile_json(profile@)),
            r@.valid(),
    {
        let bytes = profile.to_json();
        let sig = self.sign(bytes.as_slice());
        let id = self.public_id().to_bytes();
        let mut out: Vec<u8> = Vec::new();
        push_bytes(&mut out, sig.bytes.as_slice());
        assert(out@ =~= sig.bytes@);
        SignedProfile { id, profile, sig: out }
    }
}

impl SignedProfile {
    /// Checks the signature and gives the id of the owner and the profile.
    pub fn verify(&self) -> (r: Result<(VartalaapId, &Profile), IdentityError>)
        ensures
            match r {
                Ok((id, profile)) => self@.valid() && id@ == self.id@ && *profile == self.profile,
                Err(IdentityError::BadPublicKey) => !is_public_key(self.id@),
                Err(IdentityError::BadSignature) => is_public_key(self.id@) && !self@.valid(),
            },
    {
        let id = match VartalaapId::from_bytes(self.id) {
            Ok(id) => id,
            Err(e) => return Err(e),
        };
        let bytes = self.profile.to_json();
        let sig = match to_array::<64>(self.sig.as_slice()) {
            Some(sig) => sig,
            None => return Err(IdentityError::BadSignature),
        };
        match id.verify(bytes.as_slice(), &Signature { bytes: sig }) {
            Ok(()) => Ok((id, &self.profile)),
            Err(e) => Err(e),
        }
    }
}

/// A signature of an identity is accepted as its own, and a profile that it has
/// signed is verified to that identity and that profile.
pub proof fn own_signatures_are_verified(
    identity: &Identity,
    id: VartalaapId,
    msg: &[u8],
    sig: Signature,
    profile: Profile,
    signed: SignedProfile,
    checked: Result<(), IdentityError>,
    verified: Result<(VartalaapId, &Profile), IdentityError>,
)
    requires
        call_ensures(Identity::public_id, (identity,), id),
        call_ensures(Identity::sign, (identity, msg), sig),
        call_ensures(VartalaapId::verify, (&id, msg, &sig), checked),
        call_ensures(Identity::sign_profile, (identity, profile), signed),
        call_ensures(SignedProfile::verify, (&signed,), verified),
    ensures
        checked is Ok,
        verified is Ok,
        (verified->Ok_0).0@ == id@,
        *(verified->Ok_0).1 == profile,
{
}

/// No profile is verified without a signature of its owner on it.
pub proof fn unsigned_profiles_are_refused(
    signed: &SignedProfile,
    r: Result<(VartalaapId, &Profile), IdentityError>,
)
    requires
        call_ensures(SignedProfile::verify, (signed,), r),
        !is_public_key(signed.id@) || !accepts(
            signed.id@,
            profile_json(signed.profile@),
            signed.sig@,
        ),
    ensures
        r is Err,
        r->Err_0 == IdentityError::BadPublicKey <==> !is_public_key(signed.id@),
{
}

} // verus!

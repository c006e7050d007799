//! The vault as the owner sees it: unlocking it with a passphrase, the identity
//! in it, and the profile of its owner.

use crate::bytes::{same_bytes, to_array};
use crate::crypto::CryptoError;
#[allow(unused_imports)]
use crate::crypto::opened;
use crate::identity::{Identity, IdentityError, Profile, SignedProfile};
#[allow(unused_imports)]
use crate::identity::{base58, profile_json, public_key, sha256, signature, ProfileModel};
#[allow(unused_imports)]
use crate::json::text;
use crate::random::random_bytes;
use crate::store::{Store, StoreError, VaultWrite};
#[allow(unused_imports)]
use crate::store::{raw_of, secret, write_models, written, written_all, WriteModel};
use vstd::prelude::*;

verus! {

/// The file that holds the salt, next to the vault.
pub const SALT_FILE: &'static str = "kdf.salt";

/// The file that holds the vault.
pub const VAULT_FILE: &'static str = "vault.redb";

/// The entry that holds the secret seed of the identity.
pub const IDENTITY_KEY: &'static str = "identity_sk";

/// The entry that holds the signed profile.
pub const PROFILE_KEY: &'static str = "profile";

/// The entry that proves that a passphrase unlocks the vault.
pub const VAULT_CHECK_KEY: &'static str = "vault_check";

/// What that entry holds.
pub const VAULT_CHECK_VALUE: &'static str = "vartalaap vault v1";

/// The version of this library.
pub fn version() -> (r: &'static str)
    ensures
        r@ == "0.1.0"@,
{
    "0.1.0"
}

/// Why the vault could not be opened or used.
#[derive(Debug, PartialEq, Eq)]
pub enum CoreError {
    /// The text of an error of the operating system.
    Io(String),
    Store(StoreError),
    Identity(IdentityError),
    CorruptIdentity,
    CorruptProfile,
    WrongPassphrase,
}

impl CoreError {
    /// The message for people.
    pub open spec fn text(self) -> Seq<char> {
        match self {
            CoreError::Io(e) => "io error: "@ + e@,
            CoreError::Store(e) => e.text(),
            CoreError::Identity(e) => e.text(),
            CoreError::CorruptIdentity => "stored identity is corrupt"@,
            CoreError::CorruptProfile => "stored profile is corrupt or unverifiable"@,
            CoreError::WrongPassphrase => "wrong passphrase"@,
        }
    }

    /// The message for people.
    pub fn message(&self) -> (r: String)
        ensures
            r@ == self.text(),
    {
        match self {
            CoreError::Io(e) => "io error: ".to_owned().concat(e.as_str()),
            CoreError::Store(e) => e.message(),
            CoreError::Identity(e) => e.message(),
            CoreError::CorruptIdentity => "stored identity is corrupt".to_owned(),
            CoreError::CorruptProfile => "stored profile is corrupt or unverifiable".to_owned(),
            CoreError::WrongPassphrase => "wrong passphrase".to_owned(),
        }
    }
}

/// What reading the salt file gave.
#[derive(Debug, PartialEq, Eq)]
pub enum SaltRead {
    Found(Vec<u8>),
    /// There is no such file.
    Missing,
    /// The text of another error.
    Failed(String),
}

/// The salt from what was read, and whether it is new and has to be written. A
/// missing salt is made of the given bytes, and one of another length is
/// refused.
pub fn salt_from(read: SaltRead, fresh: [u8; 16]) -> (r: Result<([u8; 16], bool), CoreError>)
    ensures
        match read {
            SaltRead::Found(bytes) => if bytes@.len() == 16 {
                r matches Ok((salt, write)) && salt@ == bytes@ && !write
            } else {
                r == Err::<([u8; 16], bool), CoreError>(CoreError::CorruptIdentity)
            },
            SaltRead::Missing => r == Ok::<([u8; 16], bool), CoreError>((fresh, true)),
            SaltRead::Failed(e) => r == Err::<([u8; 16], bool), CoreError>(CoreError::Io(e)),
        },
{
    match read {
        SaltRead::Found(bytes) => match to_array::<16>(bytes.as_slice()) {
            Some(salt) => Ok((salt, false)),
            None => Err(CoreError::CorruptIdentity),
        },
        SaltRead::Missing => Ok((fresh, true)),
        SaltRead::Failed(e) => Err(CoreError::Io(e)),
    }
}

/// The salt from what was read, random where there was none, and whether it is
/// new and has to be written.
pub fn load_or_create_salt(read: SaltRead) -> (r: Result<([u8; 16], bool), CoreError>)
    ensures
        match read {
            SaltRead::Found(bytes) => if bytes@.len() == 16 {
                r matches Ok((salt, write)) && salt@ == bytes@ && !write
            } else {
                r == Err::<([u8; 16], bool), CoreError>(CoreError::CorruptIdentity)
            },
            SaltRead::Missing => r matches Ok((_, write)) && write,
            SaltRead::Failed(e) => r == Err::<([u8; 16], bool), CoreError>(CoreError::Io(e)),
        },
{
    salt_from(read, random_bytes::<16>())
}

/// What reading an entry of the table gave: its bytes, nothing, or the text of
/// an error of the database.
pub type EntryRead = Result<Option<Vec<u8>>, String>;

/// The secret in an entry that was read.
pub open spec fn entry_secret(key: Seq<u8>, read: EntryRead) -> Result<Option<Seq<u8>>, StoreError> {
    match read {
        Ok(raw) => match secret(
            key,
            match raw {
                Some(bytes) => Some(bytes@),
                None => None,
            },
        ) {
            Ok(found) => Ok(found),
            Err(e) => Err(StoreError::Crypto(e)),
        },
        Err(e) => Err(StoreError::Db(e)),
    }
}

/// How an attempt to unlock a vault ends.
pub ghost enum Unlock {
    /// The vault is open, with the identity of this seed. The identity is new
    /// and has to be stored, or not; the proof of the passphrase is missing and
    /// has to be stored, or not.
    Open { seed: Seq<u8>, created: bool, unproven: bool },
    Refused(CoreError),
}

/// How an attempt to unlock a vault ends, given what its two entries hold under
/// the key. A proof that is there must be right. Where there is none, the
/// vault is new or was made before proofs were kept, and the identity decides.
pub open spec fn unlock(
    sentinel: Result<Option<Seq<u8>>, StoreError>,
    identity: Result<Option<Seq<u8>>, StoreError>,
    fresh: Seq<u8>,
) -> Unlock {
    let unproven = sentinel == Ok::<Option<Seq<u8>>, StoreError>(None);
    match sentinel {
        Err(StoreError::Crypto(_)) => Unlock::Refused(CoreError::WrongPassphrase),
        Err(e) => Unlock::Refused(CoreError::Store(e)),
        Ok(proof_text) => if proof_text is Some && proof_text->0 != text(VAULT_CHECK_VALUE@) {
            Unlock::Refused(CoreError::WrongPassphrase)
        } else {
            match identity {
                Err(StoreError::Crypto(_)) => Unlock::Refused(CoreError::WrongPassphrase),
                Err(e) => Unlock::Refused(CoreError::Store(e)),
                Ok(None) => Unlock::Open { seed: fresh, created: true, unproven },
                Ok(Some(seed)) => if seed.len() == 32 {
                    Unlock::Open { seed, created: false, unproven }
                } else {
                    Unlock::Refused(CoreError::CorruptIdentity)
                },
            }
        },
    }
}

/// The change stores the plaintext under the name, sealed with the key.
pub open spec fn stores(w: WriteModel, key: Seq<u8>, name: Seq<char>, plaintext: Seq<u8>) -> bool {
    w matches WriteModel::Put { name: n, bytes } && n == name && opened(key, bytes) == Ok::<
        Seq<u8>,
        CryptoError,
    >(plaintext)
}

/// The changes that go with opening a vault: a new identity is stored, then a
/// missing proof.
pub open spec fn unlock_writes(
    writes: Seq<WriteModel>,
    key: Seq<u8>,
    seed: Seq<u8>,
    created: bool,
    unproven: bool,
) -> bool {
    let n: int = if created {
        1
    } else {
        0
    };
    &&& writes.len() == n + (if unproven {
        1int
    } else {
        0int
    })
    &&& created ==> stores(writes[0], key, IDENTITY_KEY@, seed)
    &&& unproven ==> stores(writes[n], key, VAULT_CHECK_KEY@, text(VAULT_CHECK_VALUE@))
}

/// An unlocked vault with its identity.
pub struct Engine {
    identity: Identity,
    store: Store,
}

impl Engine {
    /// The secret seed of the identity.
    pub closed spec fn seed(self) -> Seq<u8> {
        self.identity@
    }

    /// The key of the vault.
    pub closed spec fn key(self) -> Seq<u8> {
        self.store@
    }

    /// Unlocks a vault, with this identity for a new one. The changes are to be
    /// made in this order. A refused attempt changes nothing, so that a wrong
    /// passphrase does no harm.
    pub fn open_with(store: Store, sentinel: EntryRead, identity: EntryRead, fresh: Identity) -> (r:
        Result<(Self, Vec<VaultWrite>), CoreError>)
        ensures
            match unlock(
                entry_secret(store@, sentinel),
                entry_secret(store@, identity),
                fresh@,
            ) {
                Unlock::Open { seed, created, unproven } => r matches Ok((e, writes)) && e.seed()
                    == seed && seed.len() == 32 && e.key() == store@ && unlock_writes(
                    write_models(writes@),
                    store@,
                    seed,
                    created,
                    unproven,
                ),
                Unlock::Refused(error) => r == Err::<(Self, Vec<VaultWrite>), CoreError>(error),
            },
    {
        let unproven = match read_entry(&store, sentinel) {
            Ok(Some(found)) => {
                if !same_bytes(found.as_slice(), VAULT_CHECK_VALUE.as_bytes()) {
                    return Err(CoreError::WrongPassphrase);
                }
                false
            },
            Ok(None) => true,
            Err(StoreError::Crypto(_)) => return Err(CoreError::WrongPassphrase),
            Err(e) => return Err(CoreError::Store(e)),
        };
        let mut writes: Vec<VaultWrite> = Vec::new();
        let identity = match read_entry(&store, identity) {
            Ok(Some(bytes)) => match to_array::<32>(bytes.as_slice()) {
                Some(seed) => Identity::from_secret_bytes(seed),
                None => return Err(CoreError::CorruptIdentity),
            },
            Ok(None) => {
                let seed = fresh.secret_bytes();
                writes.push(store.put_secret(IDENTITY_KEY, seed.to_bytes().as_slice()));
                fresh
            },
            Err(StoreError::Crypto(_)) => return Err(CoreError::WrongPassphrase),
            Err(e) => return Err(CoreError::Store(e)),
        };
        if unproven {
            proof {
                check_value_is_short();
            }
            writes.push(store.put_secret(VAULT_CHECK_KEY, VAULT_CHECK_VALUE.as_bytes()));
        }
        Ok((Engine { identity, store }, writes))
    }

    /// Unlocks a vault, with a random identity for a new one.
    pub fn open(store: Store, sentinel: EntryRead, identity: EntryRead) -> (r: Result<
        (Self, Vec<VaultWrite>),
        CoreError,
    >)
        ensures
            ({
                let found = entry_secret(store@, identity);
                match r {
                    Ok((e, writes)) => {
                        &&& e.key() == store@
                        &&& e.seed().len() == 32
                        &&& match unlock(entry_secret(store@, sentinel), found, e.seed()) {
                            Unlock::Open { seed, created, unproven } => e.seed() == seed
                                && unlock_writes(
                                write_models(writes@),
                                store@,
                                seed,
                                created,
                                unproven,
                            ),
                            Unlock::Refused(_) => false,
                        }
                    },
                    Err(error) => unlock(entry_secret(store@, sentinel), found, Seq::empty())
                        == Unlock::Refused(error),
                }
            }),
    {
        Engine::open_with(store, sentinel, identity, Identity::generate())
    }

    /// The vault.
    pub fn store(&self) -> (r: &Store)
        ensures
            r@ == self.key(),
    {
        &self.store
    }

    /// The Vartalaap ID for people.
    pub fn vartalaap_id(&self) -> (r: String)
        ensures
            r@ == base58(sha256(public_key(self.seed()))),
    {
        self.identity.public_id().fingerprint()
    }

    /// The public id.
    pub fn id_bytes(&self) -> (r: [u8; 32])
        ensures
            r@ == public_key(self.seed()),
    {
        self.identity.public_id().to_bytes()
    }

    /// The secret seed of the identity, from which the keys of the network are
    /// made, so that a peer is known under its Vartalaap ID there too.
    pub fn identity_seed(&self) -> (r: [u8; 32])
        ensures
            r@ == self.seed(),
    {
        self.identity.secret_bytes().to_bytes()
    }

    /// Signs a profile, which is then to be stored.
    pub fn set_profile(&self, profile: Profile) -> (r: SignedProfile)
        ensures
            r.id@ == public_key(self.seed()),
            r.profile == profile,
            r.sig@ == signature(self.seed(), profile_json(profile@)),
            r@.valid(),
    {
        self.identity.sign_profile(profile)
    }

    /// Stores the encoding of a signed profile.
    pub fn save_profile(&self, json: &[u8]) -> (r: VaultWrite)
        requires
            crate::crypto::sealable(json@.len()),
        ensures
            stores(r@, self.key(), PROFILE_KEY@, json@),
    {
        self.store().put_secret(PROFILE_KEY, json)
    }

    /// The profile that was stored, which must verify.
    pub fn profile(&self, stored: Result<Option<SignedProfile>, StoreError>) -> (r: Result<
        Option<Profile>,
        CoreError,
    >)
        ensures
            match stored {
                Ok(Some(signed)) => if signed@.valid() {
                    r matches Ok(Some(p)) && p@ == signed.profile@
                } else {
                    r == Err::<Option<Profile>, CoreError>(CoreError::CorruptProfile)
                },
                Ok(None) => r matches Ok(None),
                Err(e) => r == Err::<Option<Profile>, CoreError>(CoreError::Store(e)),
            },
    {
        match stored {
            Ok(Some(signed)) => match signed.verify() {
                Ok((_, profile)) => Ok(Some(profile.clone())),
                Err(_) => Err(CoreError::CorruptProfile),
            },
            Ok(None) => Ok(None),
            Err(e) => Err(CoreError::Store(e)),
        }
    }
}

/// The text that proves a passphrase can be sealed.
proof fn check_value_is_short()
    ensures
        crate::crypto::sealable(text(VAULT_CHECK_VALUE@).len()),
{
    reveal_strlit("vartalaap vault v1");
    let s = VAULT_CHECK_VALUE@;
    assert(vstd::utf8::is_ascii_chars(s));
    vstd::utf8::is_ascii_chars_encode_utf8(s);
}

/// The secret in an entry that was read.
fn read_entry(store: &Store, read: EntryRead) -> (r: Result<Option<Vec<u8>>, StoreError>)
    ensures
        match entry_secret(store@, read) {
            Ok(Some(plaintext)) => r matches Ok(Some(p)) && p@ == plaintext,
            Ok(None) => r matches Ok(None),
            Err(e) => r == Err::<Option<Vec<u8>>, StoreError>(e),
        },
{
    match read {
        Ok(Some(bytes)) => store.get_secret(Some(bytes.as_slice())),
        Ok(None) => store.get_secret(None),
        Err(e) => Err(StoreError::Db(e)),
    }
}

/// The name that the owner goes by: that of the stored profile, and nothing
/// where there is none that can be read.
pub fn display_name(profile: Result<Option<Profile>, CoreError>) -> (r: String)
    ensures
        r@ == match profile {
            Ok(Some(p)) => p.display_name@,
            _ => Seq::empty(),
        },
{
    match profile {
        Ok(Some(p)) => p.display_name,
        _ => String::new(),
    }
}

/// The profile under another name; the rest stays as it was, or blank.
pub fn renamed(profile: Option<Profile>, name: String, now: u64) -> (r: Profile)
    ensures
        r@ == (ProfileModel {
            display_name: name@,
            updated_at: now,
            ..match profile {
                Some(p) => p@,
                None => ProfileModel {
                    display_name: Seq::empty(),
                    bio: Seq::empty(),
                    status: Seq::empty(),
                    avatar: None,
                    updated_at: 0,
                },
            }
        }),
{
    let mut p = match profile {
        Some(p) => p,
        None => Profile::blank(),
    };
    p.display_name = name;
    p.updated_at = now;
    p
}

/// What a table holds under a name, as an outcome of reading it.
pub open spec fn vault_secret(vault: Map<Seq<char>, Seq<u8>>, key: Seq<u8>, name: Seq<char>) -> Result<
    Option<Seq<u8>>,
    StoreError,
> {
    match secret(key, raw_of(vault, name)) {
        Ok(found) => Ok(found),
        Err(e) => Err(StoreError::Crypto(e)),
    }
}

/// How an attempt to unlock a table with a key ends.
pub open spec fn unlock_vault(vault: Map<Seq<char>, Seq<u8>>, key: Seq<u8>, fresh: Seq<u8>) -> Unlock {
    unlock(
        vault_secret(vault, key, VAULT_CHECK_KEY@),
        vault_secret(vault, key, IDENTITY_KEY@),
        fresh,
    )
}

/// The identity persists: after a vault was opened, whether it was new, made
/// before proofs were kept, or complete, it opens again with the same key, has
/// the same identity, and nothing is left to be stored.
pub proof fn reopening_gives_the_same_identity(
    vault: Map<Seq<char>, Seq<u8>>,
    key: Seq<u8>,
    fresh: Seq<u8>,
    again: Seq<u8>,
    seed: Seq<u8>,
    created: bool,
    unproven: bool,
    writes: Seq<WriteModel>,
)
    requires
        seed.len() == 32,
        unlock_vault(vault, key, fresh) == (Unlock::Open { seed, created, unproven }),
        unlock_writes(writes, key, seed, created, unproven),
    ensures
        unlock_vault(written_all(vault, writes), key, again) == (Unlock::Open {
            seed,
            created: false,
            unproven: false,
        }),
{
    reveal_with_fuel(written_all, 3);
    reveal_strlit("identity_sk");
    reveal_strlit("vault_check");
    let id = IDENTITY_KEY@;
    let check = VAULT_CHECK_KEY@;
    assert(id[0] != check[0]);
    let after = written_all(vault, writes);
    if created && unproven {
        assert(writes.drop_last() =~= seq![writes[0]]);
        assert(writes.drop_last().drop_last() =~= Seq::<WriteModel>::empty());
        assert(after == written(written(vault, writes[0]), writes[1]));
    } else if created || unproven {
        assert(writes.drop_last() =~= Seq::<WriteModel>::empty());
        assert(after == written(vault, writes[0]));
    } else {
        assert(after == vault);
    }
    assert(vault_secret(after, key, check) == Ok::<Option<Seq<u8>>, StoreError>(
        Some(text(VAULT_CHECK_VALUE@)),
    ));
    assert(vault_secret(after, key, id) == Ok::<Option<Seq<u8>>, StoreError>(Some(seed)));
}

/// A wrong passphrase is refused as such: a key that does not open the proof of
/// a vault, or the identity of one that has no proof, does not open the vault.
pub proof fn wrong_key_is_refused(vault: Map<Seq<char>, Seq<u8>>, key: Seq<u8>, fresh: Seq<u8>)
    requires
        ({
            ||| vault.contains_key(VAULT_CHECK_KEY@) && opened(key, vault[VAULT_CHECK_KEY@])
                != Ok::<Seq<u8>, CryptoError>(text(VAULT_CHECK_VALUE@))
            ||| !vault.contains_key(VAULT_CHECK_KEY@) && vault.contains_key(IDENTITY_KEY@)
                && opened(key, vault[IDENTITY_KEY@]) is Err
        }),
    ensures
        unlock_vault(vault, key, fresh) == Unlock::Refused(CoreError::WrongPassphrase),
{
}

/// How an attempt to unlock a vault ends. It opens just where nothing that was
/// read contradicts the key: no proof or the right one, and no identity or one of
/// the right length. The identity that is stored is the one that is had, and a
/// new one is made only where there is none. Every refusal has its reason.
pub proof fn vault_opens_or_says_why(
    sentinel: Result<Option<Seq<u8>>, StoreError>,
    identity: Result<Option<Seq<u8>>, StoreError>,
    fresh: Seq<u8>,
)
    ensures
        ({
            let right = Some(text(VAULT_CHECK_VALUE@));
            let proven = sentinel matches Ok(found) && (found is None || found == right);
            let sound = identity matches Ok(found) && (found is None || found->0.len() == 32);
            let r = unlock(sentinel, identity, fresh);
            &&& r is Open <==> proven && sound
            &&& r matches Unlock::Open { seed, created, unproven } ==> {
                &&& created <==> identity->Ok_0 is None
                &&& seed == if created {
                    fresh
                } else {
                    identity->Ok_0->0
                }
                &&& unproven <==> sentinel->Ok_0 is None
            }
            &&& r == Unlock::Refused(CoreError::WrongPassphrase) <==> {
                ||| sentinel matches Err(StoreError::Crypto(_))
                ||| sentinel is Ok && !proven
                ||| proven && identity matches Err(StoreError::Crypto(_))
            }
            &&& r == Unlock::Refused(CoreError::CorruptIdentity) <==> proven && identity is Ok
                && !sound
            &&& sentinel is Err && !(sentinel->Err_0 is Crypto) ==> r == Unlock::Refused(
                CoreError::Store(sentinel->Err_0),
            )
            &&& proven && identity is Err && !(identity->Err_0 is Crypto) ==> r == Unlock::Refused(
                CoreError::Store(identity->Err_0),
            )
        }),
{
}

/// A profile that is set is had again, whole, from what was stored of it.
pub proof fn profile_is_read_back(
    engine: &Engine,
    profile: Profile,
    signed: SignedProfile,
    r: Result<Option<Profile>, CoreError>,
)
    requires
        call_ensures(Engine::set_profile, (engine, profile), signed),
        call_ensures(
            Engine::profile,
            (engine, Ok::<Option<SignedProfile>, StoreError>(Some(signed))),
            r,
        ),
    ensures
        r matches Ok(Some(p)) && p@ == profile@,
{
}

/// A new name takes the place of the old one, at the time at which it was given,
/// and leaves the rest of the profile as it is.
pub proof fn renaming_keeps_the_rest(profile: Profile, name: String, now: u64, r: Profile)
    requires
        call_ensures(renamed, (Some(profile), name, now), r),
    ensures
        r.display_name@ == name@,
        r.updated_at == now,
        r.bio@ == profile.bio@,
        r.status@ == profile.status@,
        r@.avatar == profile@.avatar,
{
}

/// A salt that was stored is used again and not written; one is made only where
/// there is none, and then it is written.
pub proof fn stored_salt_is_used(
    bytes: Vec<u8>,
    fresh: [u8; 16],
    found: Result<([u8; 16], bool), CoreError>,
    made: Result<([u8; 16], bool), CoreError>,
)
    requires
        bytes@.len() == 16,
        call_ensures(salt_from, (SaltRead::Found(bytes), fresh), found),
        call_ensures(salt_from, (SaltRead::Missing, fresh), made),
    ensures
        found is Ok,
        (found->Ok_0).0@ == bytes@,
        !(found->Ok_0).1,
        made is Ok,
        (made->Ok_0).0 == fresh,
        (made->Ok_0).1,
{
}

/// A vault that could not be read is not opened, whatever else is in it; above
/// all no new identity takes the place of one that could not be read.
pub proof fn unread_vault_is_not_opened(
    store: Store,
    sentinel: EntryRead,
    identity: EntryRead,
    fresh: Identity,
    r: Result<(Engine, Vec<VaultWrite>), CoreError>,
)
    requires
        call_ensures(Engine::open_with, (store, sentinel, identity, fresh), r),
        ({
            ||| sentinel is Err
            ||| identity is Err
            ||| sentinel is Ok && sentinel->Ok_0 is Some && opened(
                store@,
                sentinel->Ok_0->0@,
            ) is Err
            ||| identity is Ok && identity->Ok_0 is Some && opened(
                store@,
                identity->Ok_0->0@,
            ) is Err
        }),
    ensures
        r is Err,
        sentinel is Err ==> r->Err_0 == CoreError::Store(StoreError::Db(sentinel->Err_0)),
{
}

/// A vault with the right proof opens to the identity that is stored in it, and
/// nothing is written; an empty one opens to a new identity, which is stored with
/// a proof.
pub proof fn vault_opens_to_its_identity(
    store: Store,
    sentinel: EntryRead,
    identity: EntryRead,
    fresh: Identity,
    r: Result<(Engine, Vec<VaultWrite>), CoreError>,
)
    requires
        call_ensures(Engine::open_with, (store, sentinel, identity, fresh), r),
        sentinel is Ok,
        identity is Ok,
        fresh@.len() == 32,
    ensures
        sentinel->Ok_0 is Some && identity->Ok_0 is Some && opened(store@, sentinel->Ok_0->0@)
            == Ok::<Seq<u8>, CryptoError>(text(VAULT_CHECK_VALUE@)) && opened(
            store@,
            identity->Ok_0->0@,
        ) is Ok && opened(store@, identity->Ok_0->0@)->Ok_0.len() == 32 ==> {
            &&& r is Ok
            &&& (r->Ok_0).0.seed() == opened(store@, identity->Ok_0->0@)->Ok_0
            &&& (r->Ok_0).1@.len() == 0
        },
        sentinel->Ok_0 is None && identity->Ok_0 is None ==> {
            &&& r is Ok
            &&& (r->Ok_0).0.seed() == fresh@
            &&& (r->Ok_0).1@.len() == 2
            &&& stores(write_models((r->Ok_0).1@)[0], store@, IDENTITY_KEY@, fresh@)
            &&& stores(
                write_models((r->Ok_0).1@)[1],
                store@,
                VAULT_CHECK_KEY@,
                text(VAULT_CHECK_VALUE@),
            )
        },
{
    if r is Ok {
        assert(write_models((r->Ok_0).1@).len() == (r->Ok_0).1@.len());
    }
}

} // verus!

use std::collections::BTreeMap;
use vartalaap::contact::Contact;
use vartalaap::conversation::{Conversation, Snapshot};
use vartalaap::crypto::{derive_key, CryptoError, VaultKey};
use vartalaap::engine::{
    display_name, load_or_create_salt, renamed, salt_from, version, CoreError, Engine, SaltRead,
};
use vartalaap::identity::{Identity, IdentityError, Profile};
use vartalaap::persist::{
    contact_name, convo_name, group_convo_name, group_name, load_convos, load_group_convos,
    load_prefix, persist_failed,
};
use vartalaap::protocol::{Action, EngineEvent, GroupInfo};
use vartalaap::ratchet::{MessagingAccount, RatchetSession};
use vartalaap::store::{Store, StoreError, VaultWrite};
use vartalaap::sync::{Message, MessageKind};

/// The table of a vault, in memory.
type Table = BTreeMap<String, Vec<u8>>;

fn write_all(table: &mut Table, writes: Vec<VaultWrite>) {
    for w in writes {
        match w {
            VaultWrite::Put { name, bytes } => {
                table.insert(name, bytes);
            }
            VaultWrite::Remove { name } => {
                table.remove(&name);
            }
        }
    }
}

fn put(table: &mut Table, store: &Store, name: &str, plaintext: &[u8]) {
    write_all(table, vec![store.put_secret(name, plaintext)]);
}

fn get(table: &Table, store: &Store, name: &str) -> Result<Option<Vec<u8>>, StoreError> {
    store.get_secret(table.get(name).map(|b| b.as_slice()))
}

fn list(table: &Table, store: &Store, prefix: &str) -> Vec<(String, Result<Vec<u8>, CryptoError>)> {
    let entries = table
        .range(prefix.to_string()..)
        .map(|(k, v)| (k.clone(), v.clone()))
        .collect();
    store.list_secrets(prefix, entries)
}

fn unlock(table: &mut Table, passphrase: &str) -> Result<Engine, CoreError> {
    let key = VaultKey::derived(passphrase, &[6u8; 16]);
    let sentinel = Ok(table.get("vault_check").cloned());
    let identity = Ok(table.get("identity_sk").cloned());
    let (engine, writes) = Engine::open(Store::open(key), sentinel, identity)?;
    write_all(table, writes);
    Ok(engine)
}

fn asha() -> Profile {
    Profile {
        display_name: "Asha".into(),
        bio: String::new(),
        status: "online".into(),
        avatar: None,
        updated_at: 1,
    }
}

#[test]
fn secret_persists_across_reopen() {
    let mut table = Table::new();
    let key = || VaultKey::from(derive_key("pw", &[3u8; 16]).to_bytes());
    {
        let s = Store::open(key());
        put(&mut table, &s, "identity", b"sk-bytes");
    }
    {
        let s = Store::open(key());
        assert_eq!(get(&table, &s, "identity").unwrap().unwrap(), b"sk-bytes");
    }
}

#[test]
fn missing_secret_is_none() {
    let s = Store::open(VaultKey::from([9u8; 32]));
    assert!(get(&Table::new(), &s, "nope").unwrap().is_none());
}

#[test]
fn json_roundtrip() {
    let mut table = Table::new();
    let s = Store::open(VaultKey::from([5u8; 32]));
    put(&mut table, &s, "nums", &serde_json::to_vec(&vec![1u32, 2, 3]).unwrap());
    let bytes = get(&table, &s, "nums").unwrap().unwrap();
    let got: Vec<u32> = serde_json::from_slice(&bytes).unwrap();
    assert_eq!(got, vec![1, 2, 3]);
}

#[test]
fn list_secrets_returns_prefix_matches_only() {
    let mut table = Table::new();
    let s = Store::open(VaultKey::from([7u8; 32]));
    put(&mut table, &s, "contact/aa", b"a");
    put(&mut table, &s, "contact/bb", b"b");
    put(&mut table, &s, "convo/aa", b"c");
    let got = list(&table, &s, "contact/");
    let mut keys: Vec<_> = got.iter().map(|(k, _)| k.clone()).collect();
    keys.sort();
    assert_eq!(keys, vec!["contact/aa", "contact/bb"]);
    assert!(got.iter().all(|(_, v)| v.is_ok()));
    assert_eq!(got[0].1, Ok(b"a".to_vec()));
    assert_eq!(got[1].1, Ok(b"b".to_vec()));
    assert!(list(&table, &s, "group/").is_empty());
}

#[test]
fn delete_secret_removes_entry() {
    let mut table = Table::new();
    let s = Store::open(VaultKey::from([7u8; 32]));
    put(&mut table, &s, "gone", b"x");
    write_all(&mut table, vec![s.delete_secret("gone")]);
    assert!(get(&table, &s, "gone").unwrap().is_none());
}

#[test]
fn corrupt_value_is_reported_and_quarantined() {
    let mut table = Table::new();
    {
        let other = Store::open(VaultKey::from([1u8; 32]));
        put(&mut table, &other, "convo/xx", b"sealed-under-other-key");
    }
    let s = Store::open(VaultKey::from([2u8; 32]));
    let got = list(&table, &s, "convo/");
    assert_eq!(got.len(), 1);
    assert!(got[0].1.is_err(), "wrong-key value must fail decryption");

    let raw = table["convo/xx"].clone();
    let writes = s.quarantine("convo/xx", Some(&raw));
    write_all(&mut table, writes);
    assert!(get(&table, &s, "convo/xx").unwrap().is_none());
    assert!(list(&table, &s, "convo/").is_empty());
    // The raw bytes were preserved under the quarantine prefix.
    let q = list(&table, &s, "corrupt/convo/xx");
    assert_eq!(q.len(), 1);
    assert_eq!(table["corrupt/convo/xx"], raw);
    // There is nothing to set aside where there is nothing.
    assert!(s.quarantine("nope", None).is_empty());
}

#[test]
fn store_errors_have_messages() {
    assert_eq!(StoreError::Db("full".into()).message(), "database error: full");
    assert_eq!(StoreError::Crypto(CryptoError::Decrypt).message(), "decryption failed");
    assert_eq!(StoreError::Serde.message(), "serialization error");
    let s = Store::open(VaultKey::from([2u8; 32]));
    assert_eq!(
        s.get_secret(Some(b"short")),
        Err(StoreError::Crypto(CryptoError::Format))
    );
}

#[test]
fn core_errors_have_messages() {
    assert_eq!(CoreError::Io("gone".into()).message(), "io error: gone");
    assert_eq!(
        CoreError::Store(StoreError::Serde).message(),
        "serialization error"
    );
    assert_eq!(
        CoreError::Identity(IdentityError::BadPublicKey).message(),
        "invalid public key bytes"
    );
    assert_eq!(CoreError::CorruptIdentity.message(), "stored identity is corrupt");
    assert_eq!(
        CoreError::CorruptProfile.message(),
        "stored profile is corrupt or unverifiable"
    );
    assert_eq!(CoreError::WrongPassphrase.message(), "wrong passphrase");
}

#[test]
fn version_is_nonempty() {
    assert!(!version().is_empty());
}

#[test]
fn first_run_creates_identity_second_run_loads_same() {
    let mut table = Table::new();
    let id_a = {
        let e = unlock(&mut table, "pw").unwrap();
        e.vartalaap_id()
    };
    assert_eq!(table.len(), 2);
    let before = table.clone();
    let id_b = {
        let e = unlock(&mut table, "pw").unwrap();
        e.vartalaap_id()
    };
    assert_eq!(id_a, id_b, "identity must persist across runs");
    assert_eq!(table, before, "nothing is left to be stored");
}

#[test]
fn wrong_passphrase_is_rejected_without_damaging_the_vault() {
    let mut table = Table::new();
    let (real_id, signed) = {
        let e = unlock(&mut table, "correct horse").unwrap();
        (e.vartalaap_id(), e.set_profile(asha()))
    };
    let before = table.clone();

    match unlock(&mut table, "wrong horse") {
        Err(CoreError::WrongPassphrase) => {}
        Err(e) => panic!("expected WrongPassphrase, got {e:?}"),
        Ok(_) => panic!("a wrong passphrase must not open the vault"),
    }
    assert_eq!(table, before);

    // Nothing was consumed or destroyed by the failed attempt.
    let e = unlock(&mut table, "correct horse").unwrap();
    assert_eq!(e.vartalaap_id(), real_id, "identity must be untouched");
    assert_eq!(e.profile(Ok(Some(signed))).unwrap().unwrap().display_name, "Asha");
}

#[test]
fn pre_sentinel_vault_still_opens_and_is_upgraded() {
    let mut table = Table::new();
    let id = {
        let e = unlock(&mut table, "legacy").unwrap();
        e.vartalaap_id()
    };
    // The shape of a vault that was made before proofs were kept.
    table.remove("vault_check");
    let old = table.clone();

    // The right passphrase opens it (proven by the identity round-trip)...
    let e = unlock(&mut table, "legacy").unwrap();
    assert_eq!(e.vartalaap_id(), id);
    assert!(table.contains_key("vault_check"));
    // ...and the wrong one is still caught, via the identity decrypt.
    let mut old = old;
    assert!(matches!(
        unlock(&mut old, "nope"),
        Err(CoreError::WrongPassphrase)
    ));
    assert!(!old.contains_key("vault_check"));
}

#[test]
fn profile_roundtrips() {
    let mut table = Table::new();
    let e = unlock(&mut table, "pw").unwrap();
    assert!(e.profile(Ok(None)).unwrap().is_none());
    let signed = e.set_profile(asha());
    assert_eq!(signed.id, e.id_bytes());
    assert_eq!(e.profile(Ok(Some(signed))).unwrap().unwrap().display_name, "Asha");
}

#[test]
fn profile_with_avatar_roundtrips() {
    let mut table = Table::new();
    let e = unlock(&mut table, "pw").unwrap();
    let avatar: Vec<u8> = (0..=255u8).cycle().take(4096).collect();
    let signed = e.set_profile(Profile {
        display_name: "Asha".into(),
        bio: "hi".into(),
        status: "online".into(),
        avatar: Some(avatar.clone()),
        updated_at: 123,
    });
    // Open the vault again, and load and verify.
    drop(e);
    let e2 = unlock(&mut table, "pw").unwrap();
    let got = e2.profile(Ok(Some(signed))).expect("profile() must not error").expect("present");
    assert_eq!(got.avatar.as_deref(), Some(avatar.as_slice()));
}

#[test]
fn unreadable_profiles_are_refused() {
    let mut table = Table::new();
    let e = unlock(&mut table, "pw").unwrap();
    let mut signed = e.set_profile(asha());
    signed.profile.bio = "changed".into();
    assert_eq!(e.profile(Ok(Some(signed))), Err(CoreError::CorruptProfile));
    assert_eq!(
        e.profile(Err(StoreError::Serde)),
        Err(CoreError::Store(StoreError::Serde))
    );
}

#[test]
fn wrong_length_identity_is_corrupt_error() {
    let mut table = Table::new();
    unlock(&mut table, "pw").unwrap();
    let store = Store::open(VaultKey::derived("pw", &[6u8; 16]));
    put(&mut table, &store, "identity_sk", &[1u8; 31]);
    assert!(matches!(unlock(&mut table, "pw"), Err(CoreError::CorruptIdentity)));
}

#[test]
fn wrong_passphrase_second_open() {
    let mut table = Table::new();
    let id_a = unlock(&mut table, "right").unwrap().vartalaap_id();
    assert!(unlock(&mut table, "wrong").is_err());
    assert_eq!(unlock(&mut table, "right").unwrap().vartalaap_id(), id_a);
}

#[test]
fn salt_without_identity_makes_new_identity() {
    let mut table = Table::new();
    let e = unlock(&mut table, "pw").unwrap();
    let mut other = Table::new();
    let f = unlock(&mut other, "pw").unwrap();
    assert_ne!(e.vartalaap_id(), f.vartalaap_id());
    assert!(!e.vartalaap_id().is_empty());
}

#[test]
fn a_given_identity_is_stored_and_used() {
    let seed = [42u8; 32];
    let store = Store::open(VaultKey::from([1u8; 32]));
    let (e, writes) =
        Engine::open_with(store, Ok(None), Ok(None), Identity::from_secret_bytes(seed)).unwrap();
    assert_eq!(e.identity_seed(), seed);
    assert_eq!(
        e.id_bytes(),
        Identity::from_secret_bytes(seed).public_id().to_bytes()
    );
    let mut table = Table::new();
    write_all(&mut table, writes);
    let names: Vec<&String> = table.keys().collect();
    assert_eq!(names, vec!["identity_sk", "vault_check"]);
    assert_eq!(get(&table, e.store(), "identity_sk").unwrap().unwrap(), seed);
    assert_eq!(
        get(&table, e.store(), "vault_check").unwrap().unwrap(),
        b"vartalaap vault v1"
    );
}

#[test]
fn a_false_proof_or_a_broken_database_is_refused() {
    let store = || Store::open(VaultKey::from([1u8; 32]));
    let mut table = Table::new();
    put(&mut table, &store(), "vault_check", b"vartalaap vault v2");
    assert!(matches!(
        Engine::open(store(), Ok(table.get("vault_check").cloned()), Ok(None)),
        Err(CoreError::WrongPassphrase)
    ));
    assert!(matches!(
        Engine::open(store(), Err("locked".to_string()), Ok(None)),
        Err(CoreError::Store(StoreError::Db(e))) if e == "locked"
    ));
    assert!(matches!(
        Engine::open(store(), Ok(None), Err("locked".to_string())),
        Err(CoreError::Store(StoreError::Db(e))) if e == "locked"
    ));
}

#[test]
fn salts_are_kept_made_or_refused() {
    assert_eq!(
        salt_from(SaltRead::Found(vec![7u8; 16]), [1u8; 16]),
        Ok(([7u8; 16], false))
    );
    assert_eq!(
        salt_from(SaltRead::Found(vec![7u8; 15]), [1u8; 16]),
        Err(CoreError::CorruptIdentity)
    );
    assert_eq!(salt_from(SaltRead::Missing, [1u8; 16]), Ok(([1u8; 16], true)));
    assert_eq!(
        salt_from(SaltRead::Failed("denied".into()), [1u8; 16]),
        Err(CoreError::Io("denied".into()))
    );
    let (a, write) = load_or_create_salt(SaltRead::Missing).unwrap();
    let (b, _) = load_or_create_salt(SaltRead::Missing).unwrap();
    assert!(write);
    assert_ne!(a, b);
}

#[test]
fn names_of_the_owner() {
    assert_eq!(display_name(Ok(Some(asha()))), "Asha");
    assert_eq!(display_name(Ok(None)), "");
    assert_eq!(display_name(Err(CoreError::CorruptProfile)), "");
    let p = renamed(Some(asha()), "Asha D".into(), 9);
    assert_eq!(p.display_name, "Asha D");
    assert_eq!(p.status, "online");
    assert_eq!(p.updated_at, 9);
    let p = renamed(None, "New".into(), 3);
    assert_eq!(p.display_name, "New");
    assert_eq!(p.bio, "");
    assert_eq!(p.avatar, None);
    assert_eq!(p.updated_at, 3);
}

type StoredContact =
    ([u8; 32], Option<String>, Option<[u8; 32]>, Option<[u8; 32]>, u64, u64);
type StoredMessage = ([u8; 16], [u8; 32], u64, u64, String);
type StoredGroup = ([u8; 16], String, Vec<[u8; 32]>, [u8; 32]);

/// The texts of a conversation, as they are stored here.
fn stored_messages(s: &Snapshot) -> Vec<u8> {
    let rows: Vec<StoredMessage> = s
        .messages
        .iter()
        .map(|m| (m.id, m.author, m.lamport, m.sent_at, m.body.clone()))
        .collect();
    serde_json::to_vec(&rows).unwrap()
}

fn restored_messages(rows: Vec<StoredMessage>) -> Snapshot {
    let messages = rows
        .into_iter()
        .map(|(id, author, lamport, sent_at, body)| Message {
            id,
            author,
            lamport,
            sent_at,
            body,
            kind: MessageKind::Text,
        })
        .collect();
    Snapshot { messages, reactions: Vec::new(), read: Vec::new() }
}

#[test]
fn contacts_convos_groups_roundtrip_across_reopen() {
    let mut table = Table::new();
    let peer = [9u8; 32];
    let gid = [4u8; 16];
    {
        let e = unlock(&mut table, "pw").unwrap();
        let c = Contact {
            peer,
            profile: None,
            alias: Some("roomie".into()),
            pinned_msg_key: Some([1u8; 32]),
            pending_msg_key: None,
            last_seen: 42,
            added_at: 1,
        };
        let contact: StoredContact =
            (c.peer, c.alias, c.pinned_msg_key, c.pending_msg_key, c.last_seen, c.added_at);
        let mut convo = Conversation::new();
        convo.create_text(peer, 100, "hello");
        let g = GroupInfo { id: gid, name: "study".into(), members: vec![peer], creator: peer };
        let group: StoredGroup = (g.id, g.name, g.members, g.creator);
        let writes = vec![
            e.save_contact(&peer, &serde_json::to_vec(&contact).unwrap()),
            e.save_convo(&peer, &stored_messages(&convo.snapshot())),
            e.save_group(&gid, &serde_json::to_vec(&group).unwrap()),
            e.save_group_convo(&gid, &stored_messages(&convo.snapshot())),
        ];
        write_all(&mut table, writes);
    }
    let e = unlock(&mut table, "pw").unwrap();
    let load = |table: &Table, prefix: &str| list(table, e.store(), prefix);

    let loaded = load_prefix(
        load(&table, "contact/")
            .into_iter()
            .map(|(name, v)| {
                let parse = |b: Vec<u8>| {
                    serde_json::from_slice::<StoredContact>(&b).map_err(|e| e.to_string())
                };
                (name, v.map(parse))
            })
            .collect(),
    );
    assert!(loaded.warnings.is_empty());
    let contacts: Vec<Contact> = loaded
        .items
        .into_iter()
        .map(|(_, (peer, alias, pinned_msg_key, pending_msg_key, last_seen, added_at))| Contact {
            peer,
            profile: None,
            alias,
            pinned_msg_key,
            pending_msg_key,
            last_seen,
            added_at,
        })
        .collect();
    assert_eq!(contacts.len(), 1);
    assert_eq!(contacts[0].alias.as_deref(), Some("roomie"));
    assert_eq!(contacts[0].display_name().as_deref(), Some("roomie"));

    let messages = |table: &Table, prefix: &str| {
        load_prefix(
            load(table, prefix)
                .into_iter()
                .map(|(name, v)| {
                    let parse = |b: Vec<u8>| {
                        serde_json::from_slice::<Vec<StoredMessage>>(&b)
                            .map_err(|e| e.to_string())
                    };
                    (name, v.map(parse))
                })
                .collect(),
        )
        .items
    };
    let convos = load_convos(messages(&table, "convo/"));
    assert_eq!(convos.len(), 1);
    assert_eq!(convos[0].0, peer);
    let snapshot = restored_messages(convos[0].1.clone());
    assert_eq!(snapshot.messages.len(), 1);
    assert_eq!(snapshot.messages[0].body, "hello");

    let groups = load(&table, "group/");
    let group: StoredGroup =
        serde_json::from_slice(groups[0].1.as_ref().unwrap()).unwrap();
    assert_eq!(group.1, "study");
    let gconvos = load_group_convos(messages(&table, "gconvo/"));
    assert_eq!(gconvos[0].0, gid);

    let writes = e.delete_contact(&peer);
    write_all(&mut table, writes);
    assert!(load(&table, "contact/").is_empty());
    assert!(load_convos(messages(&table, "convo/")).is_empty());
    assert_eq!(load(&table, "group/").len(), 1);
}

#[test]
fn msg_account_persists_across_reopen() {
    let mut table = Table::new();
    let ik = {
        let e = unlock(&mut table, "pw").unwrap();
        let (acct, writes) = e
            .load_or_create_msg_account(Ok(table.get("msg_account").cloned()))
            .unwrap();
        write_all(&mut table, writes);
        let again = e.save_msg_account(&acct).unwrap();
        write_all(&mut table, vec![again]);
        acct.identity_key()
    };
    let e = unlock(&mut table, "pw").unwrap();
    let (acct, writes) = e
        .load_or_create_msg_account(Ok(table.get("msg_account").cloned()))
        .unwrap();
    assert!(writes.is_empty());
    assert_eq!(acct.identity_key(), ik, "messaging identity must be stable");
}

#[test]
fn corrupt_msg_account_is_quarantined_and_regenerated() {
    let mut table = Table::new();
    let e = unlock(&mut table, "pw").unwrap();
    let (acct, writes) = e.load_or_create_msg_account(Ok(None)).unwrap();
    write_all(&mut table, writes);
    let ik = acct.identity_key();

    let other = Store::open(VaultKey::from([99u8; 32]));
    put(&mut table, &other, "msg_account", b"junk");
    let junk = table["msg_account"].clone();

    let (acct, writes) = e
        .load_or_create_msg_account(Ok(table.get("msg_account").cloned()))
        .unwrap();
    write_all(&mut table, writes);
    assert_ne!(
        acct.identity_key(),
        ik,
        "corrupted msg_account must be regenerated, not reused"
    );
    assert_eq!(table["corrupt/msg_account"], junk);

    let (acct2, writes) = e
        .load_or_create_msg_account(Ok(table.get("msg_account").cloned()))
        .unwrap();
    assert!(writes.is_empty());
    assert_eq!(
        acct2.identity_key(),
        acct.identity_key(),
        "the regenerated account must have been persisted"
    );

    // The same holds of what decrypts and is no pickle.
    put(&mut table, e.store(), "msg_account", b"junk");
    let (acct3, writes) = e
        .load_or_create_msg_account(Ok(table.get("msg_account").cloned()))
        .unwrap();
    assert_eq!(writes.len(), 3);
    assert_ne!(acct3.identity_key(), acct.identity_key());
    assert!(matches!(
        e.load_or_create_msg_account(Err("locked".into())),
        Err(CoreError::Store(StoreError::Db(_)))
    ));
}

#[test]
fn unreadable_entries_are_told_apart() {
    let loaded = load_prefix(vec![
        ("convo/a".to_string(), Ok(Ok(1u32))),
        ("convo/b".to_string(), Err(CryptoError::Decrypt)),
        ("convo/c".to_string(), Ok(Err("no JSON".to_string()))),
        ("convo/d".to_string(), Ok(Ok(4))),
    ]);
    assert_eq!(
        loaded.items,
        vec![("convo/a".to_string(), 1), ("convo/d".to_string(), 4)]
    );
    assert_eq!(loaded.quarantine, vec!["convo/b", "convo/c"]);
    assert_eq!(
        loaded.warnings,
        vec![
            "unreadable vault entry convo/b quarantined: decryption failed",
            "unreadable vault entry convo/c quarantined: no JSON",
        ]
    );
}

#[test]
fn entries_have_names_of_their_own() {
    let peer = [0xABu8; 32];
    let gid = [0x01u8; 16];
    assert_eq!(contact_name(&peer), format!("contact/{}", "ab".repeat(32)));
    assert_eq!(convo_name(&peer), format!("convo/{}", "ab".repeat(32)));
    assert_eq!(group_name(&gid), format!("group/{}", "01".repeat(16)));
    assert_eq!(group_convo_name(&gid), format!("gconvo/{}", "01".repeat(16)));
    // What is no id is passed over.
    let items = vec![
        ("convo/zz".to_string(), 1u32),
        (convo_name(&peer), 2),
        (format!("convo/{}", "ab".repeat(31)), 3),
        ("contact/aa".to_string(), 4),
    ];
    assert_eq!(load_convos(items), vec![(peer, 2)]);
}

#[test]
fn failures_to_store_are_told() {
    let warn = |a: Action| match persist_failed(&a, &CoreError::Io("full".into())) {
        Some(EngineEvent::StorageWarning { detail }) => detail,
        _ => "none".to_string(),
    };
    assert_eq!(
        warn(Action::SaveConvo([1u8; 32])),
        "failed to persist conversation: io error: full"
    );
    assert_eq!(
        warn(Action::SaveGroupConvo([1u8; 16])),
        "failed to persist group conversation: io error: full"
    );
    assert_eq!(
        warn(Action::SaveGroup([1u8; 16])),
        "failed to persist group: io error: full"
    );
    assert_eq!(
        warn(Action::SaveContact([1u8; 32])),
        "failed to persist contact: io error: full"
    );
    assert_eq!(
        warn(Action::SaveAccount),
        "failed to persist messaging account: io error: full"
    );
    assert_eq!(warn(Action::DeleteContact([1u8; 32])), "none");
}

#[test]
fn a_restored_account_owns_the_bundles_of_the_stored_one() {
    let mut table = Table::new();
    let e = unlock(&mut table, "pw").unwrap();
    let (mut acct, writes) = e.load_or_create_msg_account(Ok(None)).unwrap();
    write_all(&mut table, writes);
    let first = acct.prekey_bundle();
    let second = acct.prekey_bundle();
    let w = e.save_msg_account(&acct).unwrap();
    write_all(&mut table, vec![w]);

    let read = Ok(table.get("msg_account").cloned());
    let (mut restored, writes) = e.load_or_create_msg_account(read).unwrap();
    assert!(writes.is_empty());
    let peer = MessagingAccount::new();
    for (bundle, body) in [(second, b"b"), (first, b"a")] {
        let (_s, wire) = RatchetSession::initiate(&peer, &bundle, body).unwrap();
        let (_s, plain) =
            RatchetSession::accept(&mut restored, peer.identity_key(), &wire).unwrap();
        assert_eq!(plain, body);
    }
}

#[test]
fn the_profile_is_stored_under_its_name() {
    let mut table = Table::new();
    let e = unlock(&mut table, "pw").unwrap();
    let w = e.save_profile(b"a signed profile");
    assert!(matches!(&w, VaultWrite::Put { name, .. } if name == "profile"));
    write_all(&mut table, vec![w]);
    let raw = table.get("profile").cloned();
    assert_eq!(e.store().get_secret(raw.as_deref()).unwrap().unwrap(), b"a signed profile");
}

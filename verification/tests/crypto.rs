use vartalaap::crypto::{derive_key, is_sealable, open, seal, split_sealed, CryptoError, VaultKey};
use vartalaap::identity::{Identity, IdentityError, Profile, Signature, VartalaapId};
use vartalaap::node::{after_trying, ReadStep, SessionError};
use vartalaap::ratchet::{is_prekey, MessagingAccount, RatchetError, RatchetSession};

fn unhex(s: &str) -> Vec<u8> {
    (0..s.len() / 2)
        .map(|i| u8::from_str_radix(&s[2 * i..2 * i + 2], 16).unwrap())
        .collect()
}

fn key32(s: &str) -> [u8; 32] {
    unhex(s).try_into().unwrap()
}

#[test]
fn seal_open_roundtrip() {
    let key = VaultKey::from(derive_key("hunter2", &[7u8; 16]).to_bytes());
    let blob = seal(&key, b"top secret");
    assert_eq!(open(&key, &blob).unwrap(), b"top secret");
}

#[test]
fn open_rejects_tampered_ciphertext() {
    let key = VaultKey::from(derive_key("hunter2", &[7u8; 16]).to_bytes());
    let mut blob = seal(&key, b"top secret");
    let last = blob.len() - 1;
    blob[last] ^= 0xff;
    assert!(matches!(open(&key, &blob), Err(CryptoError::Decrypt)));
}

#[test]
fn wrong_key_fails() {
    let k1 = VaultKey::from(derive_key("a", &[1u8; 16]).to_bytes());
    let k2 = VaultKey::from(derive_key("b", &[1u8; 16]).to_bytes());
    let blob = seal(&k1, b"x");
    assert!(open(&k2, &blob).is_err());
}

#[test]
fn a_sealed_blob_is_a_nonce_and_a_ciphertext() {
    let key = VaultKey::from([5u8; 32]);
    let blob = seal(&key, b"hello");
    assert_eq!(blob.len(), 24 + 5 + 16);
    let (nonce, ciphertext) = split_sealed(&blob).unwrap();
    assert_eq!(nonce, &blob[..24]);
    assert_eq!(ciphertext, &blob[24..]);
    // Each seal has a nonce of its own.
    assert_ne!(seal(&key, b"hello"), blob);
    assert_eq!(open(&key, &blob[..23]), Err(CryptoError::Format));
    assert_eq!(open(&key, &[]), Err(CryptoError::Format));
    assert_eq!(open(&key, &blob[..24]), Err(CryptoError::Decrypt));
    assert_eq!(open(&key, &seal(&key, b"")).unwrap(), b"");
}

#[test]
fn a_key_rests_on_the_passphrase_and_the_salt() {
    let k = derive_key("pw", &[3u8; 16]).to_bytes();
    assert_eq!(derive_key("pw", &[3u8; 16]).to_bytes(), k);
    assert_ne!(derive_key("pw", &[4u8; 16]).to_bytes(), k);
    assert_ne!(derive_key("pv", &[3u8; 16]).to_bytes(), k);
    let blob = seal(&VaultKey::derived("pw", &[3u8; 16]), b"x");
    assert_eq!(open(&VaultKey::from(k), &blob).unwrap(), b"x");
}

#[test]
fn crypto_errors_have_messages() {
    assert_eq!(CryptoError::Decrypt.message(), "decryption failed");
    assert_eq!(CryptoError::Format.message(), "malformed ciphertext");
    assert_eq!(IdentityError::BadSignature.message(), "invalid signature");
    assert_eq!(IdentityError::BadPublicKey.message(), "invalid public key bytes");
    assert_eq!(
        RatchetError::SessionCreation("x".to_string()).message(),
        "session creation failed: x"
    );
    assert_eq!(
        RatchetError::Encryption("x".to_string()).message(),
        "encryption failed: x"
    );
    assert_eq!(
        RatchetError::Decryption("x".to_string()).message(),
        "decryption failed: x"
    );
    assert_eq!(
        RatchetError::NotPreKey.message(),
        "expected a pre-key (handshake) message"
    );
    assert_eq!(RatchetError::Malformed.message(), "malformed ciphertext");
}

#[test]
fn generate_produces_stable_id_and_sig_roundtrip() {
    let id = Identity::generate();
    let pid = id.public_id();
    let msg = b"hello vartalaap";
    let sig = id.sign(msg);
    assert!(pid.verify(msg, &sig).is_ok());
    assert!(pid.verify(b"tampered", &sig).is_err());
}

#[test]
fn secret_roundtrip_preserves_identity() {
    let id = Identity::generate();
    let bytes = id.secret_bytes().to_bytes();
    let id2 = Identity::from_secret_bytes(bytes);
    assert_eq!(id.public_id().to_bytes(), id2.public_id().to_bytes());
}

#[test]
fn fingerprint_is_deterministic_and_nonempty() {
    let id = Identity::generate();
    let f1 = id.public_id().fingerprint();
    let f2 = id.public_id().fingerprint();
    assert_eq!(f1, f2);
    assert!(f1.len() >= 8);
}

#[test]
fn signed_profile_verifies_and_detects_tampering() {
    let id = Identity::generate();
    let p = Profile {
        display_name: "Asha".into(),
        bio: "CS '27".into(),
        status: "online".into(),
        avatar: None,
        updated_at: 1,
    };
    let mut sp = id.sign_profile(p);
    let (vid, prof) = sp.verify().expect("valid");
    assert_eq!(vid.to_bytes(), id.public_id().to_bytes());
    assert_eq!(prof.display_name, "Asha");

    sp.profile.display_name = "Mallory".into();
    assert!(sp.verify().is_err());
}

#[test]
fn identity_seed_is_plain_copy() {
    let id = Identity::generate();
    let s1 = id.secret_bytes().to_bytes();
    let s2 = id.secret_bytes().to_bytes();
    assert_eq!(s1, s2);
}

#[test]
fn known_identity_has_the_known_key_signature_and_fingerprint() {
    let id = Identity::from_secret_bytes(key32(
        "9d61b19deffd5a60ba844af492ec2cc44449c5697b326919703bac031cae7f60",
    ));
    let public = id.public_id();
    assert_eq!(
        public.to_bytes(),
        key32("d75a980182b10ab7d54bfed3c964073a0ee172f3daa62325af021a68f707511a")
    );
    assert_eq!(
        id.sign(b"").bytes.to_vec(),
        unhex(
            "e5564300c360ac729086e2cc806e828a84877f1eb8e5d974d873e065224901555fb8821590a33bacc61e39701cf9b46bd25bf5f0595bbe24655141438e7a100b"
        )
    );
    assert_eq!(public.fingerprint(), "3HhGPB6ht33n51YFaocqBtGePb3xqT4VgnjYbd81eeZW");
}

#[test]
fn bad_keys_and_signatures_are_refused() {
    // The encoding of no point of the curve.
    let mut off_curve = [0u8; 32];
    off_curve[0] = 2;
    assert_eq!(
        VartalaapId::from_bytes(off_curve),
        Err(IdentityError::BadPublicKey)
    );

    let id = Identity::from_secret_bytes([3u8; 32]);
    assert_eq!(
        id.public_id().verify(b"x", &Signature { bytes: [0u8; 64] }),
        Err(IdentityError::BadSignature)
    );

    let mut signed = id.sign_profile(Profile::blank());
    signed.sig.push(0);
    assert_eq!(signed.verify(), Err(IdentityError::BadSignature));
    let mut signed = id.sign_profile(Profile::blank());
    signed.id = off_curve;
    assert_eq!(signed.verify(), Err(IdentityError::BadPublicKey));
}

#[test]
fn profiles_are_signed_as_compact_json() {
    let mut p = Profile::blank();
    p.display_name = "Asha \"A\"\n".into();
    p.status = "online".into();
    p.avatar = Some(vec![0, 10, 255]);
    p.updated_at = 1700000000123;
    assert_eq!(
        String::from_utf8(p.to_json()).unwrap(),
        r#"{"display_name":"Asha \"A\"\n","bio":"","status":"online","avatar":[0,10,255],"updated_at":1700000000123}"#
    );
    p.avatar = None;
    p.updated_at = 0;
    p.display_name = "é".into();
    assert_eq!(
        String::from_utf8(p.to_json()).unwrap(),
        r#"{"display_name":"é","bio":"","status":"online","avatar":null,"updated_at":0}"#
    );
    p.avatar = Some(vec![]);
    assert_eq!(
        String::from_utf8(p.to_json()).unwrap(),
        r#"{"display_name":"é","bio":"","status":"online","avatar":[],"updated_at":0}"#
    );
}

#[test]
fn handshake_and_bidirectional_messages() {
    let mut bob = MessagingAccount::new();
    let bundle = bob.prekey_bundle();
    let alice = MessagingAccount::new();

    let (mut alice_session, first) = RatchetSession::initiate(&alice, &bundle, b"hi bob").unwrap();
    let (mut bob_session, first_plain) =
        RatchetSession::accept(&mut bob, alice.identity_key(), &first).unwrap();
    assert_eq!(first_plain, b"hi bob");

    // Bob replies; Alice reads it (this also ratchets Alice forward).
    let reply = bob_session.encrypt(b"hi alice").unwrap();
    assert_eq!(alice_session.decrypt(&reply).unwrap(), b"hi alice");

    // Alice sends again.
    let m = alice_session.encrypt(b"how are you").unwrap();
    assert_eq!(bob_session.decrypt(&m).unwrap(), b"how are you");
}

#[test]
fn tolerates_out_of_order_delivery() {
    let mut bob = MessagingAccount::new();
    let bundle = bob.prekey_bundle();
    let alice = MessagingAccount::new();

    let (mut alice_session, first) = RatchetSession::initiate(&alice, &bundle, b"open").unwrap();
    let (mut bob_session, _) =
        RatchetSession::accept(&mut bob, alice.identity_key(), &first).unwrap();
    // Establish two-way so Alice is fully ratcheted.
    let reply = bob_session.encrypt(b"ok").unwrap();
    alice_session.decrypt(&reply).unwrap();

    let m0 = alice_session.encrypt(b"msg0").unwrap();
    let m1 = alice_session.encrypt(b"msg1").unwrap();
    let m2 = alice_session.encrypt(b"msg2").unwrap();

    // Deliver out of order: 2, 0, 1.
    assert_eq!(bob_session.decrypt(&m2).unwrap(), b"msg2");
    assert_eq!(bob_session.decrypt(&m0).unwrap(), b"msg0");
    assert_eq!(bob_session.decrypt(&m1).unwrap(), b"msg1");
}

#[test]
fn tampered_ciphertext_is_rejected() {
    let mut bob = MessagingAccount::new();
    let bundle = bob.prekey_bundle();
    let alice = MessagingAccount::new();

    let (mut alice_session, first) = RatchetSession::initiate(&alice, &bundle, b"hello").unwrap();
    let (mut bob_session, _) =
        RatchetSession::accept(&mut bob, alice.identity_key(), &first).unwrap();
    let reply = bob_session.encrypt(b"hi").unwrap();
    alice_session.decrypt(&reply).unwrap();

    let mut m = alice_session.encrypt(b"secret").unwrap();
    let last = m.len() - 1;
    m[last] ^= 0xff;
    assert!(bob_session.decrypt(&m).is_err());
}

#[test]
fn account_pickle_roundtrip_preserves_identity() {
    let mut bob = MessagingAccount::new();
    let ik = bob.identity_key();
    let bundle = bob.prekey_bundle();

    let pickled = bob.to_pickle_json();
    let mut restored = MessagingAccount::from_pickle_json(&pickled).unwrap();
    assert_eq!(restored.identity_key(), ik);

    // A session initiated against the pre-pickle bundle must be accepted
    // by the restored account (one-time key survived the roundtrip).
    let alice = MessagingAccount::new();
    let (_s, first) = RatchetSession::initiate(&alice, &bundle, b"hi").unwrap();
    let (_bs, plain) =
        RatchetSession::accept(&mut restored, alice.identity_key(), &first).unwrap();
    assert_eq!(plain, b"hi");
}

#[test]
fn is_prekey_distinguishes_message_types() {
    let mut bob = MessagingAccount::new();
    let bundle = bob.prekey_bundle();
    let alice = MessagingAccount::default();
    let (mut alice_session, first) = RatchetSession::initiate(&alice, &bundle, b"hi").unwrap();
    assert!(is_prekey(&first));
    let (mut bob_session, _) =
        RatchetSession::accept(&mut bob, alice.identity_key(), &first).unwrap();
    let reply = bob_session.encrypt(b"yo").unwrap();
    assert!(!is_prekey(&reply));
    alice_session.decrypt(&reply).unwrap();
    assert!(!is_prekey(&alice_session.encrypt(b"ok").unwrap()));
    assert!(!is_prekey(&[]));
}

#[test]
fn sessions_are_refused_with_the_right_error() {
    let mut bob = MessagingAccount::new();
    let bundle = bob.prekey_bundle();
    assert_eq!(bundle.identity_key, bob.identity_key());
    let alice = MessagingAccount::new();
    let (mut alice_session, first) = RatchetSession::initiate(&alice, &bundle, b"hi").unwrap();

    // Another identity key than the one in the message.
    assert!(matches!(
        RatchetSession::accept(&mut bob, [9u8; 32], &first),
        Err(RatchetError::SessionCreation(_))
    ));
    let (mut bob_session, _) =
        RatchetSession::accept(&mut bob, alice.identity_key(), &first).unwrap();
    // The one-time key is used up.
    assert!(matches!(
        RatchetSession::accept(&mut bob, alice.identity_key(), &first),
        Err(RatchetError::SessionCreation(_))
    ));
    let reply = bob_session.encrypt(b"yo").unwrap();
    assert!(matches!(
        RatchetSession::accept(&mut bob, alice.identity_key(), &reply),
        Err(RatchetError::NotPreKey)
    ));
    assert!(matches!(
        RatchetSession::accept(&mut bob, alice.identity_key(), &[]),
        Err(RatchetError::Malformed)
    ));
    assert_eq!(alice_session.decrypt(&[7, 1, 2]), Err(RatchetError::Malformed));
    alice_session.decrypt(&reply).unwrap();
    assert!(matches!(
        alice_session.decrypt(&reply),
        Err(RatchetError::Decryption(_))
    ));
    // A bundle of keys of small order gives no session.
    let bad = vartalaap::ratchet::PreKeyBundle {
        identity_key: [0u8; 32],
        one_time_key: [0u8; 32],
    };
    assert!(matches!(
        RatchetSession::initiate(&alice, &bad, b"hi"),
        Err(RatchetError::SessionCreation(_))
    ));
    assert!(matches!(
        MessagingAccount::from_pickle_json(b"junk"),
        Err(RatchetError::SessionCreation(_))
    ));
}

#[test]
fn a_channel_is_read_in_the_order_in_which_it_was_sent() {
    let alice = MessagingAccount::new();
    let mut bob = MessagingAccount::new();
    let bundle = bob.prekey_bundle();

    // Alice sends three messages before the first of them arrives.
    let (mut a, first) = RatchetSession::initiate(&alice, &bundle, b"one").unwrap();
    let second = a.encrypt(b"two").unwrap();
    let third = a.encrypt(b"three").unwrap();
    assert!(is_prekey(&first) && is_prekey(&second) && is_prekey(&third));
    let (mut b, plaintext) =
        RatchetSession::accept(&mut bob, alice.identity_key(), &first).unwrap();
    assert_eq!(plaintext, b"one");

    // Bob's reply crosses what is outstanding.
    let reply = b.encrypt(b"four").unwrap();
    assert!(!is_prekey(&reply));
    assert_eq!(b.decrypt(&second).unwrap(), b"two");
    assert_eq!(a.decrypt(&reply).unwrap(), b"four");
    let fifth = a.encrypt(b"five").unwrap();
    assert!(!is_prekey(&fifth));
    assert_eq!(b.decrypt(&third).unwrap(), b"three");
    assert_eq!(b.decrypt(&fifth).unwrap(), b"five");

    // The channel turns many times.
    for turn in 0..20u8 {
        let there = a.encrypt(&[turn]).unwrap();
        assert_eq!(b.decrypt(&there).unwrap(), [turn]);
        let back = b.encrypt(&[turn, turn]).unwrap();
        assert_eq!(a.decrypt(&back).unwrap(), [turn, turn]);
    }
}

#[test]
fn the_sessions_that_there_are_come_first() {
    let plaintext = || vec![1u8, 2];
    let failure = || RatchetError::Decryption("no".to_string());
    let key = [7u8; 32];

    // What a session could read is read.
    assert_eq!(
        after_trying(Some(Ok(plaintext())), None, true, Some(key)),
        ReadStep::Read(plaintext())
    );
    assert_eq!(
        after_trying(Some(Err(failure())), Some(plaintext()), false, None),
        ReadStep::Read(plaintext())
    );
    assert_eq!(after_trying(None, Some(plaintext()), true, None), ReadStep::Read(plaintext()));
    // What no session could read may open a new one.
    assert_eq!(after_trying(Some(Err(failure())), None, true, Some(key)), ReadStep::Open(key));
    assert_eq!(after_trying(None, None, false, Some(key)), ReadStep::Open(key));
    // Everything else is given up.
    assert_eq!(
        after_trying(Some(Err(failure())), None, false, Some(key)),
        ReadStep::GiveUp(SessionError::Ratchet(failure()))
    );
    assert_eq!(
        after_trying(Some(Err(failure())), None, true, None),
        ReadStep::GiveUp(SessionError::NoBundle)
    );
    assert_eq!(after_trying(None, None, true, None), ReadStep::GiveUp(SessionError::NoBundle));
}

#[test]
fn the_first_messages_may_arrive_in_any_order() {
    let alice = MessagingAccount::new();
    let mut bob = MessagingAccount::new();
    let bundle = bob.prekey_bundle();
    // A later bundle and a refused session leave the key of the first one.
    let _later = bob.prekey_bundle();
    assert!(RatchetSession::accept(&mut bob, [9u8; 32], &[0u8]).is_err());

    let (mut a, first) = RatchetSession::initiate(&alice, &bundle, &[0]).unwrap();
    let mut wires = vec![first];
    for n in 1..40u8 {
        wires.push(a.encrypt(&[n]).unwrap());
    }
    // The last of forty opens the session; all others can still be read.
    let (mut b, plain) =
        RatchetSession::accept(&mut bob, alice.identity_key(), &wires[39]).unwrap();
    assert_eq!(plain, [39]);
    for n in (0..39).rev() {
        assert_eq!(b.decrypt(&wires[n]).unwrap(), [n as u8]);
    }
    // What was read is not read twice, and the failure harms nothing.
    assert!(b.decrypt(&wires[3]).is_err());
    let next = a.encrypt(b"next").unwrap();
    assert_eq!(b.decrypt(&next).unwrap(), b"next");
    let back = b.encrypt(b"back").unwrap();
    assert_eq!(a.decrypt(&back).unwrap(), b"back");
}

#[test]
fn a_changed_tag_or_another_key_opens_nothing() {
    let key = VaultKey::from([1u8; 32]);
    let sealed = seal(&key, b"");
    assert_eq!(open(&key, &sealed).unwrap(), b"");
    let sealed = seal(&key, b"hello");
    for i in sealed.len() - 16..sealed.len() {
        let mut changed = sealed.clone();
        changed[i] ^= 1;
        assert_eq!(open(&key, &changed), Err(CryptoError::Decrypt));
    }
    assert_eq!(open(&VaultKey::from([2u8; 32]), &sealed), Err(CryptoError::Decrypt));
    assert!(is_sealable(0x3F_FFFF_FF80));
    assert!(!is_sealable(0x3F_FFFF_FF81));
}

#[test]
fn profiles_are_escaped_as_json() {
    let p = Profile {
        display_name: "a\"b\\c/\u{8}\t\n\u{c}\r".into(),
        bio: "\u{0}\u{1f}\u{7f}".into(),
        status: "\u{fc}\u{1f600}".into(),
        avatar: None,
        updated_at: 10,
    };
    assert_eq!(
        String::from_utf8(p.to_json()).unwrap(),
        "{\"display_name\":\"a\\\"b\\\\c/\\b\\t\\n\\f\\r\",\"bio\":\"\\u0000\\u001f\u{7f}\",\
         \"status\":\"\u{fc}\u{1f600}\",\"avatar\":null,\"updated_at\":10}"
    );
}

#[test]
fn a_key_in_another_encoding_uses_up_the_key() {
    let alice = MessagingAccount::new();
    let mut bob = MessagingAccount::new();
    let bundle = bob.prekey_bundle();
    let (_s, wire) = RatchetSession::initiate(&alice, &bundle, b"hi").unwrap();
    // The one-time key stands in the message as it was published.
    let at = wire.windows(32).position(|w| w == bundle.one_time_key).unwrap();
    let mut other = wire.clone();
    other[at + 31] |= 0x80;
    assert_ne!(other, wire);
    let (_s, plain) = RatchetSession::accept(&mut bob, alice.identity_key(), &other).unwrap();
    assert_eq!(plain, b"hi");
    assert!(matches!(
        RatchetSession::accept(&mut bob, alice.identity_key(), &wire),
        Err(RatchetError::SessionCreation(_))
    ));
}

use vartalaap::bridge::{
    check_passphrase, emit_event, group_dto, label_of, message_dto, parse_keys, read_target,
    received_name, status_str, unlock_error, whoami_of, ReadTarget, UiField, UiValue,
};
use vartalaap::contact::Contact;
use vartalaap::engine::CoreError;
use vartalaap::hexid::{hexgroup, hexkey, parse_group, parse_key, parse_keyed_id};
use vartalaap::json::decimal_of;
use vartalaap::net::{frame, frame_header, frame_len, loopback_port, Bound, ALPN};
use vartalaap::protocol::{DeliveryStatus, EngineEvent, GroupInfo, SyncScope};
use vartalaap::sync::{FileRef, Message, MessageKind};

const ME: [u8; 32] = [1u8; 32];
const PEER: [u8; 32] = [2u8; 32];

fn peer_hex() -> String {
    "02".repeat(32)
}

fn a_message(author: [u8; 32], kind: MessageKind) -> Message {
    Message {
        id: [3u8; 16],
        author,
        lamport: 4,
        sent_at: 5,
        body: "hello".to_string(),
        kind,
    }
}

fn a_file() -> FileRef {
    FileRef {
        transfer_id: [0xABu8; 16],
        name: "cat.png".to_string(),
        size: 6,
        mime: "image/png".to_string(),
        sha256: [7u8; 32],
    }
}

/// The fields of an event as one line.
fn line(event: EngineEvent) -> String {
    emit_event(&ME, event)
        .into_iter()
        .map(|UiField { name, value }| match value {
            UiValue::Text(t) => format!("{name}={t}"),
            UiValue::Number(n) => format!("{name}:{n}"),
            UiValue::Flag(b) => format!("{name}?{b}"),
        })
        .collect::<Vec<String>>()
        .join(" ")
}

#[test]
fn ids_are_hexadecimal_text() {
    let mut k = [0u8; 32];
    k[0] = 0xAB;
    k[31] = 0x0F;
    let t = hexkey(&k);
    assert_eq!(t.len(), 64);
    assert!(t.starts_with("ab00") && t.ends_with("000f"));
    assert_eq!(parse_key(&t), Ok(k));
    assert_eq!(parse_key(&t.to_uppercase()), Ok(k));
    assert_eq!(parse_key("ab"), Err("invalid id length".to_string()));
    assert_eq!(parse_key("abc"), Err("Odd number of digits".to_string()));
    assert_eq!(
        parse_key("zz"),
        Err("Invalid character 'z' at position 0".to_string())
    );
    let g = [0x5Au8; 16];
    assert_eq!(hexgroup(&g), "5a".repeat(16));
    assert_eq!(parse_group(&hexgroup(&g)), Ok(g));
    assert_eq!(parse_group("ab"), Err("invalid group id".to_string()));
    assert_eq!(parse_group(""), Err("invalid group id".to_string()));
    assert_eq!(parse_keyed_id::<2>("convo/0a0b", "convo/"), Some([10, 11]));
    assert_eq!(parse_keyed_id::<2>("convo/0a0b0c", "convo/"), None);
    assert_eq!(parse_keyed_id::<2>("convo/0a0", "convo/"), None);
    assert_eq!(parse_keyed_id::<2>("group/0a0b", "convo/"), None);
}

#[test]
fn numbers_are_decimal() {
    assert_eq!(decimal_of(0), b"0");
    assert_eq!(decimal_of(10), b"10");
    assert_eq!(decimal_of(u64::MAX), b"18446744073709551615");
}

#[test]
fn frames_carry_their_length() {
    assert_eq!(ALPN, "vartalaap/0");
    assert_eq!(frame(b"hello"), b"\x05\0\0\0hello");
    assert_eq!(frame(b""), b"\0\0\0\0");
    assert_eq!(frame_header(0x01020304), [4, 3, 2, 1]);
    assert_eq!(frame_len(&[4, 3, 2, 1]), 0x01020304);
    assert_eq!(frame_len(&[255, 255, 255, 255]), u32::MAX);
}

#[test]
fn the_loopback_port_is_that_of_ipv4() {
    let v4 = |port| Bound { is_ipv4: true, port };
    let v6 = |port| Bound { is_ipv4: false, port };
    assert_eq!(loopback_port(&[v6(1), v4(2), v4(3)]), Some(2));
    assert_eq!(loopback_port(&[v6(1), v6(2)]), Some(1));
    assert_eq!(loopback_port(&[]), None);
}

#[test]
fn only_new_passphrases_are_judged() {
    assert_eq!(
        check_passphrase(false, "1234567"),
        Err("passphrase must be at least 8 characters".to_string())
    );
    assert_eq!(check_passphrase(false, "12345678"), Ok(()));
    // Characters are counted, not bytes.
    assert!(check_passphrase(false, "ééééééé").is_err());
    assert_eq!(check_passphrase(false, "éééééééé"), Ok(()));
    assert_eq!(check_passphrase(true, ""), Ok(()));
}

#[test]
fn unlock_errors_are_plain() {
    assert_eq!(unlock_error(&CoreError::WrongPassphrase), "Wrong passphrase.");
    assert_eq!(unlock_error(&CoreError::Io("x".into())), "io error: x");
}

#[test]
fn statuses_are_lower_case() {
    assert_eq!(status_str(DeliveryStatus::Queued), "queued");
    assert_eq!(status_str(DeliveryStatus::Sent), "sent");
    assert_eq!(status_str(DeliveryStatus::Delivered), "delivered");
}

#[test]
fn who_we_are() {
    let w = whoami_of(&PEER, None, "Asha".into());
    assert_eq!(w.id, peer_hex());
    assert_eq!(w.fingerprint, "");
    assert_eq!(w.display_name, "Asha");
    assert_eq!(whoami_of(&PEER, Some("f".into()), String::new()).fingerprint, "f");
}

#[test]
fn messages_for_the_user_interface() {
    let dto = message_dto(a_message(ME, MessageKind::Text), &ME, Some(DeliveryStatus::Sent), None);
    assert_eq!(dto.id, "03".repeat(16));
    assert_eq!(dto.author, "01".repeat(32));
    assert_eq!(dto.body, "hello");
    assert_eq!(dto.sent_at, 5);
    assert!(dto.mine);
    assert!(dto.file.is_none());
    assert_eq!(dto.status.as_deref(), Some("sent"));

    let theirs = a_message(PEER, MessageKind::File(a_file()));
    assert_eq!(received_name(&theirs, &ME).as_deref(), Some("abab-cat.png"));
    let dto = message_dto(theirs, &ME, None, Some("/d/abab-cat.png".into()));
    assert!(!dto.mine);
    assert!(dto.status.is_none());
    let f = dto.file.unwrap();
    assert_eq!(f.name, "cat.png");
    assert_eq!(f.size, 6);
    assert_eq!(f.mime, "image/png");
    assert_eq!(f.transfer_id, "ab".repeat(16));
    assert_eq!(f.received_path.as_deref(), Some("/d/abab-cat.png"));

    // Whoever sent a file has the original.
    let mine = a_message(ME, MessageKind::File(a_file()));
    assert_eq!(received_name(&mine, &ME), None);
    assert_eq!(received_name(&a_message(PEER, MessageKind::Text), &ME), None);
    let dto = message_dto(mine, &ME, None, Some("/elsewhere".into()));
    assert_eq!(dto.file.unwrap().received_path, None);
}

#[test]
fn groups_for_the_user_interface() {
    let dto = group_dto(GroupInfo {
        id: [9u8; 16],
        name: "study".into(),
        members: vec![ME, PEER],
        creator: PEER,
    });
    assert_eq!(dto.id, "09".repeat(16));
    assert_eq!(dto.name, "study");
    assert_eq!(dto.members, vec!["01".repeat(32), peer_hex()]);
    assert_eq!(dto.creator, peer_hex());
}

#[test]
fn nameless_contacts_are_called_by_their_ids() {
    let mut off_curve = [0u8; 32];
    off_curve[0] = 2;
    let mut c = Contact::fresh(off_curve, 1);
    assert_eq!(label_of(&c), "02000000");
    c.alias = Some("Bo".into());
    assert_eq!(label_of(&c), "Bo");
    assert_eq!(c.display_name().as_deref(), Some("Bo"));
    c.alias = Some(String::new());
    assert_eq!(c.display_name(), None);
}

#[test]
fn lists_of_peers_are_read_as_a_whole() {
    assert_eq!(
        parse_keys(&vec![peer_hex(), "01".repeat(32)]),
        Ok(vec![PEER, ME])
    );
    assert_eq!(parse_keys(&vec![]), Ok(vec![]));
    assert_eq!(
        parse_keys(&vec![peer_hex(), "02".into(), "x".into()]),
        Err("invalid id length".to_string())
    );
}

#[test]
fn what_is_to_be_marked_as_read() {
    assert_eq!(read_target("peer", &peer_hex()), Ok(ReadTarget::Peer(PEER)));
    assert_eq!(
        read_target("group", &"09".repeat(16)),
        Ok(ReadTarget::Group([9u8; 16]))
    );
    assert_eq!(read_target("peer", "02"), Err("invalid id length".to_string()));
    assert_eq!(read_target("group", "02"), Err("invalid group id".to_string()));
    assert_eq!(
        read_target("room", "02"),
        Err("kind must be 'peer' or 'group'".to_string())
    );
}

#[test]
fn events_for_the_user_interface() {
    let p = peer_hex();
    let g = "09".repeat(16);
    let id = "03".repeat(16);
    let t = "ab".repeat(16);
    let me = "01".repeat(32);
    assert_eq!(line(EngineEvent::PeerDiscovered(PEER)), format!("kind=peer_discovered id={p}"));
    assert_eq!(line(EngineEvent::PeerConnected(PEER)), format!("kind=peer_connected id={p}"));
    assert_eq!(
        line(EngineEvent::PeerDisconnected(PEER)),
        format!("kind=peer_disconnected id={p}")
    );
    assert_eq!(
        line(EngineEvent::MessageReceived {
            peer: PEER,
            message: a_message(PEER, MessageKind::Text)
        }),
        format!("kind=message peer={p} id={id} author={p} body=hello sent_at:5 mine?false")
    );
    assert_eq!(line(EngineEvent::Typing(PEER)), format!("kind=typing peer={p}"));
    assert_eq!(
        line(EngineEvent::PresenceChanged { peer: PEER, online: true }),
        format!("kind=presence peer={p} online?true")
    );
    assert_eq!(
        line(EngineEvent::ReadReceipt { peer: PEER, up_to: 8 }),
        format!("kind=read peer={p} up_to:8")
    );
    assert_eq!(
        line(EngineEvent::FileReceived {
            peer: PEER,
            transfer_id: [0xAB; 16],
            name: "n".into(),
            path: "q".into()
        }),
        format!("kind=file_received peer={p} transfer_id={t} name=n path=q")
    );
    assert_eq!(
        line(EngineEvent::FileFailed {
            peer: PEER,
            transfer_id: [0xAB; 16],
            name: "n".into(),
            reason: "r".into()
        }),
        format!("kind=file_failed peer={p} transfer_id={t} name=n reason=r")
    );
    assert_eq!(line(EngineEvent::GroupInvited([9u8; 16])), format!("kind=group_invited group={g}"));
    assert_eq!(
        line(EngineEvent::GroupMessageReceived {
            group: [9u8; 16],
            message: a_message(ME, MessageKind::Text)
        }),
        format!("kind=group_message group={g} id={id} author={me} body=hello sent_at:5 mine?true")
    );
    assert_eq!(
        line(EngineEvent::StorageWarning { detail: "d".into() }),
        "kind=storage_warning detail=d"
    );
    assert_eq!(
        line(EngineEvent::ContactUpdated(PEER)),
        format!("kind=contact_updated id={p}")
    );
    assert_eq!(
        line(EngineEvent::PinWarning {
            peer: PEER,
            old_fingerprint: "a".into(),
            new_fingerprint: "b".into()
        }),
        format!("kind=pin_warning id={p} old=a new=b")
    );
    assert_eq!(
        line(EngineEvent::HistorySynced { peer: PEER, scope: SyncScope::Direct, added: 2 }),
        format!("kind=history_synced scope=peer id={p} added:2")
    );
    assert_eq!(
        line(EngineEvent::HistorySynced {
            peer: PEER,
            scope: SyncScope::Group([9u8; 16]),
            added: 0
        }),
        format!("kind=history_synced scope=group id={g} added:0")
    );
    assert_eq!(
        line(EngineEvent::MessageStatus {
            peer: PEER,
            id: [3u8; 16],
            status: DeliveryStatus::Delivered
        }),
        format!("kind=message_status peer={p} id={id} status=delivered")
    );
}

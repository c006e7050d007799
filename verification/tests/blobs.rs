use vartalaap::blobs::{
    file_meta, guess_mime, mime_of, prepare, BlobError, DecryptSink, EncryptStream, FileHash,
    FileMeta, Fill, ReadFill, CHUNK,
};
use vartalaap::crypto::CryptoError;
use vartalaap::node::Node;
use vartalaap::protocol::{EngineEvent, Payload, PendingFile, Wire};
use vartalaap::ratchet::MessagingAccount;
use vartalaap::state::State;
use vartalaap::sync::{FileRef, Message, MessageKind};
use vartalaap::transfer::{blob_dest, BlobTransfer, OfferStep};

/// Bytes that differ from place to place.
fn noise(len: usize) -> Vec<u8> {
    (0..len).map(|i| (i * 31 + i / 251) as u8).collect()
}

/// The pieces in which a file is read.
fn pieces(data: &[u8]) -> Vec<&[u8]> {
    data.chunks(CHUNK).collect()
}

fn meta_of(data: &[u8], name: &str) -> FileMeta {
    let mut h = FileHash::new();
    for p in pieces(data) {
        h = h.read(p);
    }
    let (sha256, size) = h.finish();
    prepare(Some(name), Some("bin"), sha256, size)
}

#[test]
fn roundtrip_multi_chunk_file() {
    // 150 KiB → spans multiple 64 KiB chunks.
    let original = noise(CHUNK * 2 + 1234);
    let meta = meta_of(&original, "src.bin");
    assert_eq!(meta.size, original.len() as u64);

    let enc = EncryptStream::open(meta.key);
    let mut sink = DecryptSink::create(meta.key);
    let mut out = Vec::new();
    let mut chunks = 0;
    for p in pieces(&original) {
        let c = enc.next_chunk(p).unwrap();
        out.extend(sink.write_chunk(&c).unwrap());
        chunks += 1;
    }
    assert!(enc.next_chunk(&[]).is_none());
    assert!(chunks >= 3, "expected multiple chunks, got {chunks}");
    sink.finish(&meta.sha256).unwrap();
    assert_eq!(out, original);
}

#[test]
fn tampered_chunk_is_rejected() {
    let data = noise(4096);
    let meta = meta_of(&data, "src2.bin");

    let enc = EncryptStream::open(meta.key);
    let mut sink = DecryptSink::create(meta.key);
    let mut chunk = enc.next_chunk(&data).unwrap();
    let last = chunk.len() - 1;
    chunk[last] ^= 0xff;
    // The AEAD seal detects tampering at decrypt time.
    assert!(sink.write_chunk(&chunk).is_err());
}

#[test]
fn wrong_total_hash_is_rejected() {
    let data = noise(2048);
    let meta = meta_of(&data, "src3.bin");

    let enc = EncryptStream::open(meta.key);
    let mut sink = DecryptSink::create(meta.key);
    if let Some(c) = enc.next_chunk(&data) {
        sink.write_chunk(&c).unwrap();
    }
    // Verify against a deliberately wrong expected hash.
    assert!(matches!(
        sink.finish(&[0u8; 32]),
        Err(BlobError::HashMismatch)
    ));
}

#[test]
fn digests_do_not_depend_on_the_pieces() {
    let abc = FileHash::new().read(b"abc").finish();
    assert_eq!(abc, FileHash::new().read(b"a").read(b"").read(b"bc").finish());
    assert_eq!(abc.1, 3);
    assert_eq!(
        abc.0.iter().map(|b| format!("{b:02x}")).collect::<String>(),
        "ba7816bf8f01cfea414140de5dae2223b00361a396177a9cb410ff61f20015ad"
    );
}

#[test]
fn announcements_have_ids_and_keys_of_their_own() {
    let a = prepare(None, None, [1u8; 32], 5);
    let b = prepare(None, None, [1u8; 32], 5);
    assert_eq!(a.name, "file");
    assert_eq!(a.mime, "application/octet-stream");
    assert_ne!(a.transfer_id, b.transfer_id);
    assert_ne!(a.key, b.key);
    let m = file_meta([1u8; 16], [2u8; 32], Some("x.PNG"), Some("PNG"), [3u8; 32], 7);
    assert_eq!(m.mime, "image/png");
    let f = m.file_ref();
    assert_eq!(f.transfer_id, [1u8; 16]);
    assert_eq!(f.name, "x.PNG");
    assert_eq!(f.size, 7);
    assert_eq!(f.sha256, [3u8; 32]);
}

#[test]
fn media_types_by_extension() {
    for (ext, mime) in [
        ("png", "image/png"),
        ("jpg", "image/jpeg"),
        ("jpeg", "image/jpeg"),
        ("gif", "image/gif"),
        ("webp", "image/webp"),
        ("svg", "image/svg+xml"),
        ("pdf", "application/pdf"),
        ("txt", "text/plain"),
        ("md", "text/plain"),
        ("json", "application/json"),
        ("zip", "application/zip"),
        ("mp3", "audio/mpeg"),
        ("mp4", "video/mp4"),
        ("mov", "video/quicktime"),
        ("exe", "application/octet-stream"),
        ("", "application/octet-stream"),
    ] {
        assert_eq!(guess_mime(Some(ext)), mime);
        assert_eq!(guess_mime(Some(&ext.to_uppercase())), mime);
        assert_eq!(mime_of(ext), mime);
    }
    assert_eq!(mime_of("PNG"), "application/octet-stream");
    assert_eq!(guess_mime(None), "application/octet-stream");
}

#[test]
fn reads_go_on_until_the_buffer_is_full_or_the_input_ends() {
    let (mut f, first) = ReadFill::start(10);
    assert_eq!(first, Fill::More(10));
    assert_eq!(f.on_read(4), Fill::More(6));
    assert_eq!(f.on_read(6), Fill::Done(10));
    let (mut f, _) = ReadFill::start(10);
    assert_eq!(f.on_read(4), Fill::More(6));
    assert_eq!(f.on_read(0), Fill::Done(4));
    assert_eq!(ReadFill::start(0).1, Fill::Done(0));
}

#[test]
fn blob_errors_have_messages() {
    assert_eq!(BlobError::Io("full".into()).message(), "io error: full");
    assert_eq!(
        BlobError::Crypto(CryptoError::Format).message(),
        "malformed ciphertext"
    );
    assert_eq!(
        BlobError::HashMismatch.message(),
        "content hash mismatch: file is corrupt or truncated"
    );
    let mut sink = DecryptSink::create([1u8; 32]);
    assert_eq!(
        sink.write_chunk(b"short"),
        Err(BlobError::Crypto(CryptoError::Format))
    );
}

#[test]
fn received_files_are_named_by_their_transfer() {
    let mut id = [0u8; 16];
    id[0] = 0x0a;
    id[1] = 0xff;
    assert_eq!(blob_dest(&id, "notes.pdf"), "0aff-notes.pdf");
}

#[test]
fn an_offer_is_waited_for_a_while() {
    let mut st = State::default();
    let id = [5u8; 16];
    assert_eq!(st.wait_for_offer(&id, 0), OfferStep::Wait(50));
    assert_eq!(st.wait_for_offer(&id, 39), OfferStep::Wait(50));
    assert_eq!(st.wait_for_offer(&id, 40), OfferStep::GiveUp);
    let offer = PendingFile { key: [1u8; 32], sha256: [2u8; 32], name: "a".into() };
    st.pending_files.insert(id, offer.clone());
    assert_eq!(st.wait_for_offer(&id, 39), OfferStep::Found(offer));
    assert_eq!(st.wait_for_offer(&id, 40), OfferStep::GiveUp);
}

#[test]
fn two_nodes_transfer_a_file_e2e() {
    let data = noise(200_000);
    let meta = meta_of(&data, "vartalaap-send.bin");
    let alice_id = [21u8; 32];
    let bob_id = [23u8; 32];
    let mut alice = Node::new(alice_id, MessagingAccount::new());
    let mut bob = Node::new(bob_id, MessagingAccount::new());

    let bundle_alice = alice.messaging.prekey_bundle();
    let bundle_bob = bob.messaging.prekey_bundle();
    alice.state.register(&alice_id, bob_id, bundle_bob, 1);
    bob.state.register(&bob_id, alice_id, bundle_alice, 1);

    // The offer travels encrypted: what is encrypted is its key, its id and the
    // digest and size of the file.
    let (offer, _) = alice.offer_file(bob_id, &meta, 1);
    let (message, key) = match offer {
        Payload::FileOffer { message, key } => (message, key),
        _ => panic!("not an offer"),
    };
    assert_eq!(key, meta.key);
    let file = match &message.kind {
        MessageKind::File(f) => f.clone(),
        MessageKind::Text => panic!("not a file"),
    };
    let plaintext = serde_json::to_vec(&(
        (message.id, message.author, message.lamport, message.sent_at, &message.body),
        (file.transfer_id, &file.name, file.size, &file.mime, file.sha256),
        key,
    ))
    .unwrap();
    let ciphertext = alice.encrypt_for(bob_id, &plaintext).unwrap();
    assert!(!ciphertext.windows(32).any(|w| w == key));
    let got = bob.handle_frame(alice_id, Wire::Message { ciphertext }).plaintext.unwrap();
    assert_eq!(got, plaintext);
    type Head = ([u8; 16], [u8; 32], u64, u64, String);
    type File = ([u8; 16], String, u64, String, [u8; 32]);
    let (m, f, key): (Head, File, [u8; 32]) = serde_json::from_slice(&got).unwrap();
    let kind = MessageKind::File(FileRef {
        transfer_id: f.0,
        name: f.1,
        size: f.2,
        mime: f.3,
        sha256: f.4,
    });
    let message = Message {
        id: m.0,
        author: m.1,
        lamport: m.2,
        sent_at: m.3,
        body: m.4,
        kind,
    };
    bob.handle_payload(alice_id, Payload::FileOffer { message, key }, 2);

    let found = match bob.state.wait_for_offer(&meta.transfer_id, 0) {
        OfferStep::Found(f) => f,
        other => panic!("no offer: {other:?}"),
    };
    let mut transfer = BlobTransfer::start(alice_id, meta.transfer_id, found, Ok(())).unwrap();
    let enc = EncryptStream::open(meta.key);
    let mut received = Vec::new();
    for p in pieces(&data) {
        let chunk = enc.next_chunk(p).unwrap();
        received.extend(transfer.on_chunk(&chunk).unwrap());
    }
    let event = bob.state.finish_blob(transfer, true, "/tmp/x".into());
    assert_eq!(received, data, "received file must match the original");
    assert!(matches!(
        event,
        EngineEvent::FileReceived { peer, transfer_id, name, path }
            if peer == alice_id
                && transfer_id == meta.transfer_id
                && name == "vartalaap-send.bin"
                && path == "/tmp/x"
    ));
    // The file is no longer expected.
    assert_eq!(bob.state.wait_for_offer(&meta.transfer_id, 0), OfferStep::Wait(50));

    // The file also appears in Bob's conversation as a File message.
    let convo = bob.conversation(&alice_id);
    assert!(convo.iter().any(|m| matches!(m.kind, MessageKind::File(_))));
    assert_eq!(convo[0].body, "vartalaap-send.bin");
}

#[test]
fn failed_transfers_say_why() {
    let reason = |e: EngineEvent| match e {
        EngineEvent::FileFailed { reason, name, .. } => {
            assert_eq!(name, "f");
            reason
        }
        other => panic!("not a failure: {other:?}"),
    };
    let offer = || PendingFile { key: [1u8; 32], sha256: [2u8; 32], name: "f".into() };
    let start = || BlobTransfer::start([7u8; 32], [8u8; 16], offer(), Ok(())).ok().unwrap();

    let refused =
        BlobTransfer::start([7u8; 32], [8u8; 16], offer(), Err(BlobError::Io("denied".into())));
    assert_eq!(
        reason(refused.err().unwrap()),
        "cannot create download file: io error: denied"
    );
    assert_eq!(
        reason(start().on_chunk(b"junk").unwrap_err()),
        "decryption failed (corrupt or tampered data)"
    );
    assert_eq!(
        reason(start().on_write_error()),
        "decryption failed (corrupt or tampered data)"
    );
    assert_eq!(
        reason(start().on_interrupt()),
        "connection interrupted mid-transfer"
    );
    let mut st = State::default();
    st.pending_files.insert([8u8; 16], offer());
    assert_eq!(
        reason(st.finish_blob(start(), true, "p".into())),
        "integrity check failed (hash mismatch)"
    );
    assert_eq!(
        reason(st.finish_blob(start(), false, "p".into())),
        "integrity check failed (hash mismatch)"
    );
    assert!(st.pending_files.contains(&[8u8; 16]));
}

#[test]
fn a_file_takes_as_many_chunks_as_it_needs() {
    // Fills a buffer from reads that give a few bytes at a time.
    fn fill(input: &mut &[u8], buf: &mut [u8], step: usize) -> usize {
        let (mut fill, mut next) = ReadFill::start(buf.len());
        loop {
            match next {
                Fill::Done(n) => return n,
                Fill::More(room) => {
                    let n = room.min(step).min(input.len());
                    buf[fill.filled..fill.filled + n].copy_from_slice(&input[..n]);
                    *input = &input[n..];
                    next = fill.on_read(n);
                }
            }
        }
    }
    for (len, count) in [(0, 0), (1, 1), (CHUNK, 1), (CHUNK + 1, 2), (3 * CHUNK, 3)] {
        let file = noise(len);
        let meta = meta_of(&file, "f");
        let enc = EncryptStream::open(meta.key);
        let mut input = file.as_slice();
        let mut buf = vec![0u8; CHUNK];
        let mut chunks = Vec::new();
        loop {
            let n = fill(&mut input, &mut buf, 40_000);
            match enc.next_chunk(&buf[..n]) {
                Some(chunk) => chunks.push(chunk),
                None => break,
            }
        }
        assert_eq!(chunks.len(), count);

        let receive = |chunks: &[Vec<u8>]| {
            let mut sink = DecryptSink::create(meta.key);
            let mut out = Vec::new();
            for c in chunks {
                out.extend(sink.write_chunk(c).unwrap());
            }
            (sink.finish(&meta.sha256), out)
        };
        let (ended, out) = receive(&chunks);
        assert!(ended.is_ok());
        assert_eq!(out, file);
        // Dropped, repeated and reordered chunks are caught.
        if count >= 2 {
            assert_eq!(receive(&chunks[1..]).0, Err(BlobError::HashMismatch));
            let mut repeated = chunks.clone();
            repeated.push(chunks[0].clone());
            assert_eq!(receive(&repeated).0, Err(BlobError::HashMismatch));
            let mut reordered = chunks.clone();
            reordered.swap(0, 1);
            assert_eq!(receive(&reordered).0, Err(BlobError::HashMismatch));
        }
    }
}

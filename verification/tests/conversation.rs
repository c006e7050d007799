use vartalaap::conversation::{Conversation, Snapshot};
use vartalaap::keyed::{ByteMap, ByteSet};
use vartalaap::sync::{AuthorId, FileRef, Message, MessageKind, Reaction};

const ALICE: AuthorId = [1u8; 32];
const BOB: AuthorId = [2u8; 32];

fn ordered_ids(c: &Conversation) -> Vec<[u8; 16]> {
    c.messages_ordered().iter().map(|m| m.id).collect()
}

fn text_message(id: u8, author: AuthorId, lamport: u64, body: &str) -> Message {
    Message {
        id: [id; 16],
        author,
        lamport,
        sent_at: 1,
        body: body.to_string(),
        kind: MessageKind::Text,
    }
}

#[test]
fn ordered_by_lamport_then_author() {
    let mut c = Conversation::new();
    let m1 = c.create_text(ALICE, 100, "first");
    let m2 = c.create_text(ALICE, 101, "second");
    let ordered = c.messages_ordered();
    assert_eq!(ordered[0].id, m1.id);
    assert_eq!(ordered[1].id, m2.id);
}

#[test]
fn apply_is_idempotent() {
    let mut a = Conversation::new();
    let m = a.create_text(ALICE, 1, "hi");
    let mut b = Conversation::new();
    b.apply(m.clone());
    b.apply(m.clone());
    assert_eq!(b.len(), 1);
}

#[test]
fn converges_regardless_of_order() {
    // Author three messages on three independent replicas.
    let mut src_a = Conversation::new();
    let ma = src_a.create_text(ALICE, 10, "a");
    let mut src_b = Conversation::new();
    let mb = src_b.create_text(BOB, 10, "b");
    let mut src_c = Conversation::new();
    let mc = src_c.create_text(ALICE, 12, "c");

    // Replica 1 sees a, b, c.
    let mut r1 = Conversation::new();
    r1.apply(ma.clone());
    r1.apply(mb.clone());
    r1.apply(mc.clone());

    // Replica 2 sees them in a different order, with a duplicate.
    let mut r2 = Conversation::new();
    r2.apply(mc.clone());
    r2.apply(ma.clone());
    r2.apply(mb.clone());
    r2.apply(mc.clone());

    assert_eq!(
        ordered_ids(&r1),
        ordered_ids(&r2),
        "replicas must converge to identical order"
    );
}

#[test]
fn read_watermark_is_monotonic_max() {
    let mut c = Conversation::new();
    c.mark_read(BOB, 5);
    c.mark_read(BOB, 3); // older, must not regress
    assert_eq!(c.read_watermark(&BOB), 5);
    c.mark_read(BOB, 9);
    assert_eq!(c.read_watermark(&BOB), 9);
}

#[test]
fn delta_since_returns_missing_messages() {
    let mut a = Conversation::new();
    let m1 = a.create_text(ALICE, 1, "one");
    let _m2 = a.create_text(ALICE, 2, "two");

    let mut b = Conversation::new();
    b.apply(m1.clone());

    // a should offer b everything b doesn't have (just m2).
    let delta = a.delta_since(&b.have());
    assert_eq!(delta.len(), 1);
    assert_eq!(delta[0].body, "two");

    for m in delta {
        b.apply(m);
    }
    assert_eq!(a.have(), b.have(), "after sync, histories match");
}

#[test]
fn merge_unions_messages_and_reactions() {
    let mut a = Conversation::new();
    let m = a.create_text(ALICE, 1, "hello");
    a.react(m.id, ALICE, "👍");

    let mut b = Conversation::new();
    let n = b.create_text(BOB, 1, "world");
    b.react(n.id, BOB, "🎉");

    a.merge(&b);
    assert_eq!(a.len(), 2);
    assert_eq!(a.reactions_for(&m.id).len(), 1);
    assert_eq!(a.reactions_for(&n.id).len(), 1);
}

#[test]
fn snapshot_roundtrip_preserves_state_and_clock() {
    let mut c = Conversation::new();
    let m1 = c.create_text(ALICE, 100, "one");
    let m2 = c.create_text(BOB, 101, "two");
    c.react(m1.id, BOB, "👍");
    c.mark_read(BOB, 7);

    let snap = c.snapshot();
    let mut r = Conversation::from_snapshot(snap);

    assert_eq!(ordered_ids(&r), vec![m1.id, m2.id]);
    assert_eq!(r.reactions_for(&m1.id).len(), 1);
    assert_eq!(r.read_watermark(&BOB), 7);

    // Clock continuity: a new message must sort after restored ones.
    let m3 = r.create_text(ALICE, 102, "three");
    assert_eq!(ordered_ids(&r).last(), Some(&m3.id));
    assert!(m3.lamport > m2.lamport);
}

#[test]
fn snapshot_restores_clock_past_read_watermark() {
    let mut c = Conversation::new();
    c.create_text(ALICE, 1, "hi");
    c.mark_read(BOB, 50);
    let mut r = Conversation::from_snapshot(c.snapshot());
    let m = r.create_text(ALICE, 2, "new");
    assert!(m.lamport > 50, "new lamport {} must exceed watermark 50", m.lamport);
}

#[test]
fn equal_times_are_ordered_by_author_and_then_by_id() {
    let mut c = Conversation::new();
    c.apply(text_message(9, BOB, 3, "d"));
    c.apply(text_message(5, ALICE, 3, "c"));
    c.apply(text_message(4, ALICE, 3, "b"));
    c.apply(text_message(8, BOB, 2, "a"));
    assert_eq!(
        ordered_ids(&c),
        vec![[8u8; 16], [4u8; 16], [5u8; 16], [9u8; 16]]
    );
}

#[test]
fn the_first_message_under_an_id_stays() {
    let mut c = Conversation::new();
    c.apply(text_message(1, ALICE, 1, "first"));
    c.apply(text_message(1, BOB, 9, "second"));
    assert_eq!(c.len(), 1);
    assert_eq!(c.message(&[1u8; 16]).unwrap().body, "first");
    // The clock still falls behind nothing that was seen.
    assert_eq!(c.clock(), 9);
    assert!(c.message(&[2u8; 16]).is_none());
}

#[test]
fn own_messages_tick_past_what_was_received() {
    let mut c = Conversation::new();
    assert!(c.is_empty());
    assert!(c.can_author());
    c.apply(text_message(1, BOB, 41, "hi"));
    let m = c.create_text(ALICE, 7, "hello");
    assert_eq!(m.lamport, 42);
    assert_eq!(m.sent_at, 7);
    assert_eq!(m.author, ALICE);
    assert_eq!(m.kind, MessageKind::Text);
    assert!(!c.is_empty());
    c.apply(text_message(2, BOB, u64::MAX, "far"));
    assert!(!c.can_author());
}

#[test]
fn a_file_message_is_called_like_the_file() {
    let file = FileRef {
        transfer_id: [3u8; 16],
        name: "notes.pdf".to_string(),
        size: 12,
        mime: "application/pdf".to_string(),
        sha256: [4u8; 32],
    };
    let mut c = Conversation::new();
    let m = c.create_file(ALICE, 5, file.clone());
    assert_eq!(m.body, "notes.pdf");
    assert_eq!(m.kind, MessageKind::File(file));
    assert_eq!(m.lamport, 1);
}

#[test]
fn reactions_are_a_set() {
    let mut c = Conversation::new();
    let m = c.create_text(ALICE, 1, "hi");
    c.react(m.id, BOB, "🎉");
    c.react(m.id, BOB, "👍");
    c.react(m.id, BOB, "👍");
    c.react(m.id, ALICE, "👍");
    c.react([9u8; 16], ALICE, "👍");
    let got: Vec<(AuthorId, String)> = c
        .reactions_for(&m.id)
        .iter()
        .map(|r| (r.author, r.emoji.clone()))
        .collect();
    assert_eq!(got.len(), 3);
    assert!(got.contains(&(BOB, "🎉".to_string())));
    assert!(got.contains(&(BOB, "👍".to_string())));
    assert!(got.contains(&(ALICE, "👍".to_string())));
}

#[test]
fn merge_is_idempotent_and_keeps_the_larger_watermark() {
    let mut a = Conversation::new();
    a.create_text(ALICE, 1, "a");
    a.mark_read(BOB, 2);
    a.mark_read(ALICE, 8);
    let mut b = Conversation::new();
    b.create_text(BOB, 1, "b");
    b.mark_read(BOB, 6);

    let mut ab = Conversation::from_snapshot(a.snapshot());
    ab.merge(&b);
    let once = ordered_ids(&ab);
    ab.merge(&b);
    assert_eq!(ordered_ids(&ab), once);
    assert_eq!(ab.read_watermark(&BOB), 6);
    assert_eq!(ab.read_watermark(&ALICE), 8);
    assert_eq!(ab.read_watermark(&[3u8; 32]), 0);

    let mut ba = Conversation::from_snapshot(b.snapshot());
    ba.merge(&a);
    assert_eq!(ordered_ids(&ba), once);
}

#[test]
fn an_exchange_of_deltas_converges() {
    let mut a = Conversation::new();
    a.create_text(ALICE, 1, "one");
    a.create_text(ALICE, 2, "two");
    let mut b = Conversation::new();
    b.create_text(BOB, 1, "uno");

    let to_b = a.delta_since(&b.have());
    let to_a = b.delta_since(&a.have());
    b.apply_all(&to_b);
    a.apply_all(&to_a);
    assert_eq!(a.have(), b.have());
    assert_eq!(ordered_ids(&a), ordered_ids(&b));
    assert!(a.delta_since(&b.have()).is_empty());
}

#[test]
fn a_snapshot_lists_everything_in_order() {
    let mut c = Conversation::new();
    c.apply(text_message(2, BOB, 1, "b"));
    c.apply(text_message(1, ALICE, 2, "a"));
    c.react([2u8; 16], BOB, "👍");
    c.react([1u8; 16], BOB, "👍");
    c.mark_read(BOB, 1);
    c.mark_read(ALICE, 2);
    let s: Snapshot = c.snapshot();
    assert_eq!(s.messages.iter().map(|m| m.id[0]).collect::<Vec<u8>>(), vec![1, 2]);
    assert_eq!(s.reactions.iter().map(|r: &Reaction| r.message[0]).collect::<Vec<u8>>(), vec![1, 2]);
    assert_eq!(s.read, vec![(ALICE, 2), (BOB, 1)]);
}

#[test]
fn byte_maps_are_ordered_by_their_keys() {
    let mut m: ByteMap<2, &str> = ByteMap::new();
    m.insert([2, 0], "c");
    m.insert([1, 9], "b");
    m.insert([1, 2], "a");
    m.insert([1, 9], "B");
    assert_eq!(m.len(), 3);
    assert_eq!(m.keys(), vec![[1, 2], [1, 9], [2, 0]]);
    assert_eq!(m.get(&[1, 9]), Some(&"B"));
    assert_eq!(m.get(&[1, 8]), None);
    assert_eq!(m.remove(&[1, 2]), Some("a"));
    assert_eq!(m.remove(&[1, 2]), None);
    assert!(!m.contains(&[1, 2]));
    assert_eq!(m.key_at(0), [1, 9]);
    assert_eq!(m.value_at(1), &"c");
}

#[test]
fn byte_sets_hold_each_key_once() {
    let mut s: ByteSet<1> = ByteSet::from_slice(&[[3], [1], [3]]);
    assert_eq!(s.to_vec(), vec![[1], [3]]);
    assert!(!s.insert([1]));
    assert!(s.insert([2]));
    assert!(s.remove(&[3]));
    assert!(!s.remove(&[3]));
    assert_eq!(s.to_vec(), vec![[1], [2]]);
    assert_eq!(s.len(), 2);
    assert!(!s.is_empty());
    assert!(ByteSet::<1>::new().is_empty());
}

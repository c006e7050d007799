//! Files between two nodes: the offer, and the blob stream that follows it.

#[allow(unused_imports)]
use crate::blobs::{after_chunks, SinkModel};
use crate::blobs::{BlobError, DecryptSink, FileMeta};
use crate::crypto::CryptoError;
#[allow(unused_imports)]
use crate::crypto::opened;
use crate::hexid::hex_of;
#[allow(unused_imports)]
use crate::hexid::hex_text;
#[allow(unused_imports)]
use crate::identity::sha256;
use crate::node::Node;
use crate::protocol::{Action, EngineEvent, Payload, PeerKey, PendingFile, TransferId};
#[allow(unused_imports)]
use crate::protocol::{action_models, action_models_push, ActionModel, EventModel, PayloadModel};
use crate::state::{take_convo, State};
#[allow(unused_imports)]
use crate::state::{views_insert, views_remove, StateModel};
use crate::sync::{FileRef, MessageKind};
#[allow(unused_imports)]
use crate::sync::Message;
use vstd::prelude::*;

verus! {

broadcast use {action_models_push, views_insert, views_remove};

/// How often an offer is looked for before its blob stream is given up.
pub const OFFER_POLLS: usize = 40;

/// The milliseconds between two looks.
pub const OFFER_PAUSE_MS: u64 = 50;

/// The name under which a received file is stored: the first two bytes of the
/// transfer id in hexadecimal, a dash, and the name of the file.
pub open spec fn blob_name(transfer_id: TransferId, name: Seq<char>) -> Seq<char> {
    hex_text(transfer_id@.subrange(0, 2)) + "-"@ + name
}

/// The name under which a received file is stored. It is the same when the file
/// is written and when it is looked for.
pub fn blob_dest(transfer_id: &TransferId, name: &str) -> (r: String)
    ensures
        r@ == blob_name(*transfer_id, name@),
{
    hex_of(vstd::slice::slice_subrange(transfer_id.as_slice(), 0, 2)).concat("-").concat(name)
}

/// What to do with a blob stream whose offer may not have been handled yet.
#[derive(Debug, PartialEq, Eq)]
pub enum OfferStep {
    /// The offer is here.
    Found(PendingFile),
    /// Look again after so many milliseconds.
    Wait(u64),
    /// There is no offer.
    GiveUp,
}

/// A file that is being received, as a mathematical value.
pub ghost struct TransferModel {
    pub peer: PeerKey,
    pub transfer_id: TransferId,
    pub name: Seq<char>,
    /// The digest that was announced.
    pub expected: [u8; 32],
    pub sink: SinkModel,
}

impl TransferModel {
    /// What is told when the file does not arrive whole.
    pub open spec fn failed(self, reason: Seq<char>) -> EventModel {
        EventModel::FileFailed {
            peer: self.peer,
            transfer_id: self.transfer_id,
            name: self.name,
            reason,
        }
    }

    /// The transfer of an offered file, of which nothing was received.
    pub open spec fn of_offer(peer: PeerKey, transfer_id: TransferId, offer: PendingFile) -> Self {
        TransferModel {
            peer,
            transfer_id,
            name: offer.name@,
            expected: offer.sha256,
            sink: SinkModel { key: offer.key@, received: Seq::empty() },
        }
    }

    /// The file that was put together is the one that was announced.
    pub open spec fn whole(self) -> bool {
        sha256(self.sink.received) == self.expected@
    }
}

/// A file that is being received.
pub struct BlobTransfer {
    pub peer: PeerKey,
    pub transfer_id: TransferId,
    pub name: String,
    pub expected: [u8; 32],
    pub sink: DecryptSink,
}

impl View for BlobTransfer {
    type V = TransferModel;

    open spec fn view(&self) -> TransferModel {
        TransferModel {
            peer: self.peer,
            transfer_id: self.transfer_id,
            name: self.name@,
            expected: self.expected,
            sink: self.sink@,
        }
    }
}

impl BlobTransfer {
    /// Starts to receive an offered file, once the file to write to was created
    /// or could not be.
    pub fn start(
        peer: PeerKey,
        transfer_id: TransferId,
        offer: PendingFile,
        created: Result<(), BlobError>,
    ) -> (r: Result<Self, EngineEvent>)
        ensures
            ({
                let t = TransferModel::of_offer(peer, transfer_id, offer);
                match created {
                    Ok(()) => r matches Ok(b) && b@ == t,
                    Err(e) => r matches Err(event) && event@ == t.failed(
                        "cannot create download file: "@ + e.text(),
                    ),
                }
            }),
    {
        match created {
            Ok(()) => Ok(
                BlobTransfer {
                    peer,
                    transfer_id,
                    name: offer.name,
                    expected: offer.sha256,
                    sink: DecryptSink::create(offer.key),
                },
            ),
            Err(e) => Err(
                EngineEvent::FileFailed {
                    peer,
                    transfer_id,
                    name: offer.name,
                    reason: "cannot create download file: ".to_owned().concat(e.message().as_str()),
                },
            ),
        }
    }

    /// The transfer has failed for this reason.
    fn failed(&self, reason: &str) -> (r: EngineEvent)
        ensures
            r@ == self@.failed(reason@),
    {
        EngineEvent::FileFailed {
            peer: self.peer,
            transfer_id: self.transfer_id,
            name: self.name.clone(),
            reason: reason.to_owned(),
        }
    }

    /// Takes in a chunk, and gives the bytes to append to the file.
    pub fn on_chunk(&mut self, chunk: &[u8]) -> (r: Result<Vec<u8>, EngineEvent>)
        ensures
            ({
                let t = old(self)@;
                match opened(t.sink.key, chunk@) {
                    Ok(plain) => r matches Ok(bytes) && bytes@ == plain && final(self)@ == (
                    TransferModel {
                        sink: SinkModel { received: t.sink.received + plain, ..t.sink },
                        ..t
                    }),
                    Err(_) => r matches Err(event) && event@ == t.failed(
                        "decryption failed (corrupt or tampered data)"@,
                    ) && final(self)@ == t,
                }
            }),
    {
        match self.sink.write_chunk(chunk) {
            Ok(bytes) => Ok(bytes),
            Err(_) => Err(self.failed("decryption failed (corrupt or tampered data)")),
        }
    }

    /// The bytes of a chunk could not be written.
    pub fn on_write_error(&self) -> (r: EngineEvent)
        ensures
            r@ == self@.failed("decryption failed (corrupt or tampered data)"@),
    {
        self.failed("decryption failed (corrupt or tampered data)")
    }

    /// The stream broke off.
    pub fn on_interrupt(&self) -> (r: EngineEvent)
        ensures
            r@ == self@.failed("connection interrupted mid-transfer"@),
    {
        self.failed("connection interrupted mid-transfer")
    }
}

impl State {
    /// Looks for the offer of a blob stream. The offer can be handled after the
    /// stream was opened, so it is looked for a number of times.
    pub fn wait_for_offer(&self, transfer_id: &TransferId, looks: usize) -> (r: OfferStep)
        ensures
            r == if looks >= OFFER_POLLS {
                OfferStep::GiveUp
            } else if self@.pending_files.contains_key(*transfer_id) {
                OfferStep::Found(self@.pending_files[*transfer_id])
            } else {
                OfferStep::Wait(OFFER_PAUSE_MS)
            },
    {
        if looks >= OFFER_POLLS {
            return OfferStep::GiveUp;
        }
        match self.pending_files.get(transfer_id) {
            Some(offer) => OfferStep::Found(offer.clone()),
            None => OfferStep::Wait(OFFER_PAUSE_MS),
        }
    }

    /// Ends a transfer whose stream has ended, once the file was flushed to
    /// `path` or could not be. A file that is the announced one is no longer
    /// expected.
    pub fn finish_blob(&mut self, transfer: BlobTransfer, flushed: bool, path: String) -> (r:
        EngineEvent)
        ensures
            ({
                let t = transfer@;
                if flushed && t.whole() {
                    &&& final(self)@ == (StateModel {
                        pending_files: old(self)@.pending_files.remove(t.transfer_id),
                        ..old(self)@
                    })
                    &&& r@ == (EventModel::FileReceived {
                        peer: t.peer,
                        transfer_id: t.transfer_id,
                        name: t.name,
                        path: path@,
                    })
                } else {
                    &&& final(self)@ == old(self)@
                    &&& r@ == t.failed("integrity check failed (hash mismatch)"@)
                }
            }),
    {
        let failed = transfer.failed("integrity check failed (hash mismatch)");
        if !flushed {
            return failed;
        }
        let BlobTransfer { peer, transfer_id, name, expected, sink } = transfer;
        match sink.finish(&expected) {
            Ok(()) => {
                let _ = self.pending_files.remove(&transfer_id);
                EngineEvent::FileReceived { peer, transfer_id, name, path }
            },
            Err(_) => failed,
        }
    }
}

impl Node {
    /// Records a file for a peer and gives the offer that is to be sent before
    /// the blob stream.
    pub fn offer_file(&mut self, peer: PeerKey, meta: &FileMeta, now: u64) -> (r: (
        Payload,
        Vec<Action>,
    ))
        requires
            old(self).state@.convo(peer).lamport < u64::MAX,
        ensures
            final(self).id == old(self).id,
            final(self).messaging == old(self).messaging,
            r.0@ matches PayloadModel::FileOffer { message: m, key } && {
                &&& key == meta.key
                &&& m.author == old(self).id
                &&& m.lamport == old(self).state@.convo(peer).lamport + 1
                &&& m.sent_at == now
                &&& m.body@ == meta.name@
                &&& m.kind == MessageKind::File(
                    FileRef {
                        transfer_id: meta.transfer_id,
                        name: meta.name,
                        size: meta.size,
                        mime: meta.mime,
                        sha256: meta.sha256,
                    },
                )
                &&& final(self).state@ == old(self).state@.with_convo(
                    peer,
                    old(self).state@.convo(peer).authored(m),
                )
            },
            action_models(r.1@) == seq![ActionModel::SaveConvo(peer)],
    {
        let ghost before = self.state@;
        let mut c = take_convo(&mut self.state.conversations, &peer);
        let m = c.create_file(self.id, now, meta.file_ref());
        self.state.conversations.insert(peer, c);
        proof {
            let after = before.with_convo(peer, before.convo(peer).authored(m));
            assert(self.state@.conversations =~= after.conversations);
            assert(self.state@ =~= after);
        }
        let mut r: Vec<Action> = Vec::new();
        r.push(Action::SaveConvo(peer));
        assert(action_models(r@) =~= seq![ActionModel::SaveConvo(peer)]);
        (Payload::FileOffer { message: m, key: meta.key }, r)
    }
}

/// What is received of an offered file is whole: the offer makes the receiver
/// expect the file, and the chunks that were sealed from the pieces of a file
/// with the announced digest leave a transfer that is whole.
pub proof fn offered_file_arrives(
    s: StateModel,
    m: Message,
    f: FileRef,
    key: [u8; 32],
    peer: PeerKey,
    pieces: Seq<Seq<u8>>,
    chunks: Seq<Seq<u8>>,
)
    requires
        m.kind == MessageKind::File(f),
        sha256(pieces.flatten()) == f.sha256@,
        pieces.len() == chunks.len(),
        forall|i: int|
            0 <= i < chunks.len() ==> opened(key@, #[trigger] chunks[i]) == Ok::<
                Seq<u8>,
                CryptoError,
            >(pieces[i]),
    ensures
        s.after_offer(m, key).pending_files.contains_key(f.transfer_id),
        ({
            let offer = s.after_offer(m, key).pending_files[f.transfer_id];
            let t = TransferModel::of_offer(peer, f.transfer_id, offer);
            &&& after_chunks(t.sink, chunks) is Some
            &&& (TransferModel { sink: after_chunks(t.sink, chunks)->0, ..t }).whole()
        }),
{
    crate::blobs::transfer_round_trip(key@, pieces, chunks);
}

/// Received files do not take each other's place: the name under which a file is
/// stored ends in its own name, and two of them are the same only where the files
/// have one name and the transfers agree in their first two bytes.
pub proof fn stored_names_tell_files_apart(
    a: TransferId,
    b: TransferId,
    name: Seq<char>,
    other: Seq<char>,
)
    ensures
        name.is_suffix_of(blob_name(a, name)),
        blob_name(a, name) == blob_name(b, other) <==> name == other && a[0] == b[0] && a[1]
            == b[1],
{
    let x = blob_name(a, name);
    let y = blob_name(b, other);
    reveal_strlit("-");
    let p = hex_text(a@.subrange(0, 2));
    let q = hex_text(b@.subrange(0, 2));
    assert(x.len() == 5 + name.len());
    assert(x.skip(5) =~= name);
    assert(y.skip(5) =~= other);
    assert(x.take(4) =~= p);
    assert(y.take(4) =~= q);
    if x == y {
        crate::hexid::hex_injective(a@.subrange(0, 2), b@.subrange(0, 2));
        assert(a@.subrange(0, 2)[0] == b@.subrange(0, 2)[0]);
        assert(a@.subrange(0, 2)[1] == b@.subrange(0, 2)[1]);
    }
    if name == other && a[0] == b[0] && a[1] == b[1] {
        assert(a@.subrange(0, 2) =~= b@.subrange(0, 2));
    }
}

} // verus!

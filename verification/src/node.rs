//! A node: an identity, its messaging account and everything it knows.

use crate::bytes::key_lt;
#[allow(unused_imports)]
use crate::bytes::lex_lt;
use crate::protocol::PeerKey;
use crate::ratchet::{is_prekey, MessagingAccount, RatchetError, RatchetSession};
#[allow(unused_imports)]
use crate::ratchet::{
    chain_of, ciphertext_of, is_accepted, is_ciphertext, is_opening, opening_key, spent, Messages,
    PreKeyBundle, MAX_SKIPPED, PREKEY_TYPE,
};
use crate::state::State;
#[allow(unused_imports)]
use crate::state::StateModel;
use vstd::prelude::*;

verus! {

/// A node.
pub struct Node {
    pub id: PeerKey,
    pub messaging: MessagingAccount,
    pub state: State,
}

/// Why nothing was encrypted or decrypted.
#[derive(Debug, PartialEq, Eq)]
pub enum SessionError {
    /// The peer has not published a bundle on this connection yet.
    NoBundle,
    /// The ratchet refused.
    Ratchet(RatchetError),
}

impl SessionError {
    /// The message for people when a message was to be sent.
    pub fn send_message(&self) -> (r: String)
        ensures
            r@ == match *self {
                SessionError::NoBundle => "no pre-key bundle for peer; handshake incomplete"@,
                SessionError::Ratchet(e) => e.text(),
            },
    {
        match self {
            SessionError::NoBundle => "no pre-key bundle for peer; handshake incomplete".to_owned(),
            SessionError::Ratchet(e) => e.message(),
        }
    }
}

/// What decryption gave.
#[derive(Debug, PartialEq, Eq)]
pub struct Decrypted {
    pub plaintext: Vec<u8>,
    /// A new session was accepted, so the messaging account has changed.
    pub accepted: bool,
}

impl StateModel {
    /// The same but for the sessions with one peer.
    pub open spec fn same_but_sessions(self, other: Self, peer: PeerKey) -> bool {
        &&& self == (StateModel {
            sessions: self.sessions,
            inbound_sessions: self.inbound_sessions,
            ..other
        })
        &&& self.sessions.remove(peer) == other.sessions.remove(peer)
        &&& self.inbound_sessions.remove(peer) == other.inbound_sessions.remove(peer)
    }

    /// Sessions with the same peers.
    pub open spec fn same_session_peers(self, other: Self) -> bool {
        &&& self.sessions.dom() == other.sessions.dom()
        &&& self.inbound_sessions.dom() == other.inbound_sessions.dom()
    }

    /// After a session that the peer opened was accepted. With no session of
    /// ours it is the one that we send on. With two, the one that the peer with
    /// the smaller id opened wins; if that is ours, the other is kept to read
    /// on.
    pub open spec fn with_accepted(self, me: PeerKey, peer: PeerKey, session: RatchetSession) -> Self {
        if !self.sessions.contains_key(peer) || lex_lt(peer@, me@) {
            StateModel { sessions: self.sessions.insert(peer, session), ..self }
        } else {
            StateModel { inbound_sessions: self.inbound_sessions.insert(peer, session), ..self }
        }
    }
}

impl StateModel {
    /// A session with the peer that is there can decrypt the ciphertext to the
    /// plaintext.
    pub open spec fn can_read(self, peer: PeerKey, ciphertext: Seq<u8>, plaintext: Seq<u8>) -> bool {
        ||| self.sessions.contains_key(peer) && self.sessions[peer].decrypts(ciphertext, plaintext)
        ||| self.inbound_sessions.contains_key(peer) && self.inbound_sessions[peer].decrypts(
            ciphertext,
            plaintext,
        )
    }

    /// What the account finds in the ciphertext if it opens a session from the
    /// peer, whose identity key is that of its bundle.
    pub open spec fn opening_of(self, account: MessagingAccount, peer: PeerKey, ciphertext: Seq<u8>) -> Option<
        Seq<u8>,
    > {
        if self.bundles.contains_key(peer) {
            account.opens(self.bundles[peer].identity_key@, ciphertext)
        } else {
            None
        }
    }

    /// The error on a ciphertext of the peer that nothing can read. With a
    /// session that we send on, and without the type byte of a pre-key message,
    /// it is that of the session; otherwise that of the attempt to accept a new
    /// one.
    pub open spec fn refuses(self, peer: PeerKey, ciphertext: Seq<u8>, e: SessionError) -> bool {
        let prekey = ciphertext.len() > 0 && ciphertext[0] == PREKEY_TYPE;
        if self.sessions.contains_key(peer) && !prekey {
            if is_ciphertext(ciphertext) {
                e matches SessionError::Ratchet(RatchetError::Decryption(_))
            } else {
                e == SessionError::Ratchet(RatchetError::Malformed)
            }
        } else if !self.bundles.contains_key(peer) {
            e == SessionError::NoBundle
        } else if !is_ciphertext(ciphertext) {
            e == SessionError::Ratchet(RatchetError::Malformed)
        } else if prekey {
            e matches SessionError::Ratchet(RatchetError::SessionCreation(_))
        } else {
            e == SessionError::Ratchet(RatchetError::NotPreKey)
        }
    }

    /// The sessions with the peer that were there before are unharmed.
    pub open spec fn keeps_sessions(self, before: Self, peer: PeerKey) -> bool {
        &&& before.sessions.contains_key(peer) ==> self.sessions[peer].unharmed(
            before.sessions[peer],
        )
        &&& before.inbound_sessions.contains_key(peer) ==> self.inbound_sessions[peer].unharmed(
            before.inbound_sessions[peer],
        )
    }

    /// How a ciphertext of the peer that could be read has changed the
    /// sessions: a session that was there has read it, or it opened a new one,
    /// which was accepted and put where it belongs. The sessions that have not
    /// read it are unharmed.
    pub open spec fn read_from(
        self,
        before: Self,
        account: MessagingAccount,
        me: PeerKey,
        peer: PeerKey,
        ciphertext: Seq<u8>,
        plaintext: Seq<u8>,
        accepted: bool,
    ) -> bool {
        &&& is_ciphertext(ciphertext)
        &&& self.same_but_sessions(before, peer)
        &&& if accepted {
            &&& ciphertext[0] == PREKEY_TYPE
            &&& before.opening_of(account, peer, ciphertext) == Some(plaintext)
            &&& exists|s: StateModel, session: RatchetSession|
                {
                    &&& s.same_but_sessions(before, peer)
                    &&& s.same_session_peers(before)
                    &&& s.keeps_sessions(before, peer)
                    &&& self == #[trigger] s.with_accepted(me, peer, session)
                    &&& is_accepted(
                        session,
                        account,
                        before.bundles[peer].identity_key@,
                        ciphertext,
                    )
                }
        } else {
            &&& self.same_session_peers(before)
            &&& before.can_read(peer, ciphertext, plaintext)
            &&& before.sessions.contains_key(peer) ==> {
                ||| self.sessions[peer].unharmed(before.sessions[peer])
                ||| before.sessions[peer].decrypts(ciphertext, plaintext)
            }
            &&& before.inbound_sessions.contains_key(peer) ==> {
                ||| self.inbound_sessions[peer].unharmed(before.inbound_sessions[peer])
                ||| before.inbound_sessions[peer].decrypts(ciphertext, plaintext)
            }
        }
    }
}

/// What is done with a ciphertext that the sessions that there are have tried.
#[derive(Debug, PartialEq, Eq)]
pub enum ReadStep {
    /// It was read.
    Read(Vec<u8>),
    /// It is tried as the opening of a session by the account with this key.
    Open([u8; 32]),
    /// It is given up.
    GiveUp(SessionError),
}

/// Decides what is done with a ciphertext, from what the session that we send
/// on and the session that is kept to read on made of it, where they are there,
/// whether it is a pre-key message, and the messaging key of the peer.
pub fn after_trying(
    sending: Option<Result<Vec<u8>, RatchetError>>,
    reading: Option<Vec<u8>>,
    prekey: bool,
    key: Option<[u8; 32]>,
) -> (r: ReadStep)
    ensures
        r == match (sending, reading) {
            (Some(Ok(plaintext)), _) => ReadStep::Read(plaintext),
            (_, Some(plaintext)) => ReadStep::Read(plaintext),
            (Some(Err(e)), None) if !prekey => ReadStep::GiveUp(SessionError::Ratchet(e)),
            _ => match key {
                Some(key) => ReadStep::Open(key),
                None => ReadStep::GiveUp(SessionError::NoBundle),
            },
        },
{
    let failed = match sending {
        Some(Ok(plaintext)) => return ReadStep::Read(plaintext),
        Some(Err(e)) => Some(e),
        None => None,
    };
    if let Some(plaintext) = reading {
        return ReadStep::Read(plaintext);
    }
    if let Some(e) = failed {
        if !prekey {
            return ReadStep::GiveUp(SessionError::Ratchet(e));
        }
    }
    match key {
        Some(key) => ReadStep::Open(key),
        None => ReadStep::GiveUp(SessionError::NoBundle),
    }
}

impl State {
    /// Puts a session that the peer opened where it belongs.
    pub fn place_session(&mut self, me: &PeerKey, peer: PeerKey, session: RatchetSession)
        ensures
            final(self)@ == old(self)@.with_accepted(*me, peer, session),
    {
        let ghost before = self@;
        if !self.sessions.contains(&peer) || key_lt(&peer, me) {
            self.sessions.insert(peer, session);
        } else {
            self.inbound_sessions.insert(peer, session);
        }
        assert(self@ =~= before.with_accepted(*me, peer, session));
    }

    /// Decrypts on the session that we send on, where there is one.
    fn try_session(&mut self, peer: PeerKey, ciphertext: &[u8]) -> (r: Option<
        Result<Vec<u8>, RatchetError>,
    >)
        ensures
            final(self)@.same_but_sessions(old(self)@, peer),
            final(self)@.same_session_peers(old(self)@),
            r is Some <==> old(self)@.sessions.contains_key(peer),
            r matches Some(Ok(plaintext)) ==> is_ciphertext(ciphertext@) && old(
                self,
            )@.sessions[peer].decrypts(ciphertext@, plaintext@),
            final(self)@.inbound_sessions == old(self)@.inbound_sessions,
            r matches Some(Err(RatchetError::Decryption(_))) ==> is_ciphertext(ciphertext@),
            r matches Some(Err(RatchetError::Malformed)) ==> !is_ciphertext(ciphertext@),
            r matches Some(Err(e)) ==> {
                &&& e is Decryption || e is Malformed
                &&& final(self)@.sessions[peer].unharmed(old(self)@.sessions[peer])
            },
            forall|from: RatchetSession, messages: Messages, i: int|
                old(self)@.sessions.contains_key(peer) && #[trigger] old(
                    self,
                )@.sessions[peer].expects(from, messages, i, ciphertext@) ==> {
                    &&& r matches Some(Ok(plaintext))
                    &&& plaintext@ == messages[i].1
                    &&& final(self)@.sessions[peer].awaits(from, messages.remove(i))
                },
    {
        let ghost before = self@;
        match self.sessions.remove(&peer) {
            Some(session) => {
                let mut session = session;
                let r = session.decrypt(ciphertext);
                self.sessions.insert(peer, session);
                proof {
                    assert(self@.sessions.remove(peer) =~= before.sessions.remove(peer));
                    assert(self@.sessions.dom() =~= before.sessions.dom());
                    assert(self@ =~= (StateModel {
                        sessions: self@.sessions,
                        inbound_sessions: self@.inbound_sessions,
                        ..before
                    }));
                }
                Some(r)
            },
            None => {
                assert(self@.sessions =~= before.sessions);
                assert(self@ =~= before);
                None
            },
        }
    }

    /// Decrypts on the session that is kept to read on, where there is one.
    fn try_inbound(&mut self, peer: PeerKey, ciphertext: &[u8]) -> (r: Option<Vec<u8>>)
        ensures
            final(self)@.same_but_sessions(old(self)@, peer),
            final(self)@.same_session_peers(old(self)@),
            final(self)@.sessions == old(self)@.sessions,
            r matches Some(plaintext) ==> old(self)@.inbound_sessions.contains_key(peer)
                && is_ciphertext(ciphertext@) && old(self)@.inbound_sessions[peer].decrypts(
                ciphertext@,
                plaintext@,
            ),
            r is None && old(self)@.inbound_sessions.contains_key(peer)
                ==> final(self)@.inbound_sessions[peer].unharmed(
                old(self)@.inbound_sessions[peer],
            ),
            forall|from: RatchetSession, messages: Messages, i: int|
                old(self)@.inbound_sessions.contains_key(peer) && #[trigger] old(
                    self,
                )@.inbound_sessions[peer].expects(from, messages, i, ciphertext@) ==> {
                    &&& r matches Some(plaintext)
                    &&& plaintext@ == messages[i].1
                    &&& final(self)@.inbound_sessions[peer].awaits(from, messages.remove(i))
                },
    {
        let ghost before = self@;
        match self.inbound_sessions.remove(&peer) {
            Some(session) => {
                let mut session = session;
                let r = session.decrypt(ciphertext);
                self.inbound_sessions.insert(peer, session);
                proof {
                    assert(self@.inbound_sessions.remove(peer) =~= before.inbound_sessions.remove(
                        peer,
                    ));
                    assert(self@.inbound_sessions.dom() =~= before.inbound_sessions.dom());
                    assert(self@ =~= (StateModel {
                        sessions: self@.sessions,
                        inbound_sessions: self@.inbound_sessions,
                        ..before
                    }));
                }
                match r {
                    Ok(plaintext) => Some(plaintext),
                    Err(_) => None,
                }
            },
            None => {
                assert(self@.inbound_sessions =~= before.inbound_sessions);
                assert(self@ =~= before);
                None
            },
        }
    }
}

impl Node {
    /// Encrypts for a peer: on the session that we send on, or on a new one
    /// that we open with the bundle of the peer.
    pub fn encrypt_for(&mut self, peer: PeerKey, plaintext: &[u8]) -> (r: Result<
        Vec<u8>,
        SessionError,
    >)
        ensures
            final(self).id == old(self).id,
            final(self).messaging == old(self).messaging,
            final(self).state@.same_but_sessions(old(self).state@, peer),
            final(self).state@.inbound_sessions == old(self).state@.inbound_sessions,
            r == Err::<Vec<u8>, SessionError>(SessionError::NoBundle) <==> !old(
                self,
            ).state@.sessions.contains_key(peer) && !old(self).state@.bundles.contains_key(peer),
            match r {
                Ok(wire) => {
                    &&& final(self).state@.sessions.dom() == old(self).state@.sessions.dom().insert(
                        peer,
                    )
                    &&& is_ciphertext(wire@)
                    &&& if old(self).state@.sessions.contains_key(peer) {
                        old(self).state@.sessions[peer].encrypts(plaintext@, wire@)
                    } else {
                        is_opening(
                            old(self).messaging@.identity_key,
                            old(self).state@.bundles[peer],
                            plaintext@,
                            wire@,
                        )
                    }
                },
                Err(e) => {
                    &&& final(self).state@.sessions.dom() == old(self).state@.sessions.dom()
                    &&& match e {
                        SessionError::NoBundle => true,
                        SessionError::Ratchet(RatchetError::Encryption(_)) => old(
                            self,
                        ).state@.sessions.contains_key(peer),
                        SessionError::Ratchet(RatchetError::SessionCreation(_)) => !old(
                            self,
                        ).state@.sessions.contains_key(peer),
                        _ => false,
                    }
                },
            },
            forall|to: RatchetSession, messages: Messages|
                old(self).state@.sessions.contains_key(peer) && #[trigger] to.awaits(
                    old(self).state@.sessions[peer],
                    messages,
                ) ==> {
                    &&& r matches Ok(wire)
                    &&& final(self).state@.sessions[peer].sent_to(
                        old(self).state@.sessions[peer],
                        to,
                        messages,
                        plaintext@,
                        wire@,
                    )
                },
            r matches Ok(wire) ==> final(self).state@.sessions[peer].chain() == Some(
                chain_of(ciphertext_of(wire@)->0),
            ),
            forall|ours: Seq<u8>, bundle: PreKeyBundle, sent: Messages|
                old(self).state@.sessions.contains_key(peer) && #[trigger] old(
                    self,
                ).state@.sessions[peer].opened_with(ours, bundle, sent) ==> {
                    &&& r matches Ok(wire)
                    &&& wire@[0] == PREKEY_TYPE
                    &&& final(self).state@.sessions[peer].opened_with(
                        ours,
                        bundle,
                        sent.push((ciphertext_of(wire@)->0, plaintext@)),
                    )
                    &&& sent.len() > 0 ==> chain_of(ciphertext_of(wire@)->0) == chain_of(sent[0].0)
                    &&& sent.len() <= MAX_SKIPPED ==> forall|b: MessagingAccount|
                        b.owns(bundle) ==> #[trigger] b.opens(ours, wire@) == Some(plaintext@)
                },
            forall|from: RatchetSession, messages: Messages|
                old(self).state@.sessions.contains_key(peer) && #[trigger] old(
                    self,
                ).state@.sessions[peer].awaits(from, messages)
                    ==> final(self).state@.sessions[peer].awaits(from, messages),
            !old(self).state@.sessions.contains_key(peer) ==> (r matches Ok(wire) ==>
                final(self).state@.sessions[peer].opened_with(
                old(self).messaging@.identity_key,
                old(self).state@.bundles[peer],
                seq![(ciphertext_of(wire@)->0, plaintext@)],
            )),
            forall|b: MessagingAccount|
                !old(self).state@.sessions.contains_key(peer) && old(
                    self,
                ).state@.bundles.contains_key(peer) && #[trigger] b.owns(
                    old(self).state@.bundles[peer],
                ) ==> r is Ok,
    {
        let ghost before = self.state@;
        if let Some(session) = self.state.sessions.remove(&peer) {
            let mut session = session;
            let r = session.encrypt(plaintext);
            self.state.sessions.insert(peer, session);
            proof {
                assert(self.state@.sessions.remove(peer) =~= before.sessions.remove(peer));
                assert(self.state@.sessions.dom() =~= before.sessions.dom());
                assert(before.sessions.dom().insert(peer) =~= before.sessions.dom());
                assert(self.state@ =~= (StateModel {
                    sessions: self.state@.sessions,
                    inbound_sessions: self.state@.inbound_sessions,
                    ..before
                }));
            }
            return match r {
                Ok(wire) => Ok(wire),
                Err(e) => Err(SessionError::Ratchet(e)),
            };
        }
        proof {
            assert(self.state@.sessions =~= before.sessions);
            assert(self.state@ =~= before);
        }
        let bundle = match self.state.bundles.get(&peer) {
            Some(bundle) => *bundle,
            None => return Err(SessionError::NoBundle),
        };
        match RatchetSession::initiate(&self.messaging, &bundle, plaintext) {
            Ok((session, wire)) => {
                self.state.sessions.insert(peer, session);
                proof {
                    assert(self.state@.sessions.remove(peer) =~= before.sessions.remove(peer));
                    assert(self.state@.sessions.dom() =~= before.sessions.dom().insert(peer));
                    assert(self.state@ =~= (StateModel {
                        sessions: self.state@.sessions,
                        inbound_sessions: self.state@.inbound_sessions,
                        ..before
                    }));
                }
                Ok(wire)
            },
            Err(e) => Err(SessionError::Ratchet(e)),
        }
    }

    /// Decrypts what a peer sent: on the sessions that there are, or on a new
    /// one that the peer opens with this very message. A pre-key message that
    /// no session can read is always tried as the opening of a new one, so that
    /// what it carries is not lost when both peers open sessions at once.
    pub fn decrypt_payload(&mut self, peer: PeerKey, ciphertext: &[u8]) -> (r: Result<
        Decrypted,
        SessionError,
    >)
        ensures
            final(self).id == old(self).id,
            final(self).state@.same_but_sessions(old(self).state@, peer),
            if r is Ok && r->Ok_0.accepted {
                spent(old(self).messaging@, final(self).messaging@, opening_key(ciphertext@)->0)
            } else {
                final(self).messaging@ == old(self).messaging@
            },
            match r {
                Ok(d) => final(self).state@.read_from(
                    old(self).state@,
                    old(self).messaging,
                    old(self).id,
                    peer,
                    ciphertext@,
                    d.plaintext@,
                    d.accepted,
                ),
                Err(e) => {
                    &&& old(self).state@.opening_of(old(self).messaging, peer, ciphertext@) is None
                    &&& final(self).state@.same_session_peers(old(self).state@)
                    &&& final(self).state@.keeps_sessions(old(self).state@, peer)
                    &&& old(self).state@.refuses(peer, ciphertext@, e)
                },
            },
            !is_ciphertext(ciphertext@) ==> r is Err,
            forall|from: RatchetSession, messages: Messages, i: int|
                old(self).state@.sessions.contains_key(peer) && #[trigger] old(
                    self,
                ).state@.sessions[peer].expects(from, messages, i, ciphertext@) ==> {
                    &&& r matches Ok(d)
                    &&& d.plaintext@ == messages[i].1
                    &&& !d.accepted
                    &&& final(self).state@.sessions[peer].awaits(from, messages.remove(i))
                },
            forall|from: RatchetSession, messages: Messages, i: int|
                old(self).state@.inbound_sessions.contains_key(peer) && #[trigger] old(
                    self,
                ).state@.inbound_sessions[peer].expects(from, messages, i, ciphertext@) ==> {
                    &&& r matches Ok(d)
                    &&& !d.accepted
                    &&& {
                        ||| old(self).state@.sessions.contains_key(peer) && old(
                            self,
                        ).state@.sessions[peer].decrypts(ciphertext@, d.plaintext@)
                        ||| d.plaintext@ == messages[i].1
                            && final(self).state@.inbound_sessions[peer].awaits(
                            from,
                            messages.remove(i),
                        )
                    }
                },
    {
        let ghost before = self.state@;
        proof {
            if before.bundles.contains_key(peer) {
                self.messaging.opens_only_prekey(
                    before.bundles[peer].identity_key@,
                    ciphertext@,
                );
            }
        }
        let sending = self.state.try_session(peer, ciphertext);
        let reading = if let Some(Ok(_)) = &sending {
            None
        } else {
            self.state.try_inbound(peer, ciphertext)
        };
        let key = match self.state.bundles.get(&peer) {
            Some(bundle) => Some(bundle.identity_key),
            None => None,
        };
        let key = match after_trying(sending, reading, is_prekey(ciphertext), key) {
            ReadStep::Read(plaintext) => return Ok(Decrypted { plaintext, accepted: false }),
            ReadStep::Open(key) => key,
            ReadStep::GiveUp(e) => return Err(e),
        };
        match RatchetSession::accept(&mut self.messaging, key, ciphertext) {
            Ok((session, plaintext)) => {
                let ghost tried = self.state@;
                self.state.place_session(&self.id, peer, session);
                proof {
                    assert(self.state@.sessions.remove(peer) =~= before.sessions.remove(peer));
                    assert(self.state@.inbound_sessions.remove(peer)
                        =~= before.inbound_sessions.remove(peer));
                    assert(self.state@ =~= (StateModel {
                        sessions: self.state@.sessions,
                        inbound_sessions: self.state@.inbound_sessions,
                        ..before
                    }));
                    assert(self.state@ == tried.with_accepted(self.id, peer, session));
                }
                Ok(Decrypted { plaintext, accepted: true })
            },
            Err(e) => Err(SessionError::Ratchet(e)),
        }
    }
}

} // verus!

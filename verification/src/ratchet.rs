//! End-to-end message encryption with the Olm double ratchet.
//!
//! Each peer keeps one long-lived [`MessagingAccount`]. To talk to a peer one
//! takes their [`PreKeyBundle`] and calls [`RatchetSession::initiate`]; they
//! call [`RatchetSession::accept`] on the first message. On the wire a
//! ciphertext is one byte for the type of the message, followed by the bytes
//! of the Olm message.

use vodozemac::olm::{Account, AccountPickle, OlmMessage, PreKeyMessage, Session, SessionConfig};
use vodozemac::Curve25519PublicKey;
use vstd::prelude::*;

verus! {

/// Why the ratchet refused.
#[derive(Debug, PartialEq, Eq)]
pub enum RatchetError {
    SessionCreation(String),
    Encryption(String),
    Decryption(String),
    /// A pre-key (handshake) message was expected.
    NotPreKey,
    /// The bytes are no ciphertext.
    Malformed,
}

impl RatchetError {
    /// The message for people, as a mathematical value.
    pub open spec fn text(self) -> Seq<char> {
        match self {
            RatchetError::SessionCreation(s) => "session creation failed: "@ + s@,
            RatchetError::Encryption(s) => "encryption failed: "@ + s@,
            RatchetError::Decryption(s) => "decryption failed: "@ + s@,
            RatchetError::NotPreKey => "expected a pre-key (handshake) message"@,
            RatchetError::Malformed => "malformed ciphertext"@,
        }
    }

    /// The message for people.
    pub fn message(&self) -> (r: String)
        ensures
            r@ == self.text(),
    {
        match self {
            RatchetError::SessionCreation(s) => "session creation failed: ".to_owned().concat(
                s.as_str(),
            ),
            RatchetError::Encryption(s) => "encryption failed: ".to_owned().concat(s.as_str()),
            RatchetError::Decryption(s) => "decryption failed: ".to_owned().concat(s.as_str()),
            RatchetError::NotPreKey => "expected a pre-key (handshake) message".to_owned(),
            RatchetError::Malformed => "malformed ciphertext".to_owned(),
        }
    }
}

/// `vodozemac::olm::Account`.
#[verifier::external_type_specification]
#[verifier::external_body]
pub struct ExAccount(vodozemac::olm::Account);

/// `vodozemac::olm::Session`.
#[verifier::external_type_specification]
#[verifier::external_body]
pub struct ExSession(vodozemac::olm::Session);

/// `vodozemac::olm::OlmMessage`.
#[verifier::external_type_specification]
#[verifier::external_body]
pub struct ExOlmMessage(vodozemac::olm::OlmMessage);

/// `vodozemac::olm::PreKeyMessage`.
#[verifier::external_type_specification]
#[verifier::external_body]
pub struct ExPreKeyMessage(vodozemac::olm::PreKeyMessage);

/// `vodozemac::DecodeError`.
#[verifier::external_type_specification]
#[verifier::external_body]
pub struct ExDecodeError(vodozemac::DecodeError);

/// An Olm message of one of its two types.
pub enum Ciphertext {
    PreKey(PreKeyMessage),
    Normal(OlmMessage),
}

/// The type byte of a pre-key message.
pub const PREKEY_TYPE: u8 = 0;

/// The type byte of a normal message.
pub const NORMAL_TYPE: u8 = 1;

/// The most one-time keys that an account keeps.
pub const MAX_ONE_TIME_KEYS: usize = 5000;

/// The most messages that may be skipped before one that opens a session.
pub const MAX_SKIPPED: usize = 2000;

/// How many of the messages that are yet to be read may be read in any order.
pub const MAX_KEPT: usize = 40;

/// Messages with their plaintexts.
pub type Messages = Seq<(Ciphertext, Seq<u8>)>;

/// What an account holds, as a mathematical value.
#[verifier::ext_equal]
pub ghost struct AccountModel {
    /// The public identity key.
    pub identity_key: Seq<u8>,
    /// The one-time keys that can be used: their secrets are found by them.
    pub one_time_keys: Set<Seq<u8>>,
    /// The one-time keys that wait to be published.
    pub unpublished: Set<Seq<u8>>,
    /// The account numbers its one-time keys one to one, and below the next
    /// number.
    pub orderly: bool,
    /// How many more one-time keys can be numbered before the numbers start
    /// anew.
    pub room: nat,
}

impl AccountModel {
    /// An orderly account without one-time keys.
    pub open spec fn is_bare(self) -> bool {
        &&& self.orderly
        &&& self.one_time_keys == Set::<Seq<u8>>::empty()
        &&& self.unpublished == Set::<Seq<u8>>::empty()
    }
}

/// The Olm message of the given type that the bytes are, if they are one.
pub uninterp spec fn olm_message(kind: u8, body: Seq<u8>) -> Option<Ciphertext>;

/// The ratchet key of a message, which names the chain that it is on.
pub uninterp spec fn chain_of(message: Ciphertext) -> Seq<u8>;

/// The one-time key that a pre-key message names, as its bytes stand in the
/// message.
pub uninterp spec fn used_key(message: PreKeyMessage) -> Seq<u8>;

/// What an account holds.
pub uninterp spec fn account_model(account: Account) -> AccountModel;

/// What the JSON pickle of an account holds, if the bytes are one.
pub uninterp spec fn pickled_account(json: Seq<u8>) -> Option<AccountModel>;

/// The identity key in the JSON pickle of an account, if the bytes are one.
pub open spec fn pickled_identity(json: Seq<u8>) -> Option<Seq<u8>> {
    match pickled_account(json) {
        Some(m) => Some(m.identity_key),
        None => None,
    }
}

/// The session is one that an account with the key `ours` opens towards an
/// account with the key `theirs` and one of its one-time keys. What was sent on
/// it are these messages with these plaintexts, and nothing was received.
pub uninterp spec fn outbound(
    session: Session,
    ours: Seq<u8>,
    theirs: Seq<u8>,
    one_time_key: Seq<u8>,
    sent: Messages,
) -> bool;

/// The two are the ends of one channel: whatever either has decrypted the other
/// has sent, and `to` has decrypted all that `from` has sent but for these
/// messages with these plaintexts, which are in the order in which they were
/// sent, and whose keys `to` has kept or can still derive. No message of `from`
/// was sent under a key that repeats.
pub uninterp spec fn outstanding(from: Session, to: Session, messages: Messages) -> bool;

/// The session keeps a chain under the ratchet key of the message, but the
/// message is not on that chain: it starts a new one whose random key happens
/// to be the same.
pub uninterp spec fn key_repeats(session: Session, message: Ciphertext) -> bool;

/// The ratchet key under which the session has sent something and will send
/// next, where it has not received a newer one since.
pub uninterp spec fn sending_chain(session: Session) -> Option<Seq<u8>>;

/// The plaintext that an account finds in a message that opens a session, if
/// it can accept the session.
pub uninterp spec fn inbound_plaintext(
    account: Account,
    theirs: Seq<u8>,
    message: PreKeyMessage,
) -> Option<Seq<u8>>;

/// The session can encrypt the plaintext to this message.
pub uninterp spec fn session_encrypts(
    session: Session,
    plaintext: Seq<u8>,
    kind: u8,
    body: Seq<u8>,
) -> bool;

/// The session can decrypt the message to this plaintext.
pub uninterp spec fn session_decrypts(
    session: Session,
    message: Ciphertext,
    plaintext: Seq<u8>,
) -> bool;

/// `vodozemac::olm::OlmMessage::from_parts`: the named message, or the error
/// where there is none. Type 0 is a pre-key message, type 1 a normal one, and
/// there is no other.
#[verifier::external_body]
fn parse_message(kind: u8, body: &[u8]) -> (r: Result<Ciphertext, vodozemac::DecodeError>)
    ensures
        match r {
            Ok(message) => olm_message(kind, body@) == Some(message),
            Err(_) => olm_message(kind, body@) is None,
        },
        match r {
            Ok(Ciphertext::PreKey(_)) => kind == PREKEY_TYPE,
            Ok(Ciphertext::Normal(_)) => kind == NORMAL_TYPE,
            Err(_) => true,
        },
{
    OlmMessage::from_parts(kind as usize, body).map(|message| match message {
        OlmMessage::PreKey(m) => Ciphertext::PreKey(m),
        OlmMessage::Normal(m) => Ciphertext::Normal(OlmMessage::Normal(m)),
    })
}

/// The type byte and the bytes of an Olm message.
pub struct Parts {
    pub kind: u8,
    pub body: Vec<u8>,
}

/// The bytes are a message that opens a session with the one-time key, and every
/// account that can be reached with this key and one-time key finds the
/// plaintext in it.
pub open spec fn first_for(
    ours: Seq<u8>,
    theirs: Seq<u8>,
    one_time_key: Seq<u8>,
    body: Seq<u8>,
    plaintext: Seq<u8>,
) -> bool {
    &&& olm_message(PREKEY_TYPE, body) matches Some(Ciphertext::PreKey(message))
    &&& used_key(message) == one_time_key
    &&& forall|b: Account|
        account_model(b).identity_key == theirs && account_model(b).one_time_keys.contains(
            one_time_key,
        ) ==> #[trigger] inbound_plaintext(b, ours, message) == Some(plaintext)
}

/// One of the messages that are yet to be read can be read now: it is among the
/// first 40, and all before it are on its chain. The first one always is.
pub open spec fn readable(messages: Messages, i: int) -> bool {
    &&& 0 <= i < messages.len()
    &&& i < MAX_KEPT
    &&& forall|j: int| 0 <= j < i ==> chain_of((#[trigger] messages[j]).0) == chain_of(messages[i].0)
}

/// `vodozemac::olm::Session::encrypt`, then `OlmMessage::to_parts`: a message
/// of type 0 or 1 for the plaintext, or the text of the error. The message can
/// be parsed again. The bytes rest on random keys. Messages are on one chain
/// until something newer is received.
///
/// Encryption fails only on a key that no account has, so not on a channel
/// between two accounts, nor before something was received. On a channel the
/// message joins those that the other end has yet to decrypt, unless it starts
/// a chain under a key that repeats, which can only happen after something was
/// received on both sides; and what is yet to be decrypted here stays. Until
/// something is received the messages are pre-key messages on one chain, and in
/// each of the first 2001 the account that the session was opened towards finds
/// the plaintext.
#[verifier::external_body]
fn session_encrypt(session: &mut Session, plaintext: &[u8]) -> (r: Result<Parts, String>)
    ensures
        match r {
            Ok(parts) => {
                &&& parts.kind == PREKEY_TYPE || parts.kind == NORMAL_TYPE
                &&& olm_message(parts.kind, parts.body@) matches Some(message)
                &&& session_encrypts(*old(session), plaintext@, parts.kind, parts.body@)
                &&& sending_chain(*final(session)) == Some(chain_of(message))
                &&& sending_chain(*old(session)) is Some ==> sending_chain(*old(session))
                    == sending_chain(*final(session))
            },
            Err(_) => true,
        },
        forall|ours: Seq<u8>, theirs: Seq<u8>, one_time_key: Seq<u8>, sent: Messages| #[trigger]
            outbound(*old(session), ours, theirs, one_time_key, sent) ==> {
                &&& r matches Ok(parts)
                &&& parts.kind == PREKEY_TYPE
                &&& olm_message(parts.kind, parts.body@) matches Some(message)
                &&& outbound(
                    *final(session),
                    ours,
                    theirs,
                    one_time_key,
                    sent.push((message, plaintext@)),
                )
                &&& sent.len() > 0 ==> chain_of(message) == chain_of(sent[0].0)
                &&& sent.len() <= MAX_SKIPPED ==> first_for(
                    ours,
                    theirs,
                    one_time_key,
                    parts.body@,
                    plaintext@,
                )
            },
        forall|to: Session, messages: Messages| #[trigger]
            outstanding(*old(session), to, messages) ==> {
                &&& r matches Ok(parts)
                &&& olm_message(parts.kind, parts.body@) matches Some(message)
                &&& !key_repeats(to, message) ==> outstanding(
                    *final(session),
                    to,
                    messages.push((message, plaintext@)),
                )
                &&& sending_chain(*old(session)) is Some ==> !key_repeats(to, message)
                &&& forall|ours: Seq<u8>, theirs: Seq<u8>, one_time_key: Seq<u8>, sent: Messages|
                    #[trigger] outbound(to, ours, theirs, one_time_key, sent) ==> !key_repeats(
                        to,
                        message,
                    )
            },
        forall|from: Session, messages: Messages| #[trigger]
            outstanding(from, *old(session), messages) ==> outstanding(
                from,
                *final(session),
                messages,
            ),
{
    match session.encrypt(plaintext) {
        Ok(message) => {
            let (kind, body) = message.to_parts();
            Ok(Parts { kind: kind as u8, body })
        }
        Err(e) => Err(e.to_string()),
    }
}

/// What is outstanding on the channel of a session, and what was sent on it,
/// is the same after as before.
pub open spec fn undisturbed(before: Session, after: Session) -> bool {
    &&& forall|other: Session, messages: Messages| #[trigger]
        outstanding(other, before, messages) ==> outstanding(other, after, messages)
    &&& forall|other: Session, messages: Messages| #[trigger]
        outstanding(before, other, messages) ==> outstanding(after, other, messages)
    &&& forall|ours: Seq<u8>, theirs: Seq<u8>, one_time_key: Seq<u8>, sent: Messages| #[trigger]
        outbound(before, ours, theirs, one_time_key, sent) ==> outbound(
            after,
            ours,
            theirs,
            one_time_key,
            sent,
        )
    &&& sending_chain(before) is Some ==> sending_chain(after) == sending_chain(before)
}

/// `vodozemac::olm::Session::decrypt`: a plaintext that the session can decrypt
/// the message to, or the text of the error.
///
/// Of the messages that are outstanding on a channel, each of the first 40 that
/// has only messages of its own chain before it is decrypted to its plaintext,
/// and the others stay outstanding: the keys of up to 40 skipped messages of a
/// chain are kept. What is outstanding the other way stays. A failure changes
/// nothing of what is outstanding or was sent.
#[verifier::external_body]
fn session_decrypt(session: &mut Session, message: Ciphertext) -> (r: Result<Vec<u8>, String>)
    ensures
        match r {
            Ok(plaintext) => session_decrypts(*old(session), message, plaintext@),
            Err(_) => true,
        },
        forall|from: Session, messages: Messages, i: int|
            #![trigger outstanding(from, *old(session), messages), readable(messages, i)]
            outstanding(from, *old(session), messages) && readable(messages, i) && messages[i].0
                == message ==> {
                &&& r matches Ok(plaintext)
                &&& plaintext@ == messages[i].1
                &&& outstanding(from, *final(session), messages.remove(i))
                &&& forall|back: Messages| #[trigger]
                    outstanding(*old(session), from, back) ==> outstanding(
                        *final(session),
                        from,
                        back,
                    )
            },
        r is Err ==> undisturbed(*old(session), *final(session)),
{
    let message = match message {
        Ciphertext::PreKey(m) => OlmMessage::PreKey(m),
        Ciphertext::Normal(m) => m,
    };
    session.decrypt(&message).map_err(|e| e.to_string())
}

/// `vodozemac::olm::Account::create_outbound_session` with the first version of
/// the protocol: a fresh session on random keys towards the owner of the bundle,
/// or the text of the error. It fails only on a key that no account has.
#[verifier::external_body]
fn outbound_session(account: &Account, bundle: &PreKeyBundle) -> (r: Result<Session, String>)
    ensures
        match r {
            Ok(session) => outbound(
                session,
                account_model(*account).identity_key,
                bundle.identity_key@,
                bundle.one_time_key@,
                Seq::empty(),
            ),
            Err(_) => true,
        },
        forall|b: Account|
            (#[trigger] account_model(b)).identity_key == bundle.identity_key@ && account_model(
                b,
            ).one_time_keys.contains(bundle.one_time_key@) ==> r is Ok,
{
    let identity_key = Curve25519PublicKey::from_bytes(bundle.identity_key);
    let one_time_key = Curve25519PublicKey::from_bytes(bundle.one_time_key);
    account
        .create_outbound_session(SessionConfig::version_1(), identity_key, one_time_key)
        .map_err(|e| e.to_string())
}

/// How a session that was accepted has changed what the account holds. An
/// orderly account has used up one of its one-time keys at most: the one of the
/// message, where it holds that very key. A message can also name a key in
/// another encoding than the account holds it in, or a fallback key.
pub open spec fn spent(before: AccountModel, after: AccountModel, used: Seq<u8>) -> bool {
    &&& after.identity_key == before.identity_key
    &&& after.unpublished.subset_of(before.unpublished)
    &&& before.orderly ==> {
        &&& after.orderly
        &&& after.room == before.room
        &&& before.one_time_keys.contains(used) ==> after.one_time_keys
            == before.one_time_keys.remove(used)
        &&& after.one_time_keys == before.one_time_keys || exists|k: Seq<u8>|
            before.one_time_keys.contains(k) && after.one_time_keys
                == #[trigger] before.one_time_keys.remove(k)
    }
}

/// `vodozemac::olm::Account::create_inbound_session` with the first version of
/// the protocol: the session and the named plaintext of its message, or the text
/// of the error where there is none. Success uses up one one-time key at most,
/// which is that of the message where the account holds that very key; a failure
/// changes nothing.
///
/// Where the message is one of the first 40 that were sent on a session that was
/// opened towards this account with a key that it holds, it is accepted, and the
/// two are the ends of one channel, on which the other messages are outstanding.
#[verifier::external_body]
fn inbound_session(account: &mut Account, theirs: [u8; 32], message: PreKeyMessage) -> (r: Result<
    (Session, Vec<u8>),
    String,
>)
    ensures
        match r {
            Ok((_, plaintext)) => {
                &&& inbound_plaintext(*old(account), theirs@, message) == Some(plaintext@)
                &&& spent(
                    account_model(*old(account)),
                    account_model(*final(account)),
                    used_key(message),
                )
            },
            Err(_) => {
                &&& inbound_plaintext(*old(account), theirs@, message) is None
                &&& account_model(*final(account)) == account_model(*old(account))
            },
        },
        forall|from: Session, ours: Seq<u8>, one_time_key: Seq<u8>, sent: Messages, i: int|
            #![trigger outbound(from, theirs@, ours, one_time_key, sent), sent[i]]
            outbound(from, theirs@, ours, one_time_key, sent) && ours == account_model(
                *old(account),
            ).identity_key && account_model(*old(account)).one_time_keys.contains(one_time_key)
                && 0 <= i < sent.len() && i < MAX_KEPT && sent[i].0 == Ciphertext::PreKey(message)
                ==> {
                &&& r matches Ok((session, plaintext))
                &&& plaintext@ == sent[i].1
                &&& outstanding(from, session, sent.remove(i))
                &&& outstanding(session, from, Seq::empty())
            },
{
    let key = Curve25519PublicKey::from_bytes(theirs);
    account
        .create_inbound_session(SessionConfig::version_1(), key, &message)
        .map(|created| (created.session, created.plaintext))
        .map_err(|e| e.to_string())
}

/// `vodozemac::olm::Account::new`: a fresh account on random keys, orderly and
/// without one-time keys.
#[verifier::external_body]
fn new_account() -> (r: Account)
    ensures
        account_model(r).is_bare(),
        account_model(r).room == u64::MAX,
{
    Account::new()
}

/// `vodozemac::olm::Account::curve25519_key`: the identity key.
#[verifier::external_body]
fn account_key(account: &Account) -> (r: [u8; 32])
    ensures
        r@ == account_model(*account).identity_key,
{
    account.curve25519_key().to_bytes()
}

/// How a new one-time key has changed the keys that an account can use. An
/// orderly account with room keeps all its other keys while they are fewer than
/// 5000, and gives up one of them where they are not; and it stays orderly,
/// unless the random key happens to be one that it has.
pub open spec fn bundled(before: AccountModel, after: AccountModel, key: Seq<u8>) -> bool {
    &&& after.identity_key == before.identity_key
    &&& after.one_time_keys.contains(key)
    &&& before.orderly && before.room > 0 ==> {
        &&& after.room == before.room - 1
        &&& !before.one_time_keys.contains(key) ==> after.orderly
        &&& after.one_time_keys == before.one_time_keys.insert(key) || before.one_time_keys.len()
            >= MAX_ONE_TIME_KEYS && exists|x: Seq<u8>|
            before.one_time_keys.contains(x) && after.one_time_keys
                == #[trigger] before.one_time_keys.remove(x).insert(key)
    }
}

/// How a new one-time key has changed what an account holds: the key can be
/// used, and waits to be published.
pub open spec fn grown(before: AccountModel, after: AccountModel, key: Seq<u8>) -> bool {
    &&& bundled(before, after, key)
    &&& after.unpublished.contains(key)
    &&& after.unpublished.subset_of(before.unpublished.insert(key))
}

/// `vodozemac::olm::Account::generate_one_time_keys` for one key: a new random
/// one-time key.
#[verifier::external_body]
fn generate_one(account: &mut Account)
    ensures
        exists|key: Seq<u8>| #[trigger]
            grown(account_model(*old(account)), account_model(*final(account)), key),
{
    account.generate_one_time_keys(1);
}

/// `vodozemac::olm::Account::one_time_keys`: the one-time keys that wait to be
/// published, in any order.
#[verifier::external_body]
fn list_unpublished(account: &Account) -> (r: Vec<[u8; 32]>)
    ensures
        r@.map_values(|k: [u8; 32]| k@).to_set() == account_model(*account).unpublished,
{
    account.one_time_keys().values().map(|key| key.to_bytes()).collect()
}

/// `vodozemac::olm::Account::mark_keys_as_published`: no one-time key waits to be
/// published any more.
#[verifier::external_body]
fn mark_published(account: &mut Account)
    ensures
        account_model(*final(account)) == (AccountModel {
            unpublished: Set::empty(),
            ..account_model(*old(account))
        }),
{
    account.mark_keys_as_published();
}

/// The bytes are a pickle that holds what an account holds. Of one that is not
/// orderly it may hold more one-time keys than could be used.
pub open spec fn is_pickle(account: AccountModel, json: Seq<u8>) -> bool {
    &&& pickled_account(json) matches Some(pickle)
    &&& account.orderly ==> pickle == account
    &&& pickle.identity_key == account.identity_key
    &&& account.one_time_keys.subset_of(pickle.one_time_keys)
    &&& pickle.unpublished == account.unpublished
}

/// The most bytes of the pickle of an account without one-time keys.
pub const SMALL_PICKLE: usize = 4096;

/// `vodozemac::olm::Account::pickle` through `serde_json::to_vec`: a pickle of
/// the account. Without one-time keys it holds four secret keys at most, each as
/// an array of at most 64 numbers, and a few counters.
#[verifier::external_body]
fn pickle_account(account: &Account) -> (r: Vec<u8>)
    ensures
        is_pickle(account_model(*account), r@),
        account_model(*account).is_bare() ==> r@.len() <= SMALL_PICKLE,
{
    serde_json::to_vec(&account.pickle()).expect("account pickle serializes")
}

/// `vodozemac::olm::Account::from_pickle` through `serde_json::from_slice`: the
/// account that the pickle holds, by name, or the text of the error where the
/// bytes are no pickle.
#[verifier::external_body]
fn unpickle_account(json: &[u8]) -> (r: Result<Account, String>)
    ensures
        match r {
            Ok(account) => pickled_account(json@) == Some(account_model(account)),
            Err(_) => pickled_account(json@) is None,
        },
{
    let pickle: AccountPickle = serde_json::from_slice(json).map_err(|e| e.to_string())?;
    Ok(Account::from_pickle(pickle))
}

/// A peer's long-lived messaging keys. The view is what the account holds; the
/// identity key never changes.
pub struct MessagingAccount {
    inner: Account,
}

impl View for MessagingAccount {
    type V = AccountModel;

    closed spec fn view(&self) -> AccountModel {
        account_model(self.inner)
    }
}

/// What a peer publishes so that others can open a session with them.
#[derive(Debug, Clone, Copy, PartialEq, Eq)]
pub struct PreKeyBundle {
    pub identity_key: [u8; 32],
    pub one_time_key: [u8; 32],
}

impl MessagingAccount {
    /// The account holds the secret of a one-time key.
    pub open spec fn holds_key(self, one_time_key: Seq<u8>) -> bool {
        self@.one_time_keys.contains(one_time_key)
    }

    /// The bundle is one of this account, which still holds its one-time key.
    pub open spec fn owns(self, bundle: PreKeyBundle) -> bool {
        &&& self@.identity_key == bundle.identity_key@
        &&& self.holds_key(bundle.one_time_key@)
    }

    /// The plaintext that the account finds in a ciphertext with which a peer
    /// opens a session, if it can accept the session.
    pub closed spec fn opens(self, theirs: Seq<u8>, wire: Seq<u8>) -> Option<Seq<u8>> {
        match ciphertext_of(wire) {
            Some(Ciphertext::PreKey(message)) => if wire[0] == PREKEY_TYPE {
                inbound_plaintext(self.inner, theirs, message)
            } else {
                None
            },
            _ => None,
        }
    }

    /// Only a pre-key message opens a session.
    pub proof fn opens_only_prekey(self, theirs: Seq<u8>, wire: Seq<u8>)
        ensures
            self.opens(theirs, wire) is Some ==> is_ciphertext(wire) && wire[0] == PREKEY_TYPE,
    {
    }

    /// The bytes are a pickle of this account.
    pub open spec fn pickled(self, json: Seq<u8>) -> bool {
        is_pickle(self@, json)
    }

    /// A fresh account with new keys and without one-time keys.
    pub fn new() -> (r: Self)
        ensures
            r@.is_bare(),
            r@.room == u64::MAX,
    {
        MessagingAccount { inner: new_account() }
    }

    /// The public identity key.
    pub fn identity_key(&self) -> (r: [u8; 32])
        ensures
            r@ == self@.identity_key,
    {
        account_key(&self.inner)
    }

    /// A fresh bundle: our identity key and a new one-time key, whose secret we
    /// hold from now on. The keys of earlier bundles are kept, until there are
    /// 5000. An account that was restored from bytes in which one-time keys
    /// still wait to be published may hand out one of those instead.
    pub fn prekey_bundle(&mut self) -> (r: PreKeyBundle)
        ensures
            r.identity_key@ == old(self)@.identity_key,
            final(self)@.unpublished == Set::<Seq<u8>>::empty(),
            exists|key: Seq<u8>| #[trigger]
                bundled(old(self)@, final(self)@, key) && (r.one_time_key@ == key || old(
                    self,
                )@.unpublished.contains(r.one_time_key@)),
            old(self)@.unpublished == Set::<Seq<u8>>::empty() ==> bundled(
                old(self)@,
                final(self)@,
                r.one_time_key@,
            ),
    {
        let ghost before = account_model(self.inner);
        generate_one(&mut self.inner);
        let ghost mid = account_model(self.inner);
        let keys = list_unpublished(&self.inner);
        mark_published(&mut self.inner);
        proof {
            let key = choose|key: Seq<u8>| #[trigger] grown(before, mid, key);
            let views = keys@.map_values(|k: [u8; 32]| k@);
            assert(views.to_set().contains(key));
            assert(views.contains(key));
            assert(keys.len() > 0);
            assert(views.to_set().contains(views[0]));
            assert(bundled(before, account_model(self.inner), key));
        }
        PreKeyBundle { identity_key: account_key(&self.inner), one_time_key: keys[0] }
    }

    /// The account as bytes that must be encrypted before they are stored.
    pub fn to_pickle_json(&self) -> (r: Vec<u8>)
        ensures
            self.pickled(r@),
            pickled_identity(r@) == Some(self@.identity_key),
            self@.is_bare() ==> r@.len() <= SMALL_PICKLE,
    {
        pickle_account(&self.inner)
    }

    /// Restores an account from the bytes of [`MessagingAccount::to_pickle_json`].
    pub fn from_pickle_json(json: &[u8]) -> (r: Result<Self, RatchetError>)
        ensures
            match r {
                Ok(account) => pickled_account(json@) == Some(account@),
                Err(RatchetError::SessionCreation(_)) => pickled_account(json@) is None,
                Err(_) => false,
            },
    {
        match unpickle_account(json) {
            Ok(inner) => Ok(MessagingAccount { inner }),
            Err(e) => Err(
                RatchetError::SessionCreation("bad account pickle: ".to_owned().concat(e.as_str())),
            ),
        }
    }
}

impl Default for MessagingAccount {
    /// A fresh account with new keys and without one-time keys.
    fn default() -> (r: Self)
        ensures
            r@.is_bare(),
            r@.room == u64::MAX,
    {
        MessagingAccount::new()
    }
}

/// Whether a ciphertext is that of a pre-key message, by its type byte.
pub fn is_prekey(wire: &[u8]) -> (r: bool)
    ensures
        r == (wire@.len() > 0 && wire@[0] == PREKEY_TYPE),
{
    wire.len() > 0 && wire[0] == PREKEY_TYPE
}

/// The wire form of a message.
pub fn encode(parts: Parts) -> (r: Vec<u8>)
    ensures
        r@ == seq![parts.kind] + parts.body@,
{
    let mut out: Vec<u8> = Vec::new();
    out.push(parts.kind);
    out.extend_from_slice(parts.body.as_slice());
    assert(out@ =~= seq![parts.kind] + parts.body@);
    out
}

/// The Olm message in a ciphertext: a type byte and the bytes of a message of
/// that type.
pub open spec fn ciphertext_of(wire: Seq<u8>) -> Option<Ciphertext> {
    if wire.len() > 0 {
        olm_message(wire[0], wire.subrange(1, wire.len() as int))
    } else {
        None
    }
}

/// The bytes are a ciphertext.
pub open spec fn is_ciphertext(wire: Seq<u8>) -> bool {
    ciphertext_of(wire) is Some
}

/// Reads a ciphertext.
fn decode(wire: &[u8]) -> (r: Result<Ciphertext, RatchetError>)
    ensures
        match r {
            Ok(message) => {
                &&& ciphertext_of(wire@) == Some(message)
                &&& message is PreKey ==> wire@[0] == PREKEY_TYPE
                &&& message is Normal ==> wire@[0] == NORMAL_TYPE
            },
            Err(e) => !is_ciphertext(wire@) && e == RatchetError::Malformed,
        },
{
    if wire.len() == 0 {
        return Err(RatchetError::Malformed);
    }
    let (head, body) = wire.split_at(1);
    match parse_message(head[0], body) {
        Ok(message) => Ok(message),
        Err(_) => Err(RatchetError::Malformed),
    }
}

/// The wire form of what encryption gave.
pub fn encrypted(r: Result<Parts, String>) -> (wire: Result<Vec<u8>, RatchetError>)
    ensures
        match r {
            Ok(parts) => wire matches Ok(w) && w@ == seq![parts.kind] + parts.body@,
            Err(e) => wire == Err::<Vec<u8>, RatchetError>(RatchetError::Encryption(e)),
        },
{
    match r {
        Ok(parts) => Ok(encode(parts)),
        Err(e) => Err(RatchetError::Encryption(e)),
    }
}

/// An established session between two peers.
pub struct RatchetSession {
    inner: Session,
}

/// The one-time key with which the session of a ciphertext was opened, where it
/// is one that opens a session.
pub open spec fn opening_key(wire: Seq<u8>) -> Option<Seq<u8>> {
    match ciphertext_of(wire) {
        Some(Ciphertext::PreKey(message)) => Some(used_key(message)),
        _ => None,
    }
}

/// The ciphertext opens a session from the account with the key `ours` towards
/// the owner of the bundle and carries the plaintext: it is what a session that
/// was just opened with the bundle encrypts the plaintext to, and every account
/// of the owner that still holds the one-time key finds the plaintext in it.
pub open spec fn is_opening(ours: Seq<u8>, bundle: PreKeyBundle, plaintext: Seq<u8>, wire: Seq<u8>) -> bool {
    &&& is_ciphertext(wire)
    &&& wire[0] == PREKEY_TYPE
    &&& opening_key(wire) == Some(bundle.one_time_key@)
    &&& exists|s: RatchetSession|
        s.opened_with(ours, bundle, Seq::empty()) && s.encrypts(plaintext, wire)
    &&& forall|b: MessagingAccount| b.owns(bundle) ==> #[trigger] b.opens(ours, wire) == Some(
        plaintext,
    )
}

/// The session is the other end of every session of the account with the key
/// `theirs` on which the ciphertext was among the first 40: it has yet to read
/// the other messages that were sent on it, and has sent nothing itself.
pub open spec fn is_accepted(
    session: RatchetSession,
    account: MessagingAccount,
    theirs: Seq<u8>,
    wire: Seq<u8>,
) -> bool {
    forall|from: RatchetSession, bundle: PreKeyBundle, sent: Messages, i: int|
        #![trigger from.opened_with(theirs, bundle, sent), sent[i]]
        from.opened_with(theirs, bundle, sent) && account.owns(bundle) && 0 <= i < sent.len() && i
            < MAX_KEPT && ciphertext_of(wire) == Some(sent[i].0) ==> {
            &&& session.awaits(from, sent.remove(i))
            &&& from.awaits(session, Seq::empty())
        }
}

impl RatchetSession {
    /// The session was opened from the account with the key `ours` with this
    /// bundle. What was sent on it are these messages with these plaintexts,
    /// and nothing was received.
    pub closed spec fn opened_with(self, ours: Seq<u8>, bundle: PreKeyBundle, sent: Messages) -> bool {
        outbound(self.inner, ours, bundle.identity_key@, bundle.one_time_key@, sent)
    }

    /// The session and `from` are the ends of one channel, and the session has
    /// decrypted all that was sent on `from` but for these messages with these
    /// plaintexts, which are in the order in which they were sent.
    pub closed spec fn awaits(self, from: Self, messages: Messages) -> bool {
        outstanding(from.inner, self.inner, messages)
    }

    /// The ciphertext starts a new chain whose random key happens to be that of
    /// an older chain that the session keeps.
    pub closed spec fn repeats(self, wire: Seq<u8>) -> bool {
        ciphertext_of(wire) matches Some(message) && key_repeats(self.inner, message)
    }

    /// The ratchet key under which the session has sent and will send next,
    /// where it has not received a newer one since.
    pub closed spec fn chain(self) -> Option<Seq<u8>> {
        sending_chain(self.inner)
    }

    /// All that the session had to read can still be read, and so can what it
    /// sends.
    pub open spec fn unharmed(self, before: Self) -> bool {
        &&& forall|from: Self, messages: Messages| #[trigger]
            before.awaits(from, messages) ==> self.awaits(from, messages)
        &&& forall|to: Self, messages: Messages| #[trigger]
            to.awaits(before, messages) ==> to.awaits(self, messages)
        &&& forall|ours: Seq<u8>, bundle: PreKeyBundle, sent: Messages|
            #![trigger before.opened_with(ours, bundle, sent)]
            before.opened_with(ours, bundle, sent) ==> self.opened_with(ours, bundle, sent)
        &&& before.chain() is Some ==> self.chain() == before.chain()
    }

    /// The ciphertext is one that the session has yet to read on the channel
    /// with `from`, and can read now.
    pub open spec fn expects(self, from: Self, messages: Messages, i: int, wire: Seq<u8>) -> bool {
        &&& self.awaits(from, messages)
        &&& readable(messages, i)
        &&& ciphertext_of(wire) == Some(messages[i].0)
    }

    /// How sending a ciphertext has changed what the other end has yet to read.
    /// The message joins the others, unless it starts a chain under a key that
    /// repeats. That can happen only where the sender starts a new chain and
    /// the other end has received something.
    pub open spec fn sent_to(
        self,
        before: Self,
        to: Self,
        messages: Messages,
        plaintext: Seq<u8>,
        wire: Seq<u8>,
    ) -> bool {
        &&& !to.repeats(wire) ==> to.awaits(
            self,
            messages.push((ciphertext_of(wire)->0, plaintext)),
        )
        &&& before.chain() is Some ==> !to.repeats(wire)
        &&& forall|ours: Seq<u8>, bundle: PreKeyBundle, sent: Messages|
            #![trigger to.opened_with(ours, bundle, sent)]
            to.opened_with(ours, bundle, sent) ==> !to.repeats(wire)
    }

    /// The session can encrypt the plaintext to this ciphertext.
    pub closed spec fn encrypts(self, plaintext: Seq<u8>, wire: Seq<u8>) -> bool {
        wire.len() > 0 && session_encrypts(
            self.inner,
            plaintext,
            wire[0],
            wire.subrange(1, wire.len() as int),
        )
    }

    /// The session can decrypt the ciphertext to this plaintext.
    pub closed spec fn decrypts(self, wire: Seq<u8>, plaintext: Seq<u8>) -> bool {
        ciphertext_of(wire) matches Some(message) && session_decrypts(
            self.inner,
            message,
            plaintext,
        )
    }

    /// Opens a session towards a peer. The first ciphertext carries
    /// `first_plaintext`. It fails only on a bundle that is no account's.
    pub fn initiate(
        account: &MessagingAccount,
        bundle: &PreKeyBundle,
        first_plaintext: &[u8],
    ) -> (r: Result<(Self, Vec<u8>), RatchetError>)
        ensures
            match r {
                Ok((session, wire)) => {
                    &&& is_opening(account@.identity_key, *bundle, first_plaintext@, wire@)
                    &&& session.opened_with(
                        account@.identity_key,
                        *bundle,
                        seq![(ciphertext_of(wire@)->0, first_plaintext@)],
                    )
                    &&& session.chain() == Some(chain_of(ciphertext_of(wire@)->0))
                },
                Err(RatchetError::SessionCreation(_)) => true,
                Err(_) => false,
            },
            forall|b: MessagingAccount| #[trigger] b.owns(*bundle) ==> r is Ok,
    {
        let mut inner = match outbound_session(&account.inner, bundle) {
            Ok(inner) => inner,
            Err(e) => {
                assert forall|b: MessagingAccount| !(#[trigger] b.owns(*bundle)) by {
                    assert(b@ == account_model(b.inner));
                }
                return Err(RatchetError::SessionCreation(e));
            },
        };
        let ghost ours = account@.identity_key;
        let ghost fresh = RatchetSession { inner };
        let parts = session_encrypt(&mut inner, first_plaintext);
        proof {
            assert(outbound(
                fresh.inner,
                ours,
                bundle.identity_key@,
                bundle.one_time_key@,
                Seq::empty(),
            ));
        }
        match encrypted(parts) {
            Ok(wire) => {
                proof {
                    let body = wire@.subrange(1, wire@.len() as int);
                    assert(body =~= parts->Ok_0.body@);
                    assert(fresh.opened_with(ours, *bundle, Seq::empty()));
                    assert(Messages::empty().push((ciphertext_of(wire@)->0, first_plaintext@))
                        =~= seq![(ciphertext_of(wire@)->0, first_plaintext@)]);
                    assert(fresh.encrypts(first_plaintext@, wire@));
                    assert(first_for(
                        ours,
                        bundle.identity_key@,
                        bundle.one_time_key@,
                        body,
                        first_plaintext@,
                    ));
                }
                Ok((RatchetSession { inner }, wire))
            },
            Err(e) => Err(e),
        }
    }

    /// Accepts the session that a peer opened with one of its first ciphertexts,
    /// and gives the plaintext of that message. One one-time key at most is used
    /// up; a refusal changes nothing.
    pub fn accept(
        account: &mut MessagingAccount,
        their_identity_key: [u8; 32],
        first_wire: &[u8],
    ) -> (r: Result<(Self, Vec<u8>), RatchetError>)
        ensures
            match r {
                Ok((session, plaintext)) => {
                    &&& is_ciphertext(first_wire@)
                    &&& first_wire@[0] == PREKEY_TYPE
                    &&& old(account).opens(their_identity_key@, first_wire@) == Some(plaintext@)
                    &&& opening_key(first_wire@) is Some
                    &&& spent(old(account)@, final(account)@, opening_key(first_wire@)->0)
                    &&& is_accepted(session, *old(account), their_identity_key@, first_wire@)
                },
                Err(e) => {
                    &&& old(account).opens(their_identity_key@, first_wire@) is None
                    &&& final(account)@ == old(account)@
                    &&& match e {
                        RatchetError::SessionCreation(_) => is_ciphertext(first_wire@)
                            && first_wire@[0] == PREKEY_TYPE,
                        RatchetError::NotPreKey => is_ciphertext(first_wire@) && first_wire@[0]
                            == NORMAL_TYPE,
                        RatchetError::Malformed => !is_ciphertext(first_wire@),
                        _ => false,
                    }
                },
            },
            forall|from: RatchetSession, bundle: PreKeyBundle, sent: Messages, i: int|
                #![trigger from.opened_with(their_identity_key@, bundle, sent), sent[i]]
                from.opened_with(their_identity_key@, bundle, sent) && old(account).owns(bundle)
                    && 0 <= i < sent.len() && i < MAX_KEPT && first_wire@.len() > 0
                    && first_wire@[0] == PREKEY_TYPE && ciphertext_of(first_wire@) == Some(
                    sent[i].0,
                ) ==> (r matches Ok((_, plaintext)) && plaintext@ == sent[i].1),
    {
        let message = match decode(first_wire) {
            Ok(Ciphertext::PreKey(message)) => message,
            Ok(Ciphertext::Normal(_)) => return Err(RatchetError::NotPreKey),
            Err(e) => return Err(e),
        };
        let ghost before = *account;
        match inbound_session(&mut account.inner, their_identity_key, message) {
            Ok((inner, plaintext)) => {
                let session = RatchetSession { inner };
                assert(is_accepted(session, before, their_identity_key@, first_wire@));
                Ok((session, plaintext))
            },
            Err(e) => Err(RatchetError::SessionCreation(e)),
        }
    }

    /// Encrypts a message. On a channel between two accounts this does not
    /// fail, and the other end has then yet to read the message, after those
    /// that were sent before.
    pub fn encrypt(&mut self, plaintext: &[u8]) -> (r: Result<Vec<u8>, RatchetError>)
        ensures
            match r {
                Ok(wire) => {
                    &&& is_ciphertext(wire@)
                    &&& wire@[0] == PREKEY_TYPE || wire@[0] == NORMAL_TYPE
                    &&& old(self).encrypts(plaintext@, wire@)
                    &&& final(self).chain() == Some(chain_of(ciphertext_of(wire@)->0))
                    &&& old(self).chain() is Some ==> final(self).chain() == old(self).chain()
                },
                Err(RatchetError::Encryption(_)) => true,
                Err(_) => false,
            },
            forall|to: RatchetSession, messages: Messages| #[trigger]
                to.awaits(*old(self), messages) ==> {
                    &&& r matches Ok(wire)
                    &&& final(self).sent_to(*old(self), to, messages, plaintext@, wire@)
                },
            forall|from: RatchetSession, messages: Messages| #[trigger]
                old(self).awaits(from, messages) ==> final(self).awaits(from, messages),
            forall|ours: Seq<u8>, bundle: PreKeyBundle, sent: Messages|
                #![trigger old(self).opened_with(ours, bundle, sent)]
                old(self).opened_with(ours, bundle, sent) ==> {
                    &&& r matches Ok(wire)
                    &&& wire@[0] == PREKEY_TYPE
                    &&& final(self).opened_with(
                        ours,
                        bundle,
                        sent.push((ciphertext_of(wire@)->0, plaintext@)),
                    )
                    &&& sent.len() > 0 ==> chain_of(ciphertext_of(wire@)->0) == chain_of(sent[0].0)
                    &&& sent.len() <= MAX_SKIPPED ==> forall|b: MessagingAccount|
                        b.owns(bundle) ==> #[trigger] b.opens(ours, wire@) == Some(plaintext@)
                },
    {
        let parts = session_encrypt(&mut self.inner, plaintext);
        let wire = encrypted(parts);
        proof {
            if wire is Ok {
                let w = wire->Ok_0@;
                assert(w.subrange(1, w.len() as int) =~= parts->Ok_0.body@);
            }
        }
        wire
    }

    /// Decrypts a message. What is sent on a channel is read. Messages may
    /// arrive out of order: each of the first 40 that are yet to be read can be
    /// read next, if all before it are on its chain.
    pub fn decrypt(&mut self, wire: &[u8]) -> (r: Result<Vec<u8>, RatchetError>)
        ensures
            match r {
                Ok(plaintext) => is_ciphertext(wire@) && old(self).decrypts(wire@, plaintext@),
                Err(RatchetError::Decryption(_)) => is_ciphertext(wire@),
                Err(RatchetError::Malformed) => !is_ciphertext(wire@),
                Err(_) => false,
            },
            forall|from: RatchetSession, messages: Messages, i: int| #[trigger]
                old(self).expects(from, messages, i, wire@) ==> {
                    &&& r matches Ok(plaintext)
                    &&& plaintext@ == messages[i].1
                    &&& final(self).awaits(from, messages.remove(i))
                    &&& forall|back: Messages| #[trigger]
                        from.awaits(*old(self), back) ==> from.awaits(*final(self), back)
                },
            r is Err ==> final(self).unharmed(*old(self)),
    {
        let message = match decode(wire) {
            Ok(message) => message,
            Err(e) => return Err(e),
        };
        match session_decrypt(&mut self.inner, message) {
            Ok(plaintext) => Ok(plaintext),
            Err(e) => Err(RatchetError::Decryption(e)),
        }
    }
}

/// A restored account has the identity key of the account that was stored, and
/// accepts sessions that were opened with a bundle of it. Of an orderly account
/// it holds exactly what that held.
pub proof fn pickle_round_trip(
    stored: MessagingAccount,
    restored: MessagingAccount,
    json: Seq<u8>,
    bundle: PreKeyBundle,
)
    requires
        stored.pickled(json),
        pickled_account(json) == Some(restored@),
    ensures
        restored@.identity_key == stored@.identity_key,
        stored.owns(bundle) ==> restored.owns(bundle),
        stored@.orderly ==> restored@ == stored@,
{
}

/// What is said first is heard: the ciphertext with which a peer opens a
/// session with our bundle gives us the plaintext, as long as we hold the
/// secret of the one-time key in the bundle.
pub proof fn first_message_arrives(
    theirs: Seq<u8>,
    bundle: PreKeyBundle,
    plaintext: Seq<u8>,
    wire: Seq<u8>,
    account: MessagingAccount,
)
    requires
        is_opening(theirs, bundle, plaintext, wire),
        account.owns(bundle),
    ensures
        account.opens(theirs, wire) == Some(plaintext),
{
}

/// A bundle stays good: an orderly account keeps its one-time key when it accepts
/// a session that was opened with another key that it holds, and when it hands
/// out another bundle while it has room and holds fewer than 5000 keys.
pub proof fn bundles_stay_good(
    before: MessagingAccount,
    after: MessagingAccount,
    bundle: PreKeyBundle,
    key: Seq<u8>,
)
    requires
        before@.orderly,
        before.owns(bundle),
    ensures
        bundled(before@, after@, key) && before@.room > 0 && before@.one_time_keys.len()
            < MAX_ONE_TIME_KEYS ==> after.owns(bundle),
        spent(before@, after@, key) && before.holds_key(key) && key != bundle.one_time_key@
            ==> after.owns(bundle),
{
}

} // verus!

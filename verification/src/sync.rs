//! Messages and reactions, the parts that conversations are made of.

use crate::bytes::{rank_of, same_key, Rank};
#[allow(unused_imports)]
use crate::bytes::{lex_antisymmetric, lex_irreflexive, lex_lt, lex_total, lex_transitive};
#[allow(unused_imports)]
use crate::order::{asymmetric, sorted_members};
use vstd::prelude::*;

verus! {

/// The identifier of a message: 16 random bytes.
pub type MessageId = [u8; 16];

/// The public identity key of a peer, used as the author id.
pub type AuthorId = [u8; 32];

/// A reference to a transferred file. The key of the file is not part of it.
#[derive(Debug, PartialEq, Eq)]
pub struct FileRef {
    pub transfer_id: [u8; 16],
    pub name: String,
    pub size: u64,
    pub mime: String,
    pub sha256: [u8; 32],
}

impl Clone for FileRef {
    fn clone(&self) -> (r: Self)
        ensures
            r == *self,
    {
        FileRef {
            transfer_id: self.transfer_id,
            name: self.name.clone(),
            size: self.size,
            mime: self.mime.clone(),
            sha256: self.sha256,
        }
    }
}

/// What a message carries.
#[derive(Debug, PartialEq, Eq)]
pub enum MessageKind {
    Text,
    File(FileRef),
}

impl Clone for MessageKind {
    fn clone(&self) -> (r: Self)
        ensures
            r == *self,
    {
        match self {
            MessageKind::Text => MessageKind::Text,
            MessageKind::File(f) => MessageKind::File(f.clone()),
        }
    }
}

/// A chat message. Messages never change.
#[derive(Debug, PartialEq, Eq)]
pub struct Message {
    pub id: MessageId,
    pub author: AuthorId,
    /// Lamport timestamp, for causal order.
    pub lamport: u64,
    /// Wall-clock send time in unix milliseconds, for display only.
    pub sent_at: u64,
    pub body: String,
    pub kind: MessageKind,
}

impl Clone for Message {
    fn clone(&self) -> (r: Self)
        ensures
            r == *self,
    {
        Message {
            id: self.id,
            author: self.author,
            lamport: self.lamport,
            sent_at: self.sent_at,
            body: self.body.clone(),
            kind: self.kind.clone(),
        }
    }
}

/// A reaction: `author` reacted to `message` with `emoji`.
#[derive(Debug, PartialEq, Eq)]
pub struct Reaction {
    pub message: MessageId,
    pub author: AuthorId,
    pub emoji: String,
}

impl Clone for Reaction {
    fn clone(&self) -> (r: Self)
        ensures
            r == *self,
    {
        Reaction { message: self.message, author: self.author, emoji: self.emoji.clone() }
    }
}

/// A reaction as a mathematical value.
pub ghost struct ReactionModel {
    pub message: MessageId,
    pub author: AuthorId,
    pub emoji: Seq<char>,
}

impl View for Reaction {
    type V = ReactionModel;

    open spec fn view(&self) -> ReactionModel {
        ReactionModel { message: self.message, author: self.author, emoji: self.emoji@ }
    }
}

/// The models of a sequence of reactions.
pub open spec fn reaction_models(s: Seq<Reaction>) -> Seq<ReactionModel> {
    s.map_values(|r: Reaction| r@)
}

/// Reactions are ordered by message, then by author, then by the UTF-8 bytes
/// of the emoji.
pub open spec fn reaction_lt(a: ReactionModel, b: ReactionModel) -> bool {
    if a.message != b.message {
        lex_lt(a.message@, b.message@)
    } else if a.author != b.author {
        lex_lt(a.author@, b.author@)
    } else {
        lex_lt(vstd::utf8::encode_utf8(a.emoji), vstd::utf8::encode_utf8(b.emoji))
    }
}

/// The order of reactions.
pub open spec fn reaction_order() -> spec_fn(ReactionModel, ReactionModel) -> bool {
    |a: ReactionModel, b: ReactionModel| reaction_lt(a, b)
}

/// The order of reactions is a strict total order.
pub proof fn reaction_order_is_total(a: ReactionModel, b: ReactionModel, c: ReactionModel)
    ensures
        reaction_lt(a, b) ==> !reaction_lt(b, a) && a != b,
        reaction_lt(a, b) && reaction_lt(b, c) ==> reaction_lt(a, c),
        a == b || reaction_lt(a, b) || reaction_lt(b, a),
{
    let (ma, mb, mc) = (a.message@, b.message@, c.message@);
    let (aa, ab, ac) = (a.author@, b.author@, c.author@);
    let ea = vstd::utf8::encode_utf8(a.emoji);
    let eb = vstd::utf8::encode_utf8(b.emoji);
    let ec = vstd::utf8::encode_utf8(c.emoji);
    if reaction_lt(a, b) {
        if a.message != b.message {
            lex_antisymmetric(ma, mb);
        } else if a.author != b.author {
            lex_antisymmetric(aa, ab);
        } else {
            lex_antisymmetric(ea, eb);
        }
        if reaction_lt(b, c) {
            if a.message != b.message && b.message != c.message {
                lex_transitive(ma, mb, mc);
                lex_irreflexive(ma);
            } else if a.message == b.message && b.message == c.message {
                if a.author != b.author && b.author != c.author {
                    lex_transitive(aa, ab, ac);
                    lex_irreflexive(aa);
                } else if a.author == b.author && b.author == c.author {
                    lex_transitive(ea, eb, ec);
                }
            }
        }
    }
    lex_total(ma, mb);
    lex_total(aa, ab);
    lex_total(ea, eb);
    if ma == mb {
        assert(a.message =~= b.message);
    }
    if aa == ab {
        assert(a.author =~= b.author);
    }
    if ea == eb {
        vstd::utf8::encode_utf8_decode_utf8(a.emoji);
        vstd::utf8::encode_utf8_decode_utf8(b.emoji);
    }
}

/// The order of reactions is asymmetric.
pub proof fn reaction_order_asymmetric()
    ensures
        asymmetric(reaction_order()),
{
    assert forall|a: ReactionModel, b: ReactionModel| #[trigger] reaction_order()(
        a,
        b,
    ) implies !reaction_order()(b, a) by {
        reaction_order_is_total(a, b, a);
    }
}

/// A set of reactions in its order.
pub open spec fn reactions_in_order(s: Set<ReactionModel>) -> Seq<ReactionModel> {
    sorted_members(s, reaction_order())
}

/// Compares two reactions.
pub fn rank_reactions(a: &Reaction, b: &Reaction) -> (r: Rank)
    ensures
        r is Same <==> a@ == b@,
        r is Before <==> reaction_lt(a@, b@),
        r is After <==> reaction_lt(b@, a@),
{
    proof {
        reaction_order_is_total(a@, b@, a@);
        reaction_order_is_total(b@, a@, a@);
    }
    if !same_key(&a.message, &b.message) {
        rank_of(a.message.as_slice(), b.message.as_slice())
    } else if !same_key(&a.author, &b.author) {
        rank_of(a.author.as_slice(), b.author.as_slice())
    } else {
        let r = rank_of(a.emoji.as_str().as_bytes(), b.emoji.as_str().as_bytes());
        proof {
            vstd::utf8::encode_utf8_decode_utf8(a.emoji@);
            vstd::utf8::encode_utf8_decode_utf8(b.emoji@);
        }
        r
    }
}

/// The reactions to the messages come in the order of the messages; those to one
/// message in the order of their authors; and those of one author by what they
/// say.
pub proof fn reactions_are_grouped(a: ReactionModel, b: ReactionModel)
    ensures
        lex_lt(a.message@, b.message@) ==> reaction_lt(a, b),
        a.message == b.message && lex_lt(a.author@, b.author@) ==> reaction_lt(a, b),
        a.message == b.message && a.author == b.author && lex_lt(
            vstd::utf8::encode_utf8(a.emoji),
            vstd::utf8::encode_utf8(b.emoji),
        ) ==> reaction_lt(a, b),
{
    lex_irreflexive(a.message@);
    lex_irreflexive(a.author@);
}

} // verus!

//! Conflict-free conversation state.
//!
//! A [`Conversation`] is made of three convergent parts: messages are a
//! grow-only map by message id, read watermarks are a maximum per author, and
//! reactions are a grow-only set of `(message, author, emoji)`. Replicas that
//! see the same operations in any order, with any duplication, reach the same
//! state. Beside them stands the local Lamport clock.

use crate::bytes::{rank_of, same_key, Rank};
#[allow(unused_imports)]
use crate::bytes::{lex_antisymmetric, lex_irreflexive, lex_lt, lex_total, lex_transitive};
use crate::keyed::{ByteMap, ByteSet};
#[allow(unused_imports)]
use crate::keyed::{ascending, ascending_is_in_order, in_order};
#[allow(unused_imports)]
use crate::order::{
    asymmetric, items, push_to_set, sorted_insert, sorted_is_sorted_members, sorted_members,
    sorted_no_duplicates, strictly_sorted,
};
use crate::random::random_bytes;
use crate::sync::{rank_reactions, AuthorId, FileRef, Message, MessageId, MessageKind, Reaction};
#[allow(unused_imports)]
use crate::sync::{
    reaction_lt, reaction_models, reaction_order, reaction_order_asymmetric,
    reaction_order_is_total, reactions_in_order, ReactionModel,
};
use vstd::prelude::*;

verus! {

/// The larger of two numbers.
pub open spec fn max_of(a: u64, b: u64) -> u64 {
    if a >= b {
        a
    } else {
        b
    }
}

/// Messages are ordered by Lamport time, then by author, then by id.
pub open spec fn message_lt(a: Message, b: Message) -> bool {
    if a.lamport != b.lamport {
        a.lamport < b.lamport
    } else if a.author != b.author {
        lex_lt(a.author@, b.author@)
    } else {
        lex_lt(a.id@, b.id@)
    }
}

/// The causal order of messages.
pub open spec fn message_order() -> spec_fn(Message, Message) -> bool {
    |a: Message, b: Message| message_lt(a, b)
}

/// The causal order of messages is asymmetric.
pub proof fn message_order_asymmetric()
    ensures
        asymmetric(message_order()),
{
    assert forall|a: Message, b: Message| #[trigger] message_order()(
        a,
        b,
    ) implies !message_order()(b, a) by {
        if a.lamport == b.lamport {
            if a.author != b.author {
                lex_antisymmetric(a.author@, b.author@);
            } else {
                lex_antisymmetric(a.id@, b.id@);
            }
        }
    }
}

/// Before what is before is before.
pub proof fn message_lt_transitive(a: Message, b: Message, c: Message)
    requires
        message_lt(a, b),
        message_lt(b, c),
    ensures
        message_lt(a, c),
{
    if a.lamport == b.lamport && b.lamport == c.lamport {
        if a.author != b.author && b.author != c.author {
            lex_transitive(a.author@, b.author@, c.author@);
            lex_irreflexive(a.author@);
        } else if a.author == b.author && b.author == c.author {
            lex_transitive(a.id@, b.id@, c.id@);
        }
    }
}

/// Whether `a` stands before `b` in causal order.
pub fn precedes(a: &Message, b: &Message) -> (r: bool)
    ensures
        r == message_lt(*a, *b),
        !r && a.id != b.id ==> message_lt(*b, *a),
{
    if a.lamport != b.lamport {
        a.lamport < b.lamport
    } else if !same_key(&a.author, &b.author) {
        proof {
            lex_total(a.author@, b.author@);
            if a.author@ == b.author@ {
                assert(a.author =~= b.author);
            }
        }
        match rank_of(a.author.as_slice(), b.author.as_slice()) {
            Rank::Before => true,
            _ => false,
        }
    } else {
        proof {
            lex_total(a.id@, b.id@);
            if a.id@ == b.id@ {
                assert(a.id =~= b.id);
            }
            lex_irreflexive(a.id@);
        }
        match rank_of(a.id.as_slice(), b.id.as_slice()) {
            Rank::Before => true,
            _ => false,
        }
    }
}

/// The least clock that is not behind `start` nor behind any of the messages.
pub open spec fn is_clock_over(start: u64, messages: Map<MessageId, Message>, c: u64) -> bool {
    &&& c >= start
    &&& forall|id: MessageId| #[trigger]
        messages.contains_key(id) ==> c >= messages[id].lamport
    &&& c == start || exists|id: MessageId| #[trigger]
        messages.contains_key(id) && c == messages[id].lamport
}

/// The least clock that is not behind `start` nor behind any of the messages.
pub open spec fn clock_over(start: u64, messages: Map<MessageId, Message>) -> u64 {
    choose|c: u64| is_clock_over(start, messages, c)
}

/// There is one such clock.
pub proof fn clock_over_unique(start: u64, messages: Map<MessageId, Message>, c: u64)
    requires
        is_clock_over(start, messages, c),
    ensures
        clock_over(start, messages) == c,
{
    let d = clock_over(start, messages);
    assert(is_clock_over(start, messages, d));
}

/// A conversation as a mathematical value.
#[verifier::ext_equal]
pub ghost struct ConversationModel {
    pub messages: Map<MessageId, Message>,
    pub reactions: Set<ReactionModel>,
    pub read: Map<AuthorId, u64>,
    pub lamport: u64,
}

impl ConversationModel {
    /// The conversation in which nothing has been said.
    pub open spec fn empty() -> Self {
        ConversationModel {
            messages: Map::empty(),
            reactions: Set::empty(),
            read: Map::empty(),
            lamport: 0,
        }
    }

    /// Messages stand under their own ids, none is ahead of the clock, and all
    /// parts are finite.
    pub open spec fn wf(self) -> bool {
        &&& self.messages.dom().finite()
        &&& self.reactions.finite()
        &&& self.read.dom().finite()
        &&& forall|id: MessageId| #[trigger]
            self.messages.contains_key(id) ==> self.messages[id].id == id
                && self.messages[id].lamport <= self.lamport
    }

    /// How far `author` has read; 0 where nothing is known.
    pub open spec fn watermark(self, author: AuthorId) -> u64 {
        if self.read.contains_key(author) {
            self.read[author]
        } else {
            0
        }
    }

    /// After a message of our own, which also sets the clock.
    pub open spec fn authored(self, m: Message) -> Self {
        ConversationModel {
            messages: self.messages.insert(m.id, m),
            lamport: m.lamport,
            ..self
        }
    }

    /// After receiving a message: what stands under a known id stays, and the
    /// clock falls behind no message.
    pub open spec fn applied(self, m: Message) -> Self {
        ConversationModel {
            messages: if self.messages.contains_key(m.id) {
                self.messages
            } else {
                self.messages.insert(m.id, m)
            },
            lamport: max_of(self.lamport, m.lamport),
            ..self
        }
    }

    /// After receiving messages one after the other.
    pub open spec fn applied_all(self, ms: Seq<Message>) -> Self
        decreases ms.len(),
    {
        if ms.len() == 0 {
            self
        } else {
            self.applied_all(ms.drop_last()).applied(ms.last())
        }
    }

    /// After one reaction.
    pub open spec fn reacted(self, r: ReactionModel) -> Self {
        ConversationModel { reactions: self.reactions.insert(r), ..self }
    }

    /// After any number of reactions.
    pub open spec fn reacted_all(self, rs: Seq<ReactionModel>) -> Self {
        ConversationModel { reactions: self.reactions.union(rs.to_set()), ..self }
    }

    /// After `author` has read up to `lamport`. A watermark never falls.
    pub open spec fn marked(self, author: AuthorId, lamport: u64) -> Self {
        ConversationModel {
            read: self.read.insert(author, max_of(self.watermark(author), lamport)),
            ..self
        }
    }

    /// After read marks one after the other.
    pub open spec fn marked_all(self, marks: Seq<(AuthorId, u64)>) -> Self
        decreases marks.len(),
    {
        if marks.len() == 0 {
            self
        } else {
            self.marked_all(marks.drop_last()).marked(marks.last().0, marks.last().1)
        }
    }

    /// The largest of `start` and the watermarks in `marks`.
    pub open spec fn clock_over_marks(start: u64, marks: Seq<(AuthorId, u64)>) -> u64
        decreases marks.len(),
    {
        if marks.len() == 0 {
            start
        } else {
            max_of(Self::clock_over_marks(start, marks.drop_last()), marks.last().1)
        }
    }

    /// After another replica's state is merged in: the union of the messages
    /// and of the reactions, and the larger of the watermarks. Under an id that
    /// both hold, the message that stands here stays.
    pub open spec fn merged(self, other: Self) -> Self {
        ConversationModel {
            messages: other.messages.union_prefer_right(self.messages),
            reactions: self.reactions.union(other.reactions),
            read: Map::new(
                |a: AuthorId| self.read.contains_key(a) || other.read.contains_key(a),
                |a: AuthorId| max_of(self.watermark(a), other.watermark(a)),
            ),
            lamport: clock_over(self.lamport, other.messages),
        }
    }

    /// What a snapshot restores: its messages, reactions and watermarks one
    /// after the other, with the clock behind none of them.
    pub open spec fn restored(
        messages: Seq<Message>,
        reactions: Seq<ReactionModel>,
        read: Seq<(AuthorId, u64)>,
    ) -> Self {
        let c = Self::empty().applied_all(messages).reacted_all(reactions).marked_all(read);
        ConversationModel { lamport: Self::clock_over_marks(c.lamport, read), ..c }
    }

    /// All messages in causal order.
    pub open spec fn ordered(self) -> Seq<Message> {
        sorted_members(self.messages.values(), message_order())
    }

    /// The messages under the given ids, in the order of the ids.
    pub open spec fn by_id(self, ids: Set<MessageId>) -> Seq<Message> {
        in_order(ids).map_values(|id: MessageId| self.messages[id])
    }

    /// The messages whose ids are not in `have`, in the order of their ids.
    pub open spec fn delta(self, have: Set<MessageId>) -> Seq<Message> {
        self.by_id(self.messages.dom().difference(have))
    }

    /// The watermarks in the order of their authors.
    pub open spec fn marks(self) -> Seq<(AuthorId, u64)> {
        in_order(self.read.dom()).map_values(|a: AuthorId| (a, self.read[a]))
    }
}

/// A serialisable picture of a whole conversation. All parts are in order.
#[derive(Debug, PartialEq, Eq)]
pub struct Snapshot {
    pub messages: Vec<Message>,
    pub reactions: Vec<Reaction>,
    pub read: Vec<(AuthorId, u64)>,
}

impl Snapshot {
    /// The conversation that the snapshot restores.
    pub open spec fn restores(self) -> ConversationModel {
        ConversationModel::restored(
            self.messages@,
            reaction_models(self.reactions@),
            self.read@,
        )
    }
}

/// The state of one conversation.
#[derive(Debug)]
pub struct Conversation {
    messages: ByteMap<16, Message>,
    reactions: Vec<Reaction>,
    /// How far each author has read.
    read: ByteMap<32, u64>,
    /// The local clock.
    lamport: u64,
}

impl View for Conversation {
    type V = ConversationModel;

    closed spec fn view(&self) -> ConversationModel {
        ConversationModel {
            messages: self.messages@,
            reactions: reaction_models(self.reactions@).to_set(),
            read: self.read@,
            lamport: self.lamport,
        }
    }
}

/// Messages stand under their own ids and none is ahead of the clock.
spec fn messages_ok(messages: Map<MessageId, Message>, lamport: u64) -> bool {
    forall|id: MessageId| #[trigger]
        messages.contains_key(id) ==> messages[id].id == id && messages[id].lamport <= lamport
}

impl Default for Conversation {
    /// The empty conversation.
    fn default() -> (r: Self)
        ensures
            r@ == ConversationModel::empty(),
    {
        Conversation::new()
    }
}

impl Clone for Conversation {
    fn clone(&self) -> (r: Self)
        ensures
            r@ == self@,
    {
        let mut c = Conversation::new();
        c.merge(self);
        proof {
            use_type_invariant(self);
            use_type_invariant(&c);
            assert(c@.messages =~= self@.messages);
            assert(c@.reactions =~= self@.reactions);
            assert(c@.read =~= self@.read);
        }
        c.lamport = self.lamport;
        c
    }
}

impl Conversation {
    /// Messages stand under their own ids, none is ahead of the clock, and the
    /// reactions are in order.
    #[verifier::type_invariant]
    pub closed spec fn inv(self) -> bool {
        &&& self.messages.inv()
        &&& self.read.inv()
        &&& messages_ok(self.messages@, self.lamport)
        &&& strictly_sorted(reaction_models(self.reactions@), reaction_order())
    }

    /// The empty conversation.
    pub fn new() -> (r: Self)
        ensures
            r@ == ConversationModel::empty(),
    {
        let messages: ByteMap<16, Message> = ByteMap::new();
        let read: ByteMap<32, u64> = ByteMap::new();
        proof {
            use_type_invariant(&messages);
            use_type_invariant(&read);
        }
        let r = Conversation { messages, reactions: Vec::new(), read, lamport: 0 };
        assert(r@ =~= ConversationModel::empty());
        r
    }

    /// Every conversation is well formed.
    pub proof fn inv_wf(self)
        requires
            self.inv(),
        ensures
            self@.wf(),
    {
        self.messages.inv_finite();
        self.read.inv_finite();
        reaction_order_asymmetric();
        sorted_no_duplicates(reaction_models(self.reactions@), reaction_order());
    }

    /// Puts a message of our own under the id `id`, at the next tick of the
    /// clock.
    pub fn author_with_id(
        &mut self,
        id: MessageId,
        author: AuthorId,
        sent_at: u64,
        body: String,
        kind: MessageKind,
    ) -> (r: Message)
        requires
            old(self)@.lamport < u64::MAX,
        ensures
            r == (Message { id, author, lamport: (old(self)@.lamport + 1) as u64, sent_at, body, kind }),
            final(self)@ == old(self)@.authored(r),
    {
        proof {
            use_type_invariant(&*self);
        }
        let ghost before = self@;
        self.lamport = self.lamport + 1;
        let message = Message { id, author, lamport: self.lamport, sent_at, body, kind };
        let mut messages: ByteMap<16, Message> = ByteMap::new();
        proof {
            use_type_invariant(&messages);
        }
        std::mem::swap(&mut messages, &mut self.messages);
        messages.insert(id, message.clone());
        proof {
            use_type_invariant(&messages);
        }
        self.messages = messages;
        assert(self@ =~= before.authored(message));
        message
    }

    /// Authors a text message, which is already applied here and is to be sent
    /// to the peers. Its id is random.
    pub fn create_text(&mut self, author: AuthorId, sent_at: u64, body: &str) -> (r: Message)
        requires
            old(self)@.lamport < u64::MAX,
        ensures
            r.author == author,
            r.lamport == old(self)@.lamport + 1,
            r.sent_at == sent_at,
            r.body@ == body@,
            r.kind == MessageKind::Text,
            final(self)@ == old(self)@.authored(r),
    {
        let id = random_bytes::<16>();
        self.author_with_id(id, author, sent_at, body.to_owned(), MessageKind::Text)
    }

    /// Authors a file message. Its body is the name of the file and its id is
    /// random.
    pub fn create_file(&mut self, author: AuthorId, sent_at: u64, file: FileRef) -> (r: Message)
        requires
            old(self)@.lamport < u64::MAX,
        ensures
            r.author == author,
            r.lamport == old(self)@.lamport + 1,
            r.sent_at == sent_at,
            r.body@ == file.name@,
            r.kind == MessageKind::File(file),
            final(self)@ == old(self)@.authored(r),
    {
        let id = random_bytes::<16>();
        self.author_with_id(id, author, sent_at, file.name.clone(), MessageKind::File(file))
    }

    /// Whether the clock has a next tick, so that a message can be authored.
    pub fn can_author(&self) -> (r: bool)
        ensures
            r == (self@.lamport < u64::MAX),
    {
        self.lamport < u64::MAX
    }

    /// The local clock.
    pub fn clock(&self) -> (r: u64)
        ensures
            r == self@.lamport,
    {
        self.lamport
    }

    /// Applies a message received from a peer. Applying it again changes
    /// nothing.
    pub fn apply(&mut self, msg: Message)
        ensures
            final(self)@ == old(self)@.applied(msg),
    {
        proof {
            use_type_invariant(&*self);
        }
        let ghost before = self@;
        if msg.lamport > self.lamport {
            self.lamport = msg.lamport;
        }
        if !self.messages.contains(&msg.id) {
            let mut messages: ByteMap<16, Message> = ByteMap::new();
            proof {
                use_type_invariant(&messages);
            }
            std::mem::swap(&mut messages, &mut self.messages);
            messages.insert(msg.id, msg);
            proof {
                use_type_invariant(&messages);
            }
            self.messages = messages;
        }
        assert(self@ =~= before.applied(msg));
    }

    /// Records that `author` has read everything up to `lamport`.
    pub fn mark_read(&mut self, author: AuthorId, lamport: u64)
        ensures
            final(self)@ == old(self)@.marked(author, lamport),
    {
        proof {
            use_type_invariant(&*self);
        }
        let ghost before = self@;
        let current = self.read_watermark(&author);
        let mut read: ByteMap<32, u64> = ByteMap::new();
        proof {
            use_type_invariant(&read);
        }
        std::mem::swap(&mut read, &mut self.read);
        read.insert(author, if lamport > current { lamport } else { current });
        proof {
            use_type_invariant(&read);
        }
        self.read = read;
        assert(self@ =~= before.marked(author, lamport));
    }

    /// How far `author` has read; 0 where nothing is known.
    pub fn read_watermark(&self, author: &AuthorId) -> (r: u64)
        ensures
            r == self@.watermark(*author),
    {
        match self.read.get(author) {
            Some(lamport) => *lamport,
            None => 0,
        }
    }

    /// The number of messages.
    pub fn len(&self) -> (r: usize)
        ensures
            r == self@.messages.len(),
    {
        self.messages.len()
    }

    /// Whether there are no messages.
    pub fn is_empty(&self) -> (r: bool)
        ensures
            r == (self@.messages.len() == 0),
            r == (self@.messages == Map::<MessageId, Message>::empty()),
    {
        let n = self.messages.len();
        proof {
            if n == 0 {
                assert(self@.messages =~= Map::<MessageId, Message>::empty());
            }
        }
        n == 0
    }

    /// The message under an id.
    pub fn message(&self, id: &MessageId) -> (r: Option<&Message>)
        ensures
            match r {
                Some(m) => self@.messages.contains_key(*id) && *m == self@.messages[*id],
                None => !self@.messages.contains_key(*id),
            },
    {
        self.messages.get(id)
    }

    /// The ids of the messages that this replica holds.
    pub fn have(&self) -> (r: ByteSet<16>)
        ensures
            r@ == self@.messages.dom(),
    {
        ByteSet::from_slice(self.messages.keys().as_slice())
    }

    /// Adds a reaction. Adding it again changes nothing.
    pub fn react(&mut self, message: MessageId, author: AuthorId, emoji: &str)
        ensures
            final(self)@ == old(self)@.reacted(
                ReactionModel { message, author, emoji: emoji@ },
            ),
    {
        self.add_reaction(Reaction { message, author, emoji: emoji.to_owned() });
    }

    /// Adds a reaction.
    fn add_reaction(&mut self, reaction: Reaction)
        ensures
            final(self)@ == old(self)@.reacted(reaction@),
    {
        proof {
            use_type_invariant(&*self);
        }
        let ghost before = self@;
        let ghost models = reaction_models(self.reactions@);
        let mut i: usize = 0;
        while i < self.reactions.len()
            invariant
                i <= self.reactions.len(),
                models == reaction_models(self.reactions@),
                before == self@,
                strictly_sorted(models, reaction_order()),
                forall|j: int| 0 <= j < i ==> reaction_lt(#[trigger] models[j], reaction@),
            ensures
                i < models.len() ==> reaction_lt(reaction@, models[i as int]),
            decreases self.reactions.len() - i,
        {
            match rank_reactions(&self.reactions[i], &reaction) {
                Rank::Before => {
                    i = i + 1;
                },
                Rank::Same => {
                    proof {
                        assert(models[i as int] == reaction@);
                        assert(models.contains(reaction@));
                        assert(self@ =~= before.reacted(reaction@));
                    }
                    return ;
                },
                Rank::After => {
                    break ;
                },
            }
        }
        proof {
            assert forall|j: int| i <= j < models.len() implies reaction_lt(
                reaction@,
                #[trigger] models[j],
            ) by {
                if i < j {
                    assert(reaction_order()(models[i as int], models[j]));
                    reaction_order_is_total(reaction@, models[i as int], models[j]);
                }
            }
            assert forall|j: int| 0 <= j < i implies reaction_order()(
                #[trigger] models[j],
                reaction@,
            ) by {
                assert(reaction_lt(models[j], reaction@));
            }
            assert forall|j: int| i <= j < models.len() implies reaction_order()(
                reaction@,
                #[trigger] models[j],
            ) by {
                assert(reaction_lt(reaction@, models[j]));
            }
            sorted_insert(models, i as int, reaction@, reaction_order());
        }
        let mut reactions: Vec<Reaction> = Vec::new();
        std::mem::swap(&mut reactions, &mut self.reactions);
        reactions.insert(i, reaction);
        proof {
            assert(reaction_models(reactions@) =~= models.insert(i as int, reaction@));
        }
        self.reactions = reactions;
        assert(self@ =~= before.reacted(reaction@));
    }

    /// The reactions to a message, in the order of reactions.
    pub fn reactions_for(&self, message: &MessageId) -> (r: Vec<&Reaction>)
        ensures
            r@.map_values(|x: &Reaction| x@) == reactions_in_order(
                self@.reactions.filter(|x: ReactionModel| x.message == *message),
            ),
            strictly_sorted(r@.map_values(|x: &Reaction| x@), reaction_order()),
            r@.map_values(|x: &Reaction| x@).to_set() == self@.reactions.filter(
                |x: ReactionModel| x.message == *message,
            ),
    {
        proof {
            use_type_invariant(self);
        }
        let ghost models = reaction_models(self.reactions@);
        let ghost wanted = |x: ReactionModel| x.message == *message;
        let mut r: Vec<&Reaction> = Vec::new();
        let mut i: usize = 0;
        while i < self.reactions.len()
            invariant
                i <= self.reactions.len(),
                models == reaction_models(self.reactions@),
                strictly_sorted(models, reaction_order()),
                wanted == (|x: ReactionModel| x.message == *message),
                strictly_sorted(r@.map_values(|x: &Reaction| x@), reaction_order()),
                r@.map_values(|x: &Reaction| x@).to_set() == models.take(i as int).to_set().filter(
                    wanted,
                ),
            decreases self.reactions.len() - i,
        {
            let ghost old_r = r@.map_values(|x: &Reaction| x@);
            let ghost old_take = models.take(i as int);
            let reaction = &self.reactions[i];
            let hit = same_key(&reaction.message, message);
            if hit {
                r.push(reaction);
            }
            proof {
                let x = models[i as int];
                assert(models.take(i + 1) =~= old_take.push(x));
                push_to_set(old_take, x);
                if hit {
                    let new_r = r@.map_values(|x: &Reaction| x@);
                    assert(new_r =~= old_r.push(x));
                    push_to_set(old_r, x);
                    assert forall|a: int, b: int| 0 <= a < b < new_r.len() implies reaction_order()(
                        #[trigger] new_r[a],
                        #[trigger] new_r[b],
                    ) by {
                        if b == old_r.len() {
                            assert(old_r.to_set().contains(old_r[a]));
                            assert(old_take.contains(old_r[a]));
                            let j = choose|j: int| 0 <= j < old_take.len() && old_take[j] == old_r[a];
                            assert(reaction_order()(models[j], models[i as int]));
                        } else {
                            assert(old_r[a] == new_r[a] && old_r[b] == new_r[b]);
                        }
                    }
                    assert(new_r.to_set() =~= models.take(i + 1).to_set().filter(wanted));
                } else {
                    assert(old_r.to_set() =~= models.take(i + 1).to_set().filter(wanted));
                }
            }
            i = i + 1;
        }
        proof {
            assert(models.take(i as int) =~= models);
            reaction_order_asymmetric();
            sorted_is_sorted_members(r@.map_values(|x: &Reaction| x@), reaction_order());
        }
        r
    }

    /// All messages in causal order.
    pub fn messages_ordered(&self) -> (r: Vec<&Message>)
        ensures
            items(r@) == self@.ordered(),
            strictly_sorted(items(r@), message_order()),
            items(r@).to_set() == self@.messages.values(),
    {
        proof {
            use_type_invariant(self);
            self.messages.inv_finite();
            message_order_asymmetric();
        }
        let ghost m = self.messages@;
        let ghost ids = in_order(m.dom());
        let n = self.messages.len();
        let mut r: Vec<&Message> = Vec::new();
        let mut i: usize = 0;
        assert(ids.take(0).map_values(|id: MessageId| m[id]).to_set() =~= items(r@).to_set());
        while i < n
            invariant
                i <= n,
                n == ids.len(),
                m == self.messages@,
                ids == in_order(m.dom()),
                ids.no_duplicates(),
                messages_ok(m, self.lamport),
                forall|k: int| 0 <= k < ids.len() ==> m.contains_key(#[trigger] ids[k]),
                strictly_sorted(items(r@), message_order()),
                items(r@).to_set() == ids.take(i as int).map_values(|id: MessageId| m[id]).to_set(),
            decreases n - i,
        {
            let message: &Message = self.messages.value_at(i);
            let ghost sorted = items(r@);
            let ghost done = ids.take(i as int).map_values(|id: MessageId| m[id]);
            proof {
                assert forall|k: int| 0 <= k < sorted.len() implies (#[trigger] sorted[k]).id
                    != message.id by {
                    assert(sorted.to_set().contains(sorted[k]));
                    assert(done.contains(sorted[k]));
                    let j = choose|j: int| 0 <= j < done.len() && done[j] == sorted[k];
                    assert(done[j] == m[ids[j]]);
                    assert(ids[j] != ids[i as int]);
                }
            }
            let mut lo: usize = 0;
            let mut hi: usize = r.len();
            while lo < hi
                invariant
                    lo <= hi <= r@.len(),
                    sorted == items(r@),
                    strictly_sorted(sorted, message_order()),
                    asymmetric(message_order()),
                    forall|k: int| 0 <= k < sorted.len() ==> (#[trigger] sorted[k]).id != message.id,
                    forall|k: int| 0 <= k < lo ==> message_lt(#[trigger] sorted[k], *message),
                    forall|k: int|
                        hi <= k < sorted.len() ==> message_lt(*message, #[trigger] sorted[k]),
                decreases hi - lo,
            {
                let mid: usize = lo + (hi - lo) / 2;
                assert(sorted[mid as int] == *r@[mid as int]);
                if precedes(message, r[mid]) {
                    proof {
                        assert forall|k: int| mid <= k < sorted.len() implies message_lt(
                            *message,
                            #[trigger] sorted[k],
                        ) by {
                            if mid < k {
                                assert(message_order()(sorted[mid as int], sorted[k]));
                                message_lt_transitive(*message, sorted[mid as int], sorted[k]);
                            }
                        }
                    }
                    hi = mid;
                } else {
                    proof {
                        assert forall|k: int| 0 <= k < mid + 1 implies message_lt(
                            #[trigger] sorted[k],
                            *message,
                        ) by {
                            if k < mid {
                                assert(message_order()(sorted[k], sorted[mid as int]));
                                message_lt_transitive(sorted[k], sorted[mid as int], *message);
                            }
                        }
                    }
                    lo = mid + 1;
                }
            }
            proof {
                assert forall|k: int| 0 <= k < lo implies message_order()(
                    #[trigger] sorted[k],
                    *message,
                ) by {
                    assert(message_lt(sorted[k], *message));
                }
                assert forall|k: int| lo <= k < sorted.len() implies message_order()(
                    *message,
                    #[trigger] sorted[k],
                ) by {
                    assert(message_lt(*message, sorted[k]));
                }
                sorted_insert(sorted, lo as int, *message, message_order());
            }
            r.insert(lo, message);
            proof {
                assert(items(r@) =~= sorted.insert(lo as int, *message));
                let more = ids.take(i + 1).map_values(|id: MessageId| m[id]);
                assert(more =~= done.push(*message));
                push_to_set(done, *message);
            }
            i = i + 1;
        }
        proof {
            assert(ids.take(i as int) =~= ids);
            let all = ids.map_values(|id: MessageId| m[id]);
            assert forall|x: Message| all.to_set().contains(x) == m.values().contains(x) by {
                if all.contains(x) {
                    let j = choose|j: int| 0 <= j < all.len() && all[j] == x;
                    assert(m.contains_key(ids[j]) && m[ids[j]] == x);
                }
                if m.values().contains(x) {
                    let id = choose|id: MessageId| #[trigger] m.contains_key(id) && m[id] == x;
                    assert(ids.to_set().contains(id));
                    let j = choose|j: int| 0 <= j < ids.len() && ids[j] == id;
                    assert(all[j] == x);
                }
            }
            assert(all.to_set() =~= m.values());
            sorted_is_sorted_members(items(r@), message_order());
        }
        r
    }

    /// The messages that this replica holds and that are absent from `have`,
    /// in the order of their ids.
    pub fn delta_since(&self, have: &ByteSet<16>) -> (r: Vec<Message>)
        ensures
            r@ == self@.delta(have@),
    {
        proof {
            use_type_invariant(self);
            self.messages.inv_finite();
        }
        let ghost m = self.messages@;
        let ghost ids = in_order(m.dom());
        let ghost mut kept: Seq<MessageId> = Seq::empty();
        let n = self.messages.len();
        let mut r: Vec<Message> = Vec::new();
        let mut i: usize = 0;
        assert(kept.to_set() =~= ids.take(0).to_set().difference(have@));
        while i < n
            invariant
                i <= n,
                n == ids.len(),
                m == self.messages@,
                ids == in_order(m.dom()),
                ascending(ids),
                ascending(kept),
                kept.to_set() == ids.take(i as int).to_set().difference(have@),
                r@ == kept.map_values(|id: MessageId| m[id]),
            decreases n - i,
        {
            let id = self.messages.key_at(i);
            let ghost before = kept;
            let ghost prefix = ids.take(i as int);
            let missing = !have.contains(&id);
            if missing {
                r.push(self.messages.value_at(i).clone());
                proof {
                    kept = kept.push(id);
                    assert(r@ =~= kept.map_values(|id: MessageId| m[id]));
                    push_to_set(before, id);
                    assert forall|a: int, b: int| 0 <= a < b < kept.len() implies lex_lt(
                        #[trigger] kept[a]@,
                        #[trigger] kept[b]@,
                    ) by {
                        if b == before.len() {
                            assert(before.to_set().contains(before[a]));
                            assert(prefix.contains(before[a]));
                            let j = choose|j: int| 0 <= j < prefix.len() && prefix[j] == before[a];
                            assert(lex_lt(ids[j]@, ids[i as int]@));
                        } else {
                            assert(before[a] == kept[a] && before[b] == kept[b]);
                        }
                    }
                }
            }
            proof {
                assert(ids.take(i + 1) =~= prefix.push(id));
                push_to_set(prefix, id);
                assert(kept.to_set() =~= ids.take(i + 1).to_set().difference(have@));
            }
            i = i + 1;
        }
        proof {
            assert(ids.take(i as int) =~= ids);
            ascending_is_in_order(kept);
        }
        r
    }

    /// Merges the state of another replica into this one.
    pub fn merge(&mut self, other: &Conversation)
        ensures
            final(self)@ == old(self)@.merged(other@),
    {
        let ghost before = self@;
        let ghost theirs = other@;
        self.merge_messages(other);
        let ghost mid = self@;
        let mut i: usize = 0;
        assert(reaction_models(other.reactions@).take(0).to_set() =~= Set::empty());
        assert(self@.reactions.union(Set::empty()) =~= self@.reactions);
        while i < other.reactions.len()
            invariant
                i <= other.reactions.len(),
                self@ == (ConversationModel {
                    reactions: mid.reactions.union(
                        reaction_models(other.reactions@).take(i as int).to_set(),
                    ),
                    ..mid
                }),
            decreases other.reactions.len() - i,
        {
            let ghost models = reaction_models(other.reactions@);
            self.add_reaction(other.reactions[i].clone());
            proof {
                assert(models.take(i + 1) =~= models.take(i as int).push(models[i as int]));
                push_to_set(models.take(i as int), models[i as int]);
                assert(mid.reactions.union(models.take(i + 1).to_set())
                    =~= mid.reactions.union(models.take(i as int).to_set()).insert(models[i as int]));
            }
            i = i + 1;
        }
        assert(reaction_models(other.reactions@).take(i as int) =~= reaction_models(
            other.reactions@,
        ));
        let ghost mid = self@;
        proof {
            use_type_invariant(other);
            other.read.inv_finite();
        }
        let ghost authors = in_order(theirs.read.dom());
        let n = other.read.len();
        let mut i: usize = 0;
        while i < n
            invariant
                i <= n,
                n == authors.len(),
                theirs == other@,
                authors == in_order(theirs.read.dom()),
                authors.no_duplicates(),
                self@.messages == mid.messages,
                self@.reactions == mid.reactions,
                self@.lamport == mid.lamport,
                forall|a: AuthorId| #[trigger]
                    self@.read.contains_key(a) <==> mid.read.contains_key(a) || authors.take(
                        i as int,
                    ).contains(a),
                forall|a: AuthorId| #[trigger]
                    self@.watermark(a) == if authors.take(i as int).contains(a) {
                        max_of(mid.watermark(a), theirs.watermark(a))
                    } else {
                        mid.watermark(a)
                    },
            decreases n - i,
        {
            let author = other.read.key_at(i);
            let lamport = *other.read.value_at(i);
            let ghost prev = self@;
            self.mark_read(author, lamport);
            proof {
                let old_take = authors.take(i as int);
                let new_take = authors.take(i + 1);
                assert(new_take =~= old_take.push(author));
                assert forall|a: AuthorId| #[trigger] new_take.contains(a) == (old_take.contains(a)
                    || a == author) by {
                    if new_take.contains(a) {
                        let j = choose|j: int| 0 <= j < new_take.len() && new_take[j] == a;
                        if j < i {
                            assert(old_take[j] == a);
                        }
                    }
                    if old_take.contains(a) {
                        let j = choose|j: int| 0 <= j < old_take.len() && old_take[j] == a;
                        assert(new_take[j] == a);
                    }
                    assert(new_take[i as int] == author);
                }
                assert(!old_take.contains(author)) by {
                    if old_take.contains(author) {
                        let j = choose|j: int| 0 <= j < old_take.len() && old_take[j] == author;
                        assert(authors[j] == authors[i as int]);
                    }
                }
                assert forall|a: AuthorId| #[trigger]
                    self@.watermark(a) == if new_take.contains(a) {
                        max_of(mid.watermark(a), theirs.watermark(a))
                    } else {
                        mid.watermark(a)
                    } by {
                    assert(prev.watermark(a) == if old_take.contains(a) {
                        max_of(mid.watermark(a), theirs.watermark(a))
                    } else {
                        mid.watermark(a)
                    });
                }
            }
            i = i + 1;
        }
        proof {
            assert(authors.take(i as int) =~= authors);
            assert forall|a: AuthorId| authors.contains(a) == theirs.read.contains_key(a) by {
                assert(authors.to_set().contains(a) == authors.contains(a));
            }
            let m = before.merged(theirs);
            assert forall|a: AuthorId| m.read.contains_key(a) implies self@.read[a] == m.read[a] by {
                assert(self@.read.contains_key(a));
                assert(self@.watermark(a) == self@.read[a]);
            }
            assert(self@.read =~= m.read);
            assert(self@ =~= m);
        }
    }

    /// Takes over the messages of another replica.
    fn merge_messages(&mut self, other: &Conversation)
        ensures
            final(self)@ == (ConversationModel {
                messages: other@.messages.union_prefer_right(old(self)@.messages),
                lamport: clock_over(old(self)@.lamport, other@.messages),
                ..old(self)@
            }),
    {
        let ghost before = self@;
        let ghost theirs = other.messages@;
        proof {
            use_type_invariant(other);
            other.messages.inv_finite();
        }
        let ghost ids = in_order(theirs.dom());
        let n = other.messages.len();
        let mut i: usize = 0;
        while i < n
            invariant
                i <= n,
                n == ids.len(),
                theirs == other.messages@,
                ids == in_order(theirs.dom()),
                ids.no_duplicates(),
                messages_ok(theirs, other.lamport),
                forall|k: int| 0 <= k < ids.len() ==> theirs.contains_key(#[trigger] ids[k]),
                self@.reactions == before.reactions,
                self@.read == before.read,
                forall|id: MessageId| #[trigger]
                    self@.messages.contains_key(id) <==> before.messages.contains_key(id)
                        || ids.take(i as int).contains(id),
                forall|id: MessageId| #[trigger]
                    self@.messages.contains_key(id) ==> self@.messages[id]
                        == if before.messages.contains_key(id) {
                        before.messages[id]
                    } else {
                        theirs[id]
                    },
                self@.lamport >= before.lamport,
                forall|k: int| 0 <= k < i ==> self@.lamport >= theirs[#[trigger] ids[k]].lamport,
                self@.lamport == before.lamport || exists|k: int|
                    0 <= k < i && self@.lamport == theirs[#[trigger] ids[k]].lamport,
            decreases n - i,
        {
            let message = other.messages.value_at(i).clone();
            let ghost prev = self@;
            self.apply(message);
            proof {
                let id = ids[i as int];
                assert(theirs.contains_key(id));
                let old_take = ids.take(i as int);
                let new_take = ids.take(i + 1);
                assert(new_take =~= old_take.push(id));
                assert forall|x: MessageId| #[trigger] new_take.contains(x) == (old_take.contains(x)
                    || x == id) by {
                    if new_take.contains(x) {
                        let j = choose|j: int| 0 <= j < new_take.len() && new_take[j] == x;
                        if j < i {
                            assert(old_take[j] == x);
                        }
                    }
                    if old_take.contains(x) {
                        let j = choose|j: int| 0 <= j < old_take.len() && old_take[j] == x;
                        assert(new_take[j] == x);
                    }
                    assert(new_take[i as int] == id);
                }
                if self@.lamport == prev.lamport {
                    if prev.lamport != before.lamport {
                        let k = choose|k: int|
                            0 <= k < i && prev.lamport == theirs[#[trigger] ids[k]].lamport;
                        assert(0 <= k < i + 1 && self@.lamport == theirs[ids[k]].lamport);
                    }
                } else {
                    assert(self@.lamport == theirs[ids[i as int]].lamport);
                }
            }
            i = i + 1;
        }
        proof {
            assert(ids.take(i as int) =~= ids);
            assert forall|id: MessageId| ids.contains(id) == theirs.contains_key(id) by {
                assert(ids.to_set().contains(id) == ids.contains(id));
            }
            assert(self@.messages =~= theirs.union_prefer_right(before.messages));
            let c = self@.lamport;
            assert forall|id: MessageId| #[trigger] theirs.contains_key(id) implies c
                >= theirs[id].lamport by {
                assert(ids.contains(id));
                let k = choose|k: int| 0 <= k < ids.len() && ids[k] == id;
                assert(c >= theirs[ids[k]].lamport);
            }
            if c != before.lamport {
                let k = choose|k: int| 0 <= k < i && c == theirs[#[trigger] ids[k]].lamport;
                assert(theirs.contains_key(ids[k]));
            }
            assert(is_clock_over(before.lamport, theirs, c));
            clock_over_unique(before.lamport, theirs, c);
        }
    }

    /// Applies messages one after the other.
    pub fn apply_all(&mut self, messages: &[Message])
        ensures
            final(self)@ == old(self)@.applied_all(messages@),
    {
        let ghost before = self@;
        let mut i: usize = 0;
        assert(before.applied_all(messages@.take(0)) == before);
        while i < messages.len()
            invariant
                i <= messages.len(),
                self@ == before.applied_all(messages@.take(i as int)),
            decreases messages.len() - i,
        {
            self.apply(messages[i].clone());
            assert(messages@.take(i + 1).drop_last() =~= messages@.take(i as int));
            i = i + 1;
        }
        assert(messages@.take(i as int) =~= messages@);
    }

    /// Adds reactions.
    pub fn react_all(&mut self, reactions: &[Reaction])
        ensures
            final(self)@ == old(self)@.reacted_all(reaction_models(reactions@)),
    {
        let ghost before = self@;
        let ghost models = reaction_models(reactions@);
        let mut i: usize = 0;
        assert(before.reactions.union(models.take(0).to_set()) =~= before.reactions);
        while i < reactions.len()
            invariant
                i <= reactions.len(),
                models == reaction_models(reactions@),
                self@ == before.reacted_all(models.take(i as int)),
            decreases reactions.len() - i,
        {
            self.add_reaction(reactions[i].clone());
            proof {
                assert(models.take(i + 1) =~= models.take(i as int).push(models[i as int]));
                push_to_set(models.take(i as int), models[i as int]);
                assert(before.reactions.union(models.take(i + 1).to_set())
                    =~= before.reactions.union(models.take(i as int).to_set()).insert(
                    models[i as int],
                ));
            }
            i = i + 1;
        }
        assert(models.take(i as int) =~= models);
    }

    /// Records read marks one after the other.
    pub fn mark_all(&mut self, marks: &[(AuthorId, u64)])
        ensures
            final(self)@ == old(self)@.marked_all(marks@),
    {
        let ghost before = self@;
        let mut i: usize = 0;
        assert(before.marked_all(marks@.take(0)) == before);
        while i < marks.len()
            invariant
                i <= marks.len(),
                self@ == before.marked_all(marks@.take(i as int)),
            decreases marks.len() - i,
        {
            self.mark_read(marks[i].0, marks[i].1);
            assert(marks@.take(i + 1).drop_last() =~= marks@.take(i as int));
            i = i + 1;
        }
        assert(marks@.take(i as int) =~= marks@);
    }

    /// The watermarks in the order of their authors.
    fn marks(&self) -> (r: Vec<(AuthorId, u64)>)
        ensures
            r@ == self@.marks(),
    {
        let ghost m = self@;
        let n = self.read.len();
        let mut r: Vec<(AuthorId, u64)> = Vec::new();
        let mut i: usize = 0;
        while i < n
            invariant
                i <= n,
                m == self@,
                n == in_order(m.read.dom()).len(),
                r@ == m.marks().take(i as int),
            decreases n - i,
        {
            r.push((self.read.key_at(i), *self.read.value_at(i)));
            i = i + 1;
            assert(r@ =~= m.marks().take(i as int));
        }
        assert(r@ =~= m.marks());
        r
    }

    /// The reactions in their order.
    fn reactions(&self) -> (r: Vec<Reaction>)
        ensures
            reaction_models(r@) == reactions_in_order(self@.reactions),
    {
        let mut r: Vec<Reaction> = Vec::new();
        let mut i: usize = 0;
        while i < self.reactions.len()
            invariant
                i <= self.reactions.len(),
                r@ == self.reactions@.take(i as int),
            decreases self.reactions.len() - i,
        {
            r.push(self.reactions[i].clone());
            i = i + 1;
            assert(r@ =~= self.reactions@.take(i as int));
        }
        assert(r@ =~= self.reactions@);
        proof {
            use_type_invariant(self);
            reaction_order_asymmetric();
            sorted_is_sorted_members(reaction_models(r@), reaction_order());
        }
        r
    }

    /// Captures the whole state but for the clock.
    pub fn snapshot(&self) -> (r: Snapshot)
        ensures
            r.messages@ == self@.by_id(self@.messages.dom()),
            reaction_models(r.reactions@) == reactions_in_order(self@.reactions),
            r.read@ == self@.marks(),
    {
        let messages = self.delta_since(&ByteSet::new());
        assert(self@.messages.dom().difference(Set::empty()) =~= self@.messages.dom());
        Snapshot { messages, reactions: self.reactions(), read: self.marks() }
    }

    /// Rebuilds a conversation from a snapshot. The clock resumes behind no
    /// message and no watermark, so that new messages sort last and are never
    /// born already read.
    pub fn from_snapshot(s: Snapshot) -> (r: Self)
        ensures
            r@ == s.restores(),
    {
        Self::restore(&s)
    }

    /// Rebuilds a conversation from a snapshot that is kept.
    pub fn restore(s: &Snapshot) -> (r: Self)
        ensures
            r@ == s.restores(),
    {
        let mut c = Conversation::new();
        c.apply_all(s.messages.as_slice());
        c.react_all(s.reactions.as_slice());
        c.mark_all(s.read.as_slice());
        let ghost full = c@;
        let mut top: u64 = c.lamport;
        let mut i: usize = 0;
        assert(ConversationModel::clock_over_marks(full.lamport, s.read@.take(0)) == full.lamport);
        while i < s.read.len()
            invariant
                i <= s.read.len(),
                top >= full.lamport,
                top == ConversationModel::clock_over_marks(full.lamport, s.read@.take(i as int)),
            decreases s.read.len() - i,
        {
            if s.read[i].1 > top {
                top = s.read[i].1;
            }
            assert(s.read@.take(i + 1).drop_last() =~= s.read@.take(i as int));
            i = i + 1;
        }
        assert(s.read@.take(i as int) =~= s.read@);
        proof {
            use_type_invariant(&c);
        }
        c.lamport = top;
        c
    }
}

} // verus!

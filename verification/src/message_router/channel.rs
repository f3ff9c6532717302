//! Channels: who may read and write a conversation.

use vstd::prelude::*;
use crate::utils::ids::{id_to_string, new_id, now_micros, uuid_text};
use crate::utils::text::{
    lemma_filter_all, lemma_seq_le_total, push_char, seq_le, str_eq, str_le, string_of,
};
use super::queue::ChatMessage;

verus! {

/// Represents the type of channel
#[derive(Debug)]
pub enum ChannelType {
    /// General chat channel for broadcast messages
    General,
    /// Private message between two agents
    Private(String, String),
    /// Topic-specific channel
    Topic(String),
    /// Document collaboration channel
    Document(u128),
}

/// Two channel types are equal: the same variant with equal contents.
pub open spec fn same_channel_type(a: ChannelType, b: ChannelType) -> bool {
    match (a, b) {
        (ChannelType::General, ChannelType::General) => true,
        (ChannelType::Private(a1, a2), ChannelType::Private(b1, b2)) => a1@ == b1@ && a2@ == b2@,
        (ChannelType::Topic(x), ChannelType::Topic(y)) => x@ == y@,
        (ChannelType::Document(x), ChannelType::Document(y)) => x == y,
        _ => false,
    }
}

impl ChannelType {
    /// Whether this is the general channel type.
    pub fn is_general(&self) -> (r: bool)
        ensures
            r == (*self is General),
    {
        match self {
            ChannelType::General => true,
            _ => false,
        }
    }
}

impl PartialEq for ChannelType {
    fn eq(&self, other: &Self) -> (r: bool) {
        match (self, other) {
            (ChannelType::General, ChannelType::General) => true,
            (ChannelType::Private(a1, a2), ChannelType::Private(b1, b2)) => str_eq(
                a1.as_str(),
                b1.as_str(),
            ) && str_eq(a2.as_str(), b2.as_str()),
            (ChannelType::Topic(x), ChannelType::Topic(y)) => str_eq(x.as_str(), y.as_str()),
            (ChannelType::Document(x), ChannelType::Document(y)) => *x == *y,
            _ => false,
        }
    }
}

impl vstd::std_specs::cmp::PartialEqSpecImpl for ChannelType {
    open spec fn obeys_eq_spec() -> bool {
        true
    }

    open spec fn eq_spec(&self, other: &Self) -> bool {
        same_channel_type(*self, *other)
    }
}

impl Clone for ChannelType {
    fn clone(&self) -> (r: Self)
        ensures
            r == *self,
    {
        match self {
            ChannelType::General => ChannelType::General,
            ChannelType::Private(a, b) => ChannelType::Private(a.clone(), b.clone()),
            ChannelType::Topic(t) => ChannelType::Topic(t.clone()),
            ChannelType::Document(d) => ChannelType::Document(*d),
        }
    }
}

/// A copy of a list of strings.
pub fn clone_strings(v: &Vec<String>) -> (r: Vec<String>)
    ensures
        r@ == v@,
{
    let mut out: Vec<String> = Vec::new();
    let mut i: usize = 0;
    while i < v.len()
        invariant
            i <= v@.len(),
            out@ == v@.take(i as int),
        decreases v@.len() - i,
    {
        out.push(v[i].clone());
        assert(out@ =~= v@.take(i + 1));
        i = i + 1;
    }
    assert(v@.take(v@.len() as int) =~= v@);
    out
}

/// The texts of a list of strings.
pub open spec fn texts(v: Seq<String>) -> Seq<Seq<char>> {
    v.map_values(|s: String| s@)
}

/// The texts of `v` after `s`: the texts of `v.take(i + 1)` are those of
/// `v.take(i)` followed by the text of `v[i]`.
pub proof fn lemma_texts_take(v: Seq<String>, i: int)
    requires
        0 <= i < v.len(),
    ensures
        texts(v.take(i + 1)) == texts(v.take(i)).push(v[i]@),
{
    assert(texts(v.take(i + 1)) =~= texts(v.take(i)).push(v[i]@));
}

/// Holds of texts other than `s`.
pub open spec fn not_text(s: Seq<char>) -> spec_fn(Seq<char>) -> bool {
    |x: Seq<char>| x != s
}

/// The value of a channel: its fields, with texts in place of strings.
pub struct ChannelView {
    pub id: u128,
    pub channel_type: ChannelType,
    pub name: Seq<char>,
    pub participants: Seq<Seq<char>>,
    pub created_at: i64,
    pub active: bool,
}

/// Represents a communication channel
#[derive(Debug)]
pub struct Channel {
    /// Unique identifier for the channel
    pub id: u128,
    /// Type of the channel
    pub channel_type: ChannelType,
    /// Display name for the channel
    pub name: String,
    /// List of agent IDs that can access this channel
    pub participants: Vec<String>,
    /// When the channel was created (microseconds since the epoch)
    pub created_at: i64,
    /// Whether the channel is active
    pub active: bool,
}

impl View for Channel {
    type V = ChannelView;

    open spec fn view(&self) -> ChannelView {
        ChannelView {
            id: self.id,
            channel_type: self.channel_type,
            name: self.name@,
            participants: texts(self.participants@),
            created_at: self.created_at,
            active: self.active,
        }
    }
}

impl Clone for Channel {
    fn clone(&self) -> (r: Self)
        ensures
            r@ == self@,
    {
        Channel {
            id: self.id,
            channel_type: self.channel_type.clone(),
            name: self.name.clone(),
            participants: clone_strings(&self.participants),
            created_at: self.created_at,
            active: self.active,
        }
    }
}

/// The smaller of two texts in code point order, then the larger.
pub open spec fn ordered_pair(a: Seq<char>, b: Seq<char>) -> (Seq<char>, Seq<char>) {
    if seq_le(a, b) {
        (a, b)
    } else {
        (b, a)
    }
}

/// The canonical identifier of the private channel of two agents: the two
/// identifiers in order, separated by `:`.
pub open spec fn private_channel_key(a: Seq<char>, b: Seq<char>) -> Seq<char> {
    ordered_pair(a, b).0 + seq![':'] + ordered_pair(a, b).1
}

/// The display name of the private channel of two agents.
pub open spec fn private_channel_name(a: Seq<char>, b: Seq<char>) -> Seq<char> {
    "PM: "@ + a + " <-> "@ + b
}

/// A channel is open to an agent when it is general or lists the agent.
pub open spec fn open_to(c: ChannelView, agent: Seq<char>) -> bool {
    c.channel_type is General || c.participants.contains(agent)
}

impl Channel {
    /// A new active channel with no participants.
    fn empty_channel(channel_type: ChannelType, name: String) -> (r: Self)
        ensures
            r@.channel_type == channel_type,
            r@.name == name@,
            r@.participants == Seq::<Seq<char>>::empty(),
            r@.active,
    {
        Self {
            id: new_id(),
            channel_type,
            name,
            participants: Vec::new(),
            created_at: now_micros(),
            active: true,
        }
    }

    /// Create a new general channel
    pub fn new_general(name: String) -> (r: Self)
        ensures
            r@.channel_type is General,
            r@.name == name@,
            r@.participants == Seq::<Seq<char>>::empty(),
            r@.active,
    {
        Self::empty_channel(ChannelType::General, name)
    }

    /// Create a new private channel between two agents
    ///
    /// Both agents are participants, listed in code point order.
    pub fn new_private(agent1_id: String, agent2_id: String) -> (r: Self)
        ensures
            r@.channel_type == ChannelType::Private(agent1_id, agent2_id),
            r@.name == private_channel_name(agent1_id@, agent2_id@),
            r@.participants == seq![
                ordered_pair(agent1_id@, agent2_id@).0,
                ordered_pair(agent1_id@, agent2_id@).1,
            ],
            r@.active,
    {
        let ghost a1 = agent1_id@;
        let ghost a2 = agent2_id@;
        let mut participants: Vec<String> = Vec::new();
        if str_le(agent1_id.as_str(), agent2_id.as_str()) {
            participants.push(agent1_id.clone());
            participants.push(agent2_id.clone());
        } else {
            participants.push(agent2_id.clone());
            participants.push(agent1_id.clone());
        }
        let mut name = string_of("PM: ");
        name.append(agent1_id.as_str());
        name.append(" <-> ");
        name.append(agent2_id.as_str());
        let r = Self {
            id: new_id(),
            channel_type: ChannelType::Private(agent1_id, agent2_id),
            name,
            participants,
            created_at: now_micros(),
            active: true,
        };
        assert(r@.participants =~= seq![
            ordered_pair(a1, a2).0,
            ordered_pair(a1, a2).1,
        ]);
        r
    }

    /// Create a new topic channel
    pub fn new_topic(topic: String) -> (r: Self)
        ensures
            r@.channel_type == ChannelType::Topic(topic),
            r@.name == seq!['#'] + topic@,
            r@.participants == Seq::<Seq<char>>::empty(),
            r@.active,
    {
        let mut name = String::new();
        push_char(&mut name, '#');
        name.append(topic.as_str());
        assert(name@ =~= seq!['#'] + topic@);
        Self::empty_channel(ChannelType::Topic(topic), name)
    }

    /// Create a new document channel
    pub fn new_document(doc_id: u128) -> (r: Self)
        ensures
            r@.channel_type == ChannelType::Document(doc_id),
            r@.name == "Document: "@ + uuid_text(doc_id),
            r@.participants == Seq::<Seq<char>>::empty(),
            r@.active,
    {
        let mut name = string_of("Document: ");
        let text = id_to_string(doc_id);
        name.append(text.as_str());
        Self::empty_channel(ChannelType::Document(doc_id), name)
    }

    /// Add a participant to the channel
    ///
    /// An agent already listed is not listed twice.
    pub fn add_participant(&mut self, agent_id: String)
        ensures
            final(self)@ == (ChannelView { participants: final(self)@.participants, ..old(self)@ }),
            old(self)@.participants.contains(agent_id@) ==> final(self)@.participants == old(
                self,
            )@.participants,
            !old(self)@.participants.contains(agent_id@) ==> final(self)@.participants == old(
                self,
            )@.participants.push(agent_id@),
    {
        if !self.has_participant(agent_id.as_str()) {
            self.participants.push(agent_id);
            assert(self@.participants =~= old(self)@.participants.push(agent_id@));
        }
    }

    /// Remove a participant from the channel
    pub fn remove_participant(&mut self, agent_id: &str)
        ensures
            final(self)@ == (ChannelView { participants: final(self)@.participants, ..old(self)@ }),
            final(self)@.participants == old(self)@.participants.filter(not_text(agent_id@)),
    {
        let ghost pred = not_text(agent_id@);
        let ghost before = self.participants@;
        let mut kept: Vec<String> = Vec::new();
        let mut i: usize = 0;
        while i < self.participants.len()
            invariant
                self.participants@ == before,
                i <= before.len(),
                texts(kept@) == texts(before.take(i as int)).filter(pred),
                pred == not_text(agent_id@),
            decreases before.len() - i,
        {
            proof {
                reveal_with_fuel(Seq::filter, 1);
                lemma_texts_take(before, i as int);
                assert(texts(before.take(i + 1)).drop_last() =~= texts(before.take(i as int)));
            }
            if !str_eq(self.participants[i].as_str(), agent_id) {
                let ghost k0 = kept@;
                kept.push(self.participants[i].clone());
                assert(texts(kept@) =~= texts(k0).push(before[i as int]@));
            }
            i = i + 1;
        }
        assert(before.take(before.len() as int) =~= before);
        self.participants = kept;
    }

    /// Check if an agent is a participant in this channel
    pub fn has_participant(&self, agent_id: &str) -> (r: bool)
        ensures
            r == self@.participants.contains(agent_id@),
    {
        let mut i: usize = 0;
        while i < self.participants.len()
            invariant
                i <= self.participants@.len(),
                forall|k: int| 0 <= k < i ==> #[trigger] self.participants@[k]@ != agent_id@,
            decreases self.participants@.len() - i,
        {
            if str_eq(self.participants[i].as_str(), agent_id) {
                assert(self@.participants[i as int] == agent_id@);
                return true;
            }
            i = i + 1;
        }
        assert forall|k: int| 0 <= k < self@.participants.len() implies self@.participants[k] != agent_id@ by {
            assert(self@.participants[k] == self.participants@[k]@);
        }
        false
    }

    /// Get the canonical ID for a private channel between two agents
    pub fn get_private_channel_id(agent1_id: &str, agent2_id: &str) -> (r: String)
        ensures
            r@ == private_channel_key(agent1_id@, agent2_id@),
    {
        let (first, second) = if str_le(agent1_id, agent2_id) {
            (agent1_id, agent2_id)
        } else {
            (agent2_id, agent1_id)
        };
        let mut r = string_of(first);
        push_char(&mut r, ':');
        r.append(second);
        r
    }
}

/// The canonical identifier of a private channel does not depend on the
/// order in which the two agents are named.
pub proof fn lemma_private_channel_key_symmetric(a: Seq<char>, b: Seq<char>)
    ensures
        private_channel_key(a, b) == private_channel_key(b, a),
{
    lemma_seq_le_total(a, b);
}

/// Joining lists an agent and leaving unlists it entirely, and leaving
/// right after joining as a new participant restores the list: after
/// `add_participant(a)` the participants contain `a`, and after
/// `remove_participant(a)` they do not, however often `a` was listed.
pub proof fn lemma_participant_membership(participants: Seq<Seq<char>>, a: Seq<char>)
    ensures
        (if participants.contains(a) {
            participants
        } else {
            participants.push(a)
        }).contains(a),
        !participants.filter(not_text(a)).contains(a),
        !participants.contains(a) ==> participants.push(a).filter(not_text(a)) == participants,
{
    broadcast use vstd::seq_lib::group_filter_ensures;

    if !participants.contains(a) {
        reveal_with_fuel(Seq::filter, 1);
        assert forall|i: int| 0 <= i < participants.len() implies (#[trigger] not_text(a)(
            participants[i],
        )) by {
            if participants[i] == a {
                assert(participants.contains(a));
            }
        }
        lemma_filter_all(participants, not_text(a));
        assert(participants.push(a).drop_last() =~= participants);
    }

    if !participants.contains(a) {
        assert(participants.push(a)[participants.len() as int] == a);
    }
    if participants.filter(not_text(a)).contains(a) {
        let f = participants.filter(not_text(a));
        let i = choose|i: int| 0 <= i < f.len() && f[i] == a;
        participants.lemma_filter_pred(not_text(a), i);
    }
}

/// Trait for handling channel-specific message processing
///
/// Implemented by the users of the router; nothing is assumed of what an
/// implementation returns.
pub trait ChannelHandler: Send + Sync {
    /// Process a message sent to this channel
    fn handle_message(&self, message: &ChatMessage) -> Result<(), ChannelError>;

    /// Called when a participant joins the channel
    fn on_join(&self, agent_id: &str) -> Result<(), ChannelError>;

    /// Called when a participant leaves the channel
    fn on_leave(&self, agent_id: &str) -> Result<(), ChannelError>;
}

/// Errors that can occur in channel operations
#[derive(Debug)]
pub enum ChannelError {
    NotFound,
    Unauthorized,
    Inactive,
    InvalidOperation(String),
    HandlerError(String),
}

/// The text that describes a channel error.
pub open spec fn channel_error_text(e: ChannelError) -> Seq<char> {
    match e {
        ChannelError::NotFound => "Channel not found"@,
        ChannelError::Unauthorized => "Agent not authorized for this channel"@,
        ChannelError::Inactive => "Channel is inactive"@,
        ChannelError::InvalidOperation(s) => "Invalid channel operation: "@ + s@,
        ChannelError::HandlerError(s) => "Handler error: "@ + s@,
    }
}

impl ChannelError {
    /// The text that describes this error.
    pub fn message(&self) -> (r: String)
        ensures
            r@ == channel_error_text(*self),
    {
        match self {
            ChannelError::NotFound => string_of("Channel not found"),
            ChannelError::Unauthorized => string_of("Agent not authorized for this channel"),
            ChannelError::Inactive => string_of("Channel is inactive"),
            ChannelError::InvalidOperation(s) => {
                let mut r = string_of("Invalid channel operation: ");
                r.append(s.as_str());
                r
            },
            ChannelError::HandlerError(s) => {
                let mut r = string_of("Handler error: ");
                r.append(s.as_str());
                r
            },
        }
    }
}

/// The text holds no `:`, the separator of private channel keys.
pub open spec fn no_colon(s: Seq<char>) -> bool {
    !s.contains(':')
}

/// Two pairs of agents whose identifiers hold no `:` have the same private
/// channel key only when they are the same pair, in either order: so the
/// private channels of different pairs are found under different keys.
pub proof fn lemma_private_channel_key_injective(
    a: Seq<char>,
    b: Seq<char>,
    c: Seq<char>,
    d: Seq<char>,
)
    requires
        no_colon(a),
        no_colon(b),
        no_colon(c),
        no_colon(d),
        private_channel_key(a, b) == private_channel_key(c, d),
    ensures
        (a == c && b == d) || (a == d && b == c),
{
    let (x, y) = ordered_pair(a, b);
    let (u, v) = ordered_pair(c, d);
    let k = private_channel_key(a, b);
    assert(no_colon(x) && no_colon(u));
    assert(k[x.len() as int] == ':');
    assert(k[u.len() as int] == ':');
    if x.len() < u.len() {
        assert(k[x.len() as int] == u[x.len() as int]);
        assert(u.contains(':'));
    } else if u.len() < x.len() {
        assert(k[u.len() as int] == x[u.len() as int]);
        assert(x.contains(':'));
    }
    assert(x =~= k.take(x.len() as int));
    assert(u =~= k.take(u.len() as int));
    assert(y =~= k.skip(x.len() as int + 1));
    assert(v =~= k.skip(u.len() as int + 1));
}

} // verus!

//! The router: channels, the private channel index, channel handlers, the
//! delivery queue and the broadcast of sent messages.

use vstd::prelude::*;
use crate::utils::keyed::{
    has_key, key_pos, keys_distinct, lemma_to_map_at, lemma_to_map_empty, lemma_upsert, to_map,
    upsert,
};
use crate::utils::text::{str_eq, string_of};
use super::channel::{
    channel_error_text, lemma_private_channel_key_symmetric, open_to, ordered_pair, private_channel_key,
    private_channel_name, Channel, ChannelError, ChannelHandler, ChannelType, ChannelView,
};
use super::queue::{
    is_next, queue_error_text, ChatMessage, ChatMessageView, MessagePriority, MessageQueue, MessageQueueError,
    QueuedMessageView,
};

verus! {

/// The sending half of a `tokio::sync::broadcast` channel.
#[verifier::external_type_specification]
#[verifier::external_body]
#[verifier::reject_recursive_types(T)]
pub struct ExBroadcastSender<T>(tokio::sync::broadcast::Sender<T>);

/// The receiving half of a `tokio::sync::broadcast` channel.
#[verifier::external_type_specification]
#[verifier::external_body]
#[verifier::reject_recursive_types(T)]
pub struct ExBroadcastReceiver<T>(tokio::sync::broadcast::Receiver<T>);

/// The messages handed to a broadcast sender's `send`, oldest first. Each
/// is kept for the subscribers listening when it is sent (a message sent
/// while none listens is dropped).
pub uninterp spec fn broadcast_log(tx: tokio::sync::broadcast::Sender<ChatMessage>) -> Seq<
    ChatMessageView,
>;

/// Where in its sender's log a receiver starts: it receives the messages
/// handed to `send` from that position on (as long as it keeps up with
/// the channel's buffer).
pub uninterp spec fn broadcast_cursor(rx: tokio::sync::broadcast::Receiver<ChatMessage>) -> nat;

/// `tokio::sync::broadcast::channel(capacity)`, keeping the sending half:
/// a new channel, to which nothing has been sent. The function panics
/// unless `0 < capacity <= usize::MAX / 2`.
#[verifier::external_body]
fn broadcast_sender(capacity: usize) -> (r: tokio::sync::broadcast::Sender<ChatMessage>)
    requires
        0 < capacity <= usize::MAX / 2,
    ensures
        broadcast_log(r) == Seq::<ChatMessageView>::empty(),
{
    tokio::sync::broadcast::channel(capacity).0
}

/// `Sender::send`: hands the message to the channel, which keeps a copy
/// for every current subscriber; the log grows by the message. How many
/// subscribers there were (none, in which case `send` reports an error and
/// the message is dropped) is not reported.
#[verifier::external_body]
fn broadcast_send(tx: &mut tokio::sync::broadcast::Sender<ChatMessage>, message: ChatMessage)
    ensures
        broadcast_log(*final(tx)) == broadcast_log(*old(tx)).push(message@),
{
    let _ = tx.send(message);
}

/// `Sender::subscribe`: a new receiver, which starts at the end of the
/// sender's log, so it receives the messages sent from now on.
#[verifier::external_body]
fn broadcast_subscribe(tx: &tokio::sync::broadcast::Sender<ChatMessage>) -> (r:
    tokio::sync::broadcast::Receiver<ChatMessage>)
    ensures
        broadcast_cursor(r) == broadcast_log(*tx).len(),
{
    tx.subscribe()
}

/// A channel identifier bound to a private channel's canonical key.
#[derive(Debug)]
struct PrivateEntry {
    key: String,
    channel_id: u128,
}

/// The handler registered for a channel.
struct HandlerEntry {
    channel_id: u128,
    handler: Box<dyn ChannelHandler>,
}

/// Key of a channel: its identifier.
pub open spec fn channel_key() -> spec_fn(ChannelView) -> u128 {
    |c: ChannelView| c.id
}

/// Value of a channel: the channel itself.
pub open spec fn channel_val() -> spec_fn(ChannelView) -> ChannelView {
    |c: ChannelView| c
}

/// The view of a channel, as a function.
pub open spec fn channel_view() -> spec_fn(Channel) -> ChannelView {
    |c: Channel| c@
}

spec fn private_key() -> spec_fn(PrivateEntry) -> Seq<char> {
    |e: PrivateEntry| e.key@
}

spec fn private_val() -> spec_fn(PrivateEntry) -> u128 {
    |e: PrivateEntry| e.channel_id
}

spec fn handler_key() -> spec_fn(HandlerEntry) -> u128 {
    |e: HandlerEntry| e.channel_id
}

spec fn handler_val() -> spec_fn(HandlerEntry) -> () {
    |e: HandlerEntry| ()
}

/// Holds of the channels open to `agent`.
/// A send from `sender` to `channel` may be accepted: the channel exists,
/// is active, and is open to the sender.
pub open spec fn send_admits(router: MessageRouter, sender: Seq<char>, channel: u128) -> bool {
    &&& router.channels().contains_key(channel)
    &&& router.channels()[channel].active
    &&& open_to(router.channels()[channel], sender)
}

pub open spec fn open_to_agent(agent: Seq<char>) -> spec_fn(ChannelView) -> bool {
    |c: ChannelView| open_to(c, agent)
}

/// Holds of the general channels named `name`.
pub open spec fn general_named(c: ChannelView, name: Seq<char>) -> bool {
    c.channel_type is General && c.name == name
}

/// `id` identifies the first channel of `views` that is general and named
/// `name`.
pub open spec fn first_general(views: Seq<ChannelView>, name: Seq<char>, id: u128) -> bool {
    exists|i: int|
        0 <= i < views.len() && general_named(#[trigger] views[i], name) && views[i].id == id
            && forall|k: int| 0 <= k < i ==> !general_named(#[trigger] views[k], name)
}

/// A newly created channel: the given type and name, no participants,
/// active.
pub open spec fn fresh_channel(c: ChannelView, ty: ChannelType, name: Seq<char>) -> bool {
    &&& c.channel_type == ty
    &&& c.name == name
    &&& c.participants == Seq::<Seq<char>>::empty()
    &&& c.active
}

/// Main message router for managing channels and routing messages
pub struct MessageRouter {
    channels: Vec<Channel>,
    private_channels: Vec<PrivateEntry>,
    handlers: Vec<HandlerEntry>,
    message_queue: MessageQueue,
    broadcast_tx: tokio::sync::broadcast::Sender<ChatMessage>,
}

impl MessageRouter {
    /// The channels, in the order in which they were created.
    pub closed spec fn channel_views(&self) -> Seq<ChannelView> {
        self.channels@.map_values(channel_view())
    }

    /// The channels by identifier.
    pub open spec fn channels(&self) -> Map<u128, ChannelView> {
        to_map(self.channel_views(), channel_key(), channel_val())
    }

    /// The private channel index: canonical key to channel identifier.
    pub closed spec fn private_index(&self) -> Map<Seq<char>, u128> {
        to_map(self.private_channels@, private_key(), private_val())
    }

    /// The channels that have a handler.
    pub closed spec fn handled(&self) -> Set<u128> {
        to_map(self.handlers@, handler_key(), handler_val()).dom()
    }

    /// The messages waiting in the delivery queue.
    pub closed spec fn queued(&self) -> Seq<QueuedMessageView> {
        self.message_queue.items()
    }

    /// The messages handed to the broadcast channel, oldest first.
    pub closed spec fn broadcast_history(&self) -> Seq<ChatMessageView> {
        broadcast_log(self.broadcast_tx)
    }

    /// How many messages the delivery queue holds at most.
    pub closed spec fn queue_capacity(&self) -> nat {
        self.message_queue.capacity()
    }

    /// Well-formedness: no two channels, private keys or handlers share a
    /// key, and the queue is well formed.
    pub closed spec fn wf(&self) -> bool {
        &&& keys_distinct(self.channel_views(), channel_key())
        &&& keys_distinct(self.private_channels@, private_key())
        &&& keys_distinct(self.handlers@, handler_key())
        &&& self.message_queue.wf()
        &&& forall|i: int| 0 <= i < self.channel_views().len() ==> (#[trigger] self.channel_views()[i]).active
    }

    /// The router holds the same channels, index, handlers and queue.
    pub open spec fn same_state(&self, other: &MessageRouter) -> bool {
        &&& self.channel_views() == other.channel_views()
        &&& self.private_index() == other.private_index()
        &&& self.handled() == other.handled()
        &&& self.queued() == other.queued()
        &&& self.queue_capacity() == other.queue_capacity()
        &&& self.broadcast_history() == other.broadcast_history()
    }

    /// A well-formed router has a positive queue capacity that its queue
    /// does not exceed, distinct channel identifiers, and only active
    /// channels (no operation closes a channel).
    pub proof fn lemma_wf(&self)
        requires
            self.wf(),
        ensures
            0 < self.queue_capacity(),
            self.queued().len() <= self.queue_capacity(),
            keys_distinct(self.channel_views(), channel_key()),
            forall|id: u128| #[trigger] self.channels().contains_key(id) ==> self.channels()[id].active,
    {
        assert forall|id: u128| #[trigger] self.channels().contains_key(id) implies self.channels()[id].active by {
            let i = choose|i: int| 0 <= i < self.channel_views().len() && #[trigger] channel_key()(self.channel_views()[i]) == id;
            lemma_to_map_at(self.channel_views(), channel_key(), channel_val(), i);
        }
    }

    /// Create a new message router
    ///
    /// The queue holds up to `queue_capacity` messages and the broadcast
    /// channel buffers `broadcast_buffer` of them (the underlying channels
    /// refuse a zero size, and a broadcast buffer above `usize::MAX / 2`).
    pub fn new(queue_capacity: usize, broadcast_buffer: usize) -> (r: Self)
        requires
            queue_capacity > 0,
            0 < broadcast_buffer <= usize::MAX / 2,
        ensures
            r.wf(),
            r.channel_views() == Seq::<ChannelView>::empty(),
            r.private_index() == Map::<Seq<char>, u128>::empty(),
            r.handled() == Set::<u128>::empty(),
            r.queued() == Seq::<QueuedMessageView>::empty(),
            r.queue_capacity() == queue_capacity,
            r.broadcast_history() == Seq::<ChatMessageView>::empty(),
    {
        let r = Self {
            channels: Vec::new(),
            private_channels: Vec::new(),
            handlers: Vec::new(),
            message_queue: MessageQueue::new(queue_capacity),
            broadcast_tx: broadcast_sender(broadcast_buffer),
        };
        proof {
            assert(r.channel_views() =~= Seq::<ChannelView>::empty());
            lemma_to_map_empty(channel_key(), channel_val());
            lemma_to_map_empty(private_key(), private_val());
            lemma_to_map_empty(handler_key(), handler_val());
            assert(r.private_channels@ =~= Seq::<PrivateEntry>::empty());
            assert(r.handlers@ =~= Seq::<HandlerEntry>::empty());
            assert(r.handled() =~= Set::<u128>::empty());
        }
        r
    }

    fn find_channel(&self, channel_id: u128) -> (r: Option<usize>)
        requires
            self.wf(),
        ensures
            match r {
                Some(i) => {
                    &&& i < self.channels@.len()
                    &&& self.channel_views()[i as int].id == channel_id
                    &&& key_pos(self.channel_views(), channel_key(), channel_id) == i
                    &&& self.channels().contains_key(channel_id)
                    &&& self.channels()[channel_id] == self.channels@[i as int]@
                },
                None => !self.channels().contains_key(channel_id),
            },
    {
        let mut i: usize = 0;
        while i < self.channels.len()
            invariant
                self.wf(),
                i <= self.channels@.len(),
                forall|k: int| 0 <= k < i ==> self.channel_views()[k].id != channel_id,
            decreases self.channels@.len() - i,
        {
            if self.channels[i].id == channel_id {
                proof {
                    lemma_to_map_at(self.channel_views(), channel_key(), channel_val(), i as int);
                }
                return Some(i);
            }
            i = i + 1;
        }
        assert forall|k: int| 0 <= k < self.channel_views().len() implies #[trigger] channel_key()(
            self.channel_views()[k],
        ) != channel_id by {}
        None
    }

    /// Stores `c` in place of the channel with its identifier, or appends it.
    fn upsert_channel(&mut self, c: Channel)
        requires
            old(self).wf(),
            c@.active,
        ensures
            final(self).wf(),
            final(self).broadcast_history() == old(self).broadcast_history(),
            final(self).channel_views() == upsert(old(self).channel_views(), channel_key(), c@),
            final(self).channels() == old(self).channels().insert(c.id, c@),
            final(self).private_channels@ == old(self).private_channels@,
            final(self).handlers@ == old(self).handlers@,
            final(self).message_queue == old(self).message_queue,
    {
        let ghost cv = c@;
        proof {
            lemma_upsert(self.channel_views(), channel_key(), channel_val(), cv);
        }
        match self.find_channel(c.id) {
            Some(i) => {
                self.channels.set(i, c);
                assert(self.channel_views() =~= old(self).channel_views().update(i as int, cv));
            },
            None => {
                assert(!has_key(old(self).channel_views(), channel_key(), cv.id));
                self.channels.push(c);
                assert(self.channel_views() =~= old(self).channel_views().push(cv));
            },
        }
        assert forall|i: int| 0 <= i < self.channel_views().len() implies (#[trigger] self.channel_views()[i]).active by {
            if i < old(self).channel_views().len() {
                assert(old(self).channel_views()[i].active);
            }
        }
    }

    /// Position of the first general channel named `name`, if any.
    fn find_general(&self, name: &str) -> (r: Option<usize>)
        ensures
            match r {
                Some(i) => i < self.channel_views().len() && general_named(
                    self.channel_views()[i as int],
                    name@,
                ) && forall|k: int|
                    0 <= k < i ==> !general_named(#[trigger] self.channel_views()[k], name@),
                None => forall|k: int|
                    0 <= k < self.channel_views().len() ==> !general_named(
                        #[trigger] self.channel_views()[k],
                        name@,
                    ),
            },
    {
        let mut i: usize = 0;
        while i < self.channels.len()
            invariant
                i <= self.channels@.len(),
                forall|k: int|
                    0 <= k < i ==> !general_named(#[trigger] self.channel_views()[k], name@),
            decreases self.channels@.len() - i,
        {
            if self.channels[i].channel_type.is_general() && str_eq(
                self.channels[i].name.as_str(),
                name,
            ) {
                return Some(i);
            }
            i = i + 1;
        }
        None
    }

    /// Create or get the general channel
    ///
    /// The first general channel with this name, else a new one.
    pub fn get_or_create_general_channel(&mut self, name: String) -> (r: u128)
        requires
            old(self).wf(),
        ensures
            final(self).wf(),
            final(self).broadcast_history() == old(self).broadcast_history(),
            first_general(final(self).channel_views(), name@, r),
            (exists|i: int|
                0 <= i < old(self).channel_views().len() && general_named(
                    #[trigger] old(self).channel_views()[i],
                    name@,
                )) ==> {
                &&& final(self).same_state(old(self))
                &&& exists|i: int|
                    0 <= i < old(self).channel_views().len() && general_named(
                        #[trigger] old(self).channel_views()[i],
                        name@,
                    ) && old(self).channel_views()[i].id == r && forall|k: int|
                        0 <= k < i ==> !general_named(
                            #[trigger] old(self).channel_views()[k],
                            name@,
                        )
            },
            (forall|i: int|
                0 <= i < old(self).channel_views().len() ==> !general_named(
                    #[trigger] old(self).channel_views()[i],
                    name@,
                )) ==> exists|c: ChannelView|
                {
                    &&& c.id == r
                    &&& fresh_channel(c, ChannelType::General, name@)
                    &&& final(self).channel_views() == upsert(
                        old(self).channel_views(),
                        channel_key(),
                        c,
                    )
                    &&& final(self).private_index() == old(self).private_index()
                    &&& final(self).handled() == old(self).handled()
                    &&& final(self).queued() == old(self).queued()
                    &&& final(self).queue_capacity() == old(self).queue_capacity()
                },
    {
        match self.find_general(name.as_str()) {
            Some(i) => self.channels[i].id,
            None => {
                let channel = Channel::new_general(name);
                let id = channel.id;
                let ghost cv = channel@;
                self.upsert_channel(channel);
                assert(fresh_channel(cv, ChannelType::General, name@));
                assert(final(self).channel_views() == upsert(old(self).channel_views(), channel_key(), cv));
                proof {
                    let o = old(self).channel_views();
                    let v = self.channel_views();
                    if has_key(o, channel_key(), cv.id) {
                        let p = key_pos(o, channel_key(), cv.id);
                        assert(v == o.update(p, cv));
                        assert(general_named(v[p], name@));
                        assert forall|k: int| 0 <= k < p implies !general_named(#[trigger] v[k], name@) by {
                            assert(v[k] == o[k]);
                        }
                    } else {
                        assert(v == o.push(cv));
                        let p = o.len() as int;
                        assert(general_named(v[p], name@));
                        assert forall|k: int| 0 <= k < p implies !general_named(#[trigger] v[k], name@) by {
                            assert(v[k] == o[k]);
                        }
                    }
                }
                id
            },
        }
    }

    fn find_private(&self, key: &str) -> (r: Option<usize>)
        requires
            self.wf(),
        ensures
            match r {
                Some(i) => {
                    &&& i < self.private_channels@.len()
                    &&& self.private_index().contains_key(key@)
                    &&& self.private_index()[key@] == self.private_channels@[i as int].channel_id
                },
                None => !self.private_index().contains_key(key@),
            },
    {
        let mut i: usize = 0;
        while i < self.private_channels.len()
            invariant
                self.wf(),
                i <= self.private_channels@.len(),
                forall|k: int| 0 <= k < i ==> self.private_channels@[k].key@ != key@,
            decreases self.private_channels@.len() - i,
        {
            if str_eq(self.private_channels[i].key.as_str(), key) {
                proof {
                    lemma_to_map_at(self.private_channels@, private_key(), private_val(), i as int);
                }
                return Some(i);
            }
            i = i + 1;
        }
        assert forall|k: int| 0 <= k < self.private_channels@.len() implies #[trigger] private_key()(
            self.private_channels@[k],
        ) != key@ by {}
        None
    }

    /// Create or get a private channel between two agents
    ///
    /// The channel is found by the agents' canonical key, so the order in
    /// which they are named does not matter.
    pub fn get_or_create_private_channel(&mut self, agent1_id: String, agent2_id: String) -> (r:
        u128)
        requires
            old(self).wf(),
        ensures
            final(self).wf(),
            final(self).broadcast_history() == old(self).broadcast_history(),
            final(self).private_index().contains_key(private_channel_key(agent1_id@, agent2_id@)),
            final(self).private_index()[private_channel_key(agent1_id@, agent2_id@)] == r,
            old(self).private_index().contains_key(private_channel_key(agent1_id@, agent2_id@))
                ==> {
                &&& final(self).same_state(old(self))
                &&& r == old(self).private_index()[private_channel_key(agent1_id@, agent2_id@)]
            },
            !old(self).private_index().contains_key(private_channel_key(agent1_id@, agent2_id@))
                ==> exists|c: ChannelView|
                {
                    &&& c.id == r
                    &&& c.channel_type == ChannelType::Private(agent1_id, agent2_id)
                    &&& c.name == private_channel_name(agent1_id@, agent2_id@)
                    &&& c.participants == seq![
                        ordered_pair(agent1_id@, agent2_id@).0,
                        ordered_pair(agent1_id@, agent2_id@).1,
                    ]
                    &&& c.active
                    &&& final(self).channel_views() == upsert(
                        old(self).channel_views(),
                        channel_key(),
                        c,
                    )
                    &&& final(self).private_index() == old(self).private_index().insert(
                        private_channel_key(agent1_id@, agent2_id@),
                        r,
                    )
                    &&& final(self).handled() == old(self).handled()
                    &&& final(self).queued() == old(self).queued()
                    &&& final(self).queue_capacity() == old(self).queue_capacity()
                },
    {
        let canonical_id = Channel::get_private_channel_id(agent1_id.as_str(), agent2_id.as_str());
        // Check if private channel already exists
        match self.find_private(canonical_id.as_str()) {
            Some(i) => {
                return self.private_channels[i].channel_id;
            },
            None => {},
        }
        // Create new private channel
        let mut channel = Channel::new_private(agent1_id.clone(), agent2_id.clone());
        let channel_id = channel.id;
        let ghost created = channel@;
        channel.add_participant(agent1_id);
        channel.add_participant(agent2_id);
        assert(channel@ == created);
        self.upsert_channel(channel);
        let entry = PrivateEntry { key: canonical_id, channel_id };
        proof {
            lemma_upsert(self.private_channels@, private_key(), private_val(), entry);
            assert(!has_key(self.private_channels@, private_key(), entry.key@));
        }
        let ghost before = self.private_channels@;
        self.private_channels.push(entry);
        assert(self.private_channels@ == upsert(before, private_key(), entry));
        channel_id
    }

    /// Create a topic channel
    pub fn create_topic_channel(&mut self, topic: String) -> (r: u128)
        requires
            old(self).wf(),
        ensures
            final(self).wf(),
            final(self).broadcast_history() == old(self).broadcast_history(),
            exists|c: ChannelView|
                {
                    &&& c.id == r
                    &&& fresh_channel(c, ChannelType::Topic(topic), seq!['#'] + topic@)
                    &&& final(self).channel_views() == upsert(
                        old(self).channel_views(),
                        channel_key(),
                        c,
                    )
                    &&& final(self).private_index() == old(self).private_index()
                    &&& final(self).handled() == old(self).handled()
                    &&& final(self).queued() == old(self).queued()
                    &&& final(self).queue_capacity() == old(self).queue_capacity()
                },
    {
        let channel = Channel::new_topic(topic);
        let id = channel.id;
        self.upsert_channel(channel);
        id
    }

    /// Create a document channel
    pub fn create_document_channel(&mut self, doc_id: u128) -> (r: u128)
        requires
            old(self).wf(),
        ensures
            final(self).wf(),
            final(self).broadcast_history() == old(self).broadcast_history(),
            exists|c: ChannelView|
                {
                    &&& c.id == r
                    &&& fresh_channel(
                        c,
                        ChannelType::Document(doc_id),
                        "Document: "@ + crate::utils::ids::uuid_text(doc_id),
                    )
                    &&& final(self).channel_views() == upsert(
                        old(self).channel_views(),
                        channel_key(),
                        c,
                    )
                    &&& final(self).private_index() == old(self).private_index()
                    &&& final(self).handled() == old(self).handled()
                    &&& final(self).queued() == old(self).queued()
                    &&& final(self).queue_capacity() == old(self).queue_capacity()
                },
    {
        let channel = Channel::new_document(doc_id);
        let id = channel.id;
        self.upsert_channel(channel);
        id
    }

    fn find_handler(&self, channel_id: u128) -> (r: Option<usize>)
        requires
            self.wf(),
        ensures
            match r {
                Some(i) => i < self.handlers@.len() && self.handled().contains(channel_id)
                    && self.handlers@[i as int].channel_id == channel_id,
                None => !self.handled().contains(channel_id),
            },
    {
        let mut i: usize = 0;
        while i < self.handlers.len()
            invariant
                self.wf(),
                i <= self.handlers@.len(),
                forall|k: int| 0 <= k < i ==> self.handlers@[k].channel_id != channel_id,
            decreases self.handlers@.len() - i,
        {
            if self.handlers[i].channel_id == channel_id {
                proof {
                    lemma_to_map_at(self.handlers@, handler_key(), handler_val(), i as int);
                }
                return Some(i);
            }
            i = i + 1;
        }
        assert forall|k: int| 0 <= k < self.handlers@.len() implies #[trigger] handler_key()(
            self.handlers@[k],
        ) != channel_id by {}
        None
    }

    /// Send a message to a channel
    ///
    /// The channel must exist and be active, and the sender must be one of
    /// its participants unless it is a general channel. A handler of the
    /// channel then sees the message first and may refuse it; a full queue
    /// refuses it too. An accepted message is queued with the given
    /// priority and handed to the broadcast subscribers.
    pub fn send_message(
        &mut self,
        sender_id: String,
        channel_id: u128,
        content: String,
        priority: MessagePriority,
    ) -> (r: Result<ChatMessage, RouterError>)
        requires
            old(self).wf(),
        ensures
            final(self).wf(),
            final(self).channel_views() == old(self).channel_views(),
            final(self).private_index() == old(self).private_index(),
            final(self).handled() == old(self).handled(),
            final(self).queue_capacity() == old(self).queue_capacity(),
            !old(self).channels().contains_key(channel_id) ==> r matches Err(
                RouterError::ChannelNotFound,
            ),
            old(self).channels().contains_key(channel_id) && !old(self).channels()[channel_id].active
                ==> r matches Err(RouterError::ChannelInactive),
            old(self).channels().contains_key(channel_id) && old(self).channels()[channel_id].active
                && !open_to(old(self).channels()[channel_id], sender_id@) ==> r matches Err(
                RouterError::Unauthorized,
            ),
            old(self).channels().contains_key(channel_id) && old(self).channels()[channel_id].active
                && open_to(old(self).channels()[channel_id], sender_id@) ==> {
                &&& (r is Ok || r matches Err(RouterError::HandlerError(_)) || r matches Err(
                    RouterError::QueueError(MessageQueueError::QueueFull),
                ))
                &&& r matches Err(RouterError::HandlerError(_)) ==> old(self).handled().contains(
                    channel_id,
                )
                &&& r matches Err(RouterError::QueueError(_)) ==> old(self).queued().len() >= old(
                    self,
                ).queue_capacity()
                &&& !old(self).handled().contains(channel_id) && old(self).queued().len() < old(
                    self,
                ).queue_capacity() ==> r is Ok
            },
            r is Ok ==> send_admits(*old(self), sender_id@, channel_id),
            r is Err ==> final(self).queued() == old(self).queued(),
            r is Err ==> final(self).broadcast_history() == old(self).broadcast_history(),
            r matches Ok(m) ==> final(self).broadcast_history() == old(self).broadcast_history().push(
                m@,
            ),
            r matches Ok(m) ==> {
                &&& m@.sender_id == sender_id@
                &&& m@.channel_id == channel_id
                &&& m@.content == content@
                &&& m@.document_ref is None
                &&& m@.votes == (0u32, 0u32)
                &&& m@.voters == Seq::<Seq<char>>::empty()
                &&& final(self).queued().drop_last() == old(self).queued()
                &&& final(self).queued().len() == old(self).queued().len() + 1
                &&& final(self).queued().last().message == m@
                &&& final(self).queued().last().priority == priority
                &&& final(self).queued().last().retry_count == 0
            },
    {
        // Verify channel exists and is active
        let i = match self.find_channel(channel_id) {
            Some(i) => i,
            None => {
                return Err(RouterError::ChannelNotFound);
            },
        };
        if !self.channels[i].active {
            return Err(RouterError::ChannelInactive);
        }
        // Verify sender is a participant (except for general channels)
        if !self.channels[i].channel_type.is_general() && !self.channels[i].has_participant(
            sender_id.as_str(),
        ) {
            return Err(RouterError::Unauthorized);
        }
        // Create the message
        let message = ChatMessage::new(sender_id, channel_id, content);
        // Handle channel-specific processing
        match self.find_handler(channel_id) {
            Some(h) => {
                match self.handlers[h].handler.handle_message(&message) {
                    Ok(()) => {},
                    Err(e) => {
                        return Err(RouterError::HandlerError(e.message()));
                    },
                }
            },
            None => {},
        }
        // Enqueue the message
        let queued = message.clone();
        match self.message_queue.enqueue_with_priority(queued, priority) {
            Ok(()) => {},
            Err(e) => {
                return Err(RouterError::QueueError(e));
            },
        }
        // Broadcast to subscribers
        broadcast_send(&mut self.broadcast_tx, message.clone());
        Ok(message)
    }

    /// Add a participant to a channel
    ///
    /// The agent stays added even if the channel's handler then reports an
    /// error.
    pub fn join_channel(&mut self, channel_id: u128, agent_id: String) -> (r: Result<
        (),
        RouterError,
    >)
        requires
            old(self).wf(),
        ensures
            final(self).wf(),
            final(self).broadcast_history() == old(self).broadcast_history(),
            final(self).private_index() == old(self).private_index(),
            final(self).handled() == old(self).handled(),
            final(self).queued() == old(self).queued(),
            final(self).queue_capacity() == old(self).queue_capacity(),
            !old(self).channels().contains_key(channel_id) ==> (r matches Err(
                RouterError::ChannelNotFound,
            )) && final(self).channel_views() == old(self).channel_views(),
            old(self).channels().contains_key(channel_id) && !old(self).channels()[channel_id].active
                ==> (r matches Err(RouterError::ChannelInactive)) && final(self).channel_views()
                == old(self).channel_views(),
            old(self).channels().contains_key(channel_id) && old(self).channels()[channel_id].active
                ==> {
                &&& final(self).channels() == old(self).channels().insert(
                    channel_id,
                    joined(old(self).channels()[channel_id], agent_id@),
                )
                &&& (r is Ok || (r matches Err(RouterError::HandlerError(_)) && old(
                    self,
                ).handled().contains(channel_id)))
                &&& !old(self).handled().contains(channel_id) ==> r is Ok
            },
    {
        let i = match self.find_channel(channel_id) {
            Some(i) => i,
            None => {
                return Err(RouterError::ChannelNotFound);
            },
        };
        if !self.channels[i].active {
            return Err(RouterError::ChannelInactive);
        }
        let mut channel = self.channels[i].clone();
        channel.add_participant(agent_id.clone());
        assert(channel@ == joined(old(self).channels()[channel_id], agent_id@));
        self.upsert_channel(channel);
        // Notify handler if exists
        match self.find_handler(channel_id) {
            Some(h) => {
                match self.handlers[h].handler.on_join(agent_id.as_str()) {
                    Ok(()) => {},
                    Err(e) => {
                        return Err(RouterError::HandlerError(e.message()));
                    },
                }
            },
            None => {},
        }
        Ok(())
    }

    /// Remove a participant from a channel
    pub fn leave_channel(&mut self, channel_id: u128, agent_id: &str) -> (r: Result<
        (),
        RouterError,
    >)
        requires
            old(self).wf(),
        ensures
            final(self).wf(),
            final(self).broadcast_history() == old(self).broadcast_history(),
            final(self).private_index() == old(self).private_index(),
            final(self).handled() == old(self).handled(),
            final(self).queued() == old(self).queued(),
            final(self).queue_capacity() == old(self).queue_capacity(),
            !old(self).channels().contains_key(channel_id) ==> (r matches Err(
                RouterError::ChannelNotFound,
            )) && final(self).channel_views() == old(self).channel_views(),
            old(self).channels().contains_key(channel_id) ==> {
                &&& final(self).channels() == old(self).channels().insert(
                    channel_id,
                    left(old(self).channels()[channel_id], agent_id@),
                )
                &&& (r is Ok || (r matches Err(RouterError::HandlerError(_)) && old(
                    self,
                ).handled().contains(channel_id)))
                &&& !old(self).handled().contains(channel_id) ==> r is Ok
            },
    {
        let i = match self.find_channel(channel_id) {
            Some(i) => i,
            None => {
                return Err(RouterError::ChannelNotFound);
            },
        };
        let mut channel = self.channels[i].clone();
        channel.remove_participant(agent_id);
        self.upsert_channel(channel);
        // Notify handler if exists
        match self.find_handler(channel_id) {
            Some(h) => {
                match self.handlers[h].handler.on_leave(agent_id) {
                    Ok(()) => {},
                    Err(e) => {
                        return Err(RouterError::HandlerError(e.message()));
                    },
                }
            },
            None => {},
        }
        Ok(())
    }

    /// Register a channel handler
    ///
    /// It replaces the channel's earlier handler, if any.
    pub fn register_handler(&mut self, channel_id: u128, handler: Box<dyn ChannelHandler>)
        requires
            old(self).wf(),
        ensures
            final(self).wf(),
            final(self).broadcast_history() == old(self).broadcast_history(),
            final(self).handled() == old(self).handled().insert(channel_id),
            final(self).channel_views() == old(self).channel_views(),
            final(self).private_index() == old(self).private_index(),
            final(self).queued() == old(self).queued(),
            final(self).queue_capacity() == old(self).queue_capacity(),
    {
        let entry = HandlerEntry { channel_id, handler };
        let ghost before = self.handlers@;
        proof {
            lemma_upsert(before, handler_key(), handler_val(), entry);
        }
        match self.find_handler(channel_id) {
            Some(i) => {
                proof {
                    lemma_to_map_at(before, handler_key(), handler_val(), i as int);
                }
                self.handlers.set(i, entry);
                assert(self.handlers@ == upsert(before, handler_key(), entry));
            },
            None => {
                proof {
                    assert(!to_map(before, handler_key(), handler_val()).contains_key(channel_id));
                }
                self.handlers.push(entry);
                assert(self.handlers@ == upsert(before, handler_key(), entry));
            },
        }
        assert(self.handled() =~= old(self).handled().insert(channel_id));
    }

    /// Get a channel by ID
    pub fn get_channel(&self, channel_id: u128) -> (r: Option<Channel>)
        requires
            self.wf(),
        ensures
            match r {
                Some(c) => self.channels().contains_key(channel_id) && c@ == self.channels()[channel_id],
                None => !self.channels().contains_key(channel_id),
            },
    {
        match self.find_channel(channel_id) {
            Some(i) => Some(self.channels[i].clone()),
            None => None,
        }
    }

    /// Get all channels for an agent
    ///
    /// The general channels and those that list the agent, in the order in
    /// which they were created.
    pub fn get_channels_for_agent(&self, agent_id: &str) -> (r: Vec<Channel>)
        requires
            self.wf(),
        ensures
            r@.map_values(channel_view()) == self.channel_views().filter(open_to_agent(agent_id@)),
            forall|i: int|
                0 <= i < r@.len() ==> (#[trigger] r@[i])@.channel_type is General || r@[i]@.participants.contains(
                    agent_id@,
                ),
    {
        let ghost pred = open_to_agent(agent_id@);
        let mut out: Vec<Channel> = Vec::new();
        let mut i: usize = 0;
        while i < self.channels.len()
            invariant
                i <= self.channels@.len(),
                out@.map_values(channel_view()) == self.channel_views().take(i as int).filter(pred),
                pred == open_to_agent(agent_id@),
            decreases self.channels@.len() - i,
        {
            proof {
                reveal_with_fuel(Seq::filter, 1);
                assert(self.channel_views().take(i + 1).drop_last() =~= self.channel_views().take(
                    i as int,
                ));
            }
            if self.channels[i].channel_type.is_general() || self.channels[i].has_participant(
                agent_id,
            ) {
                let ghost before = out@;
                out.push(self.channels[i].clone());
                assert(out@.map_values(channel_view()) =~= before.map_values(channel_view()).push(
                    self.channel_views()[i as int],
                ));
            }
            i = i + 1;
        }
        assert(self.channel_views().take(self.channels@.len() as int) =~= self.channel_views());
        proof {
            lemma_listed_channels_open(self.channel_views(), agent_id@, out@.map_values(channel_view()));
            assert forall|i: int| 0 <= i < out@.len() implies (#[trigger] out@[i])@.channel_type is General
                || out@[i]@.participants.contains(agent_id@) by {
                assert(out@.map_values(channel_view())[i] == out@[i]@);
            }
        }
        out
    }

    /// Subscribe to broadcast messages
    ///
    /// The receiver starts at the end of the broadcast history: it receives
    /// the messages sent from now on.
    pub fn subscribe(&self) -> (r: tokio::sync::broadcast::Receiver<ChatMessage>)
        ensures
            broadcast_cursor(r) == self.broadcast_history().len(),
    {
        broadcast_subscribe(&self.broadcast_tx)
    }

    /// Dequeue the next message
    pub fn dequeue_message(&mut self) -> (r: Result<ChatMessage, MessageQueueError>)
        requires
            old(self).wf(),
        ensures
            final(self).wf(),
            final(self).broadcast_history() == old(self).broadcast_history(),
            final(self).channel_views() == old(self).channel_views(),
            final(self).private_index() == old(self).private_index(),
            final(self).handled() == old(self).handled(),
            final(self).queue_capacity() == old(self).queue_capacity(),
            old(self).queued().len() == 0 ==> (r matches Err(MessageQueueError::QueueEmpty))
                && final(self).queued() == old(self).queued(),
            old(self).queued().len() > 0 ==> exists|p: int|
                {
                    &&& is_next(old(self).queued(), p)
                    &&& r matches Ok(m) && m@ == old(self).queued()[p].message
                    &&& final(self).queued() == old(self).queued().remove(p)
                },
    {
        match self.message_queue.dequeue() {
            Ok(qm) => Ok(qm.message),
            Err(e) => Err(e),
        }
    }

    /// Get queue size: how many more messages the queue accepts.
    pub fn queue_size(&self) -> (r: usize)
        requires
            self.wf(),
        ensures
            r == self.queue_capacity() - self.queued().len(),
    {
        self.message_queue.size()
    }

    /// Broadcast a message to all general channel participants
    ///
    /// Sends the message on the general channel named "General", created
    /// first if there is none.
    pub fn broadcast_to_general(&mut self, sender_id: String, content: String) -> (r: Result<
        ChatMessage,
        RouterError,
    >)
        requires
            old(self).wf(),
        ensures
            final(self).wf(),
            final(self).private_index() == old(self).private_index(),
            final(self).handled() == old(self).handled(),
            r is Ok || r matches Err(RouterError::HandlerError(_)) || r matches Err(
                RouterError::QueueError(MessageQueueError::QueueFull),
            ),
            r is Err ==> final(self).broadcast_history() == old(self).broadcast_history(),
            r matches Ok(m) ==> final(self).broadcast_history() == old(self).broadcast_history().push(
                m@,
            ),
            r matches Ok(m) ==> {
                &&& m@.sender_id == sender_id@
                &&& m@.content == content@
                &&& final(self).channels().contains_key(m@.channel_id)
                &&& general_named(final(self).channels()[m@.channel_id], "General"@)
                &&& final(self).queued().last().message == m@
                &&& final(self).queued().last().priority == MessagePriority::Normal
            },
            old(self).handled() == Set::<u128>::empty() && old(self).queued().len() < old(
                self,
            ).queue_capacity() ==> r is Ok,
    {
        let ghost views = self.channel_views();
        let name = string_of("General");
        let general_channel_id = self.get_or_create_general_channel(name);
        proof {
            if exists|i: int| 0 <= i < views.len() && general_named(#[trigger] views[i], "General"@) {
                let i = choose|i: int|
                    0 <= i < views.len() && general_named(#[trigger] views[i], "General"@)
                        && views[i].id == general_channel_id;
                lemma_to_map_at(views, channel_key(), channel_val(), i);
            } else {
                let c = choose|c: ChannelView| c.id == general_channel_id && fresh_channel(c, ChannelType::General, "General"@)
                    && self.channel_views() == upsert(views, channel_key(), c);
                lemma_upsert(views, channel_key(), channel_val(), c);
            }
            assert(general_named(self.channels()[general_channel_id], "General"@));
            self.lemma_wf();
        }
        self.send_message(sender_id, general_channel_id, content, MessagePriority::Normal)
    }
}

/// The channel with `agent` added to its participants, unless listed.
pub open spec fn joined(c: ChannelView, agent: Seq<char>) -> ChannelView {
    if c.participants.contains(agent) {
        c
    } else {
        ChannelView { participants: c.participants.push(agent), ..c }
    }
}

/// The channel with `agent` removed from its participants.
pub open spec fn left(c: ChannelView, agent: Seq<char>) -> ChannelView {
    ChannelView { participants: c.participants.filter(super::channel::not_text(agent)), ..c }
}

/// The private channel of two agents is the same whichever agent is named
/// first: once `get_or_create_private_channel(a, b)` has answered `r`,
/// the channel of `b` and `a` is `r` too, so asking again in the other
/// order answers `r`.
pub proof fn lemma_private_channel_either_order(
    router: &MessageRouter,
    a: Seq<char>,
    b: Seq<char>,
    r: u128,
)
    requires
        router.private_index().contains_key(private_channel_key(a, b)),
        router.private_index()[private_channel_key(a, b)] == r,
    ensures
        router.private_index().contains_key(private_channel_key(b, a)),
        router.private_index()[private_channel_key(b, a)] == r,
{
    lemma_private_channel_key_symmetric(a, b);
}

/// There is one first general channel of a name, so asking
/// `get_or_create_general_channel` again for the same name gives the same
/// channel.
pub proof fn lemma_first_general_unique(views: Seq<ChannelView>, name: Seq<char>, a: u128, b: u128)
    requires
        first_general(views, name, a),
        first_general(views, name, b),
    ensures
        a == b,
{
    let i = choose|i: int|
        0 <= i < views.len() && general_named(#[trigger] views[i], name) && views[i].id == a
            && forall|k: int| 0 <= k < i ==> !general_named(#[trigger] views[k], name);
    let j = choose|j: int|
        0 <= j < views.len() && general_named(#[trigger] views[j], name) && views[j].id == b
            && forall|k: int| 0 <= k < j ==> !general_named(#[trigger] views[k], name);
    if i < j {
        assert(!general_named(views[i], name));
    } else if j < i {
        assert(!general_named(views[j], name));
    }
}

/// Errors that can occur in router operations
#[derive(Debug)]
pub enum RouterError {
    ChannelNotFound,
    ChannelInactive,
    Unauthorized,
    HandlerError(String),
    QueueError(MessageQueueError),
    ChannelError(ChannelError),
}

/// The text that describes a router error.
pub open spec fn router_error_text(e: RouterError) -> Seq<char> {
    match e {
        RouterError::ChannelNotFound => "Channel not found"@,
        RouterError::ChannelInactive => "Channel is inactive"@,
        RouterError::Unauthorized => "Agent not authorized"@,
        RouterError::HandlerError(s) => "Handler error: "@ + s@,
        RouterError::QueueError(q) => "Queue error: "@ + queue_error_text(q),
        RouterError::ChannelError(c) => "Channel error: "@ + channel_error_text(c),
    }
}

impl RouterError {
    /// The text that describes this error.
    pub fn message(&self) -> (r: String)
        ensures
            r@ == router_error_text(*self),
    {
        match self {
            RouterError::ChannelNotFound => string_of("Channel not found"),
            RouterError::ChannelInactive => string_of("Channel is inactive"),
            RouterError::Unauthorized => string_of("Agent not authorized"),
            RouterError::HandlerError(s) => {
                let mut r = string_of("Handler error: ");
                r.append(s.as_str());
                r
            },
            RouterError::QueueError(q) => {
                let mut r = string_of("Queue error: ");
                let m = q.message();
                r.append(m.as_str());
                r
            },
            RouterError::ChannelError(c) => {
                let mut r = string_of("Channel error: ");
                let m = c.message();
                r.append(m.as_str());
                r
            },
        }
    }
}

/// Only participants speak in a channel that is not general: a send that
/// the router may accept goes to an existing, active channel, which is
/// general or lists the sender among its participants.
pub proof fn lemma_send_needs_participant(router: MessageRouter, sender: Seq<char>, channel: u128)
    requires
        send_admits(router, sender, channel),
    ensures
        router.channels().contains_key(channel),
        router.channels()[channel].active,
        router.channels()[channel].channel_type is General || router.channels()[channel].participants.contains(
            sender,
        ),
        !(router.channels()[channel].channel_type is General) ==> router.channels()[channel].participants.contains(
            sender,
        ),
{
}

/// The channels listed for an agent are exactly those where it may speak:
/// each listed channel is general or lists the agent, and every channel
/// that is general or lists the agent is listed.
pub proof fn lemma_listed_channels_open(
    views: Seq<ChannelView>,
    agent: Seq<char>,
    listed: Seq<ChannelView>,
)
    requires
        listed == views.filter(open_to_agent(agent)),
    ensures
        forall|i: int|
            0 <= i < listed.len() ==> (#[trigger] listed[i]).channel_type is General
                || listed[i].participants.contains(agent),
        forall|i: int|
            0 <= i < views.len() && ((#[trigger] views[i]).channel_type is General
                || views[i].participants.contains(agent)) ==> listed.contains(views[i]),
{
    assert forall|i: int| 0 <= i < listed.len() implies (#[trigger] listed[i]).channel_type is General
        || listed[i].participants.contains(agent) by {
        views.lemma_filter_pred(open_to_agent(agent), i);
    }
    assert forall|i: int|
        0 <= i < views.len() && ((#[trigger] views[i]).channel_type is General
            || views[i].participants.contains(agent)) implies listed.contains(views[i]) by {
        views.lemma_filter_contains(open_to_agent(agent), i);
    }
}

} // verus!

//! Chat messages, their votes, and the bounded delivery queue.

use vstd::prelude::*;
use crate::utils::ids::{new_id, now_micros};
use crate::utils::logging::{truncate_words, truncated_words};
use crate::utils::text::{str_eq, string_of};
use super::channel::{clone_strings, texts};

verus! {

/// Represents a chat message
#[derive(Debug)]
pub struct ChatMessage {
    /// Unique identifier for this message
    pub id: u128,
    /// ID of the agent who sent this message
    pub sender_id: String,
    /// ID of the channel this message belongs to
    pub channel_id: u128,
    /// Content of the message
    pub content: String,
    /// Timestamp when the message was created (microseconds since the epoch)
    pub timestamp: i64,
    /// Optional reference to a document
    pub document_ref: Option<u128>,
    /// Vote counts (approval, disapproval)
    pub votes: (u32, u32),
    /// List of voter IDs for detailed tracking
    pub voters: Vec<String>,
    /// Each voter's vote, in the order of `voters`: `true` for approval
    pub ballots: Vec<bool>,
}

/// The value of a chat message: its fields, with texts in place of
/// strings.
pub struct ChatMessageView {
    pub id: u128,
    pub sender_id: Seq<char>,
    pub channel_id: u128,
    pub content: Seq<char>,
    pub timestamp: i64,
    pub document_ref: Option<u128>,
    pub votes: (u32, u32),
    pub voters: Seq<Seq<char>>,
    pub ballots: Seq<bool>,
}

impl View for ChatMessage {
    type V = ChatMessageView;

    open spec fn view(&self) -> ChatMessageView {
        ChatMessageView {
            id: self.id,
            sender_id: self.sender_id@,
            channel_id: self.channel_id,
            content: self.content@,
            timestamp: self.timestamp,
            document_ref: self.document_ref,
            votes: self.votes,
            voters: texts(self.voters@),
            ballots: self.ballots@,
        }
    }
}

impl Clone for ChatMessage {
    fn clone(&self) -> (r: Self)
        ensures
            r@ == self@,
    {
        ChatMessage {
            id: self.id,
            sender_id: self.sender_id.clone(),
            channel_id: self.channel_id,
            content: self.content.clone(),
            timestamp: self.timestamp,
            document_ref: self.document_ref,
            votes: self.votes,
            voters: clone_strings(&self.voters),
            ballots: clone_ballots(&self.ballots),
        }
    }
}


impl ChatMessage {
    /// Create a new chat message
    pub fn new(sender_id: String, channel_id: u128, content: String) -> (r: Self)
        ensures
            r@.sender_id == sender_id@,
            r@.channel_id == channel_id,
            r@.content == content@,
            r@.document_ref is None,
            r@.votes == (0u32, 0u32),
            r@.voters == Seq::<Seq<char>>::empty(),
            r@.ballots == Seq::<bool>::empty(),
            r@.wf(),
    {
        let r = Self {
            id: new_id(),
            sender_id,
            channel_id,
            content,
            timestamp: now_micros(),
            document_ref: None,
            votes: (0, 0),
            voters: Vec::new(),
            ballots: Vec::new(),
        };
        assert(r@.voters =~= Seq::<Seq<char>>::empty());
        r
    }

    /// Add a document reference to this message
    pub fn with_document(self, doc_id: u128) -> (r: Self)
        ensures
            r@ == (ChatMessageView { document_ref: Some(doc_id), ..self@ }),
    {
        let mut m = self;
        m.document_ref = Some(doc_id);
        m
    }

    /// Vote on this message (true for approval, false for disapproval)
    ///
    /// A voter holds one vote: an earlier vote by the same voter is taken
    /// off its count and out of the lists, and the voter is listed last
    /// with the new vote.
    pub fn vote(&mut self, voter_id: String, approve: bool)
        requires
            old(self)@.wf(),
            old(self)@.voters.len() < u32::MAX,
        ensures
            final(self)@ == voted(old(self)@, voter_id@, approve),
            final(self)@.wf(),
            final(self)@.votes.0 == old(self)@.votes.0 - (if ballot_of(old(self)@, voter_id@)
                == Some(true) { 1int } else { 0int }) + (if approve { 1int } else { 0int }),
            final(self)@.votes.1 == old(self)@.votes.1 - (if ballot_of(old(self)@, voter_id@)
                == Some(false) { 1int } else { 0int }) + (if approve { 0int } else { 1int }),
    {
        let ghost m0 = self@;
        let ghost v = voter_id@;
        proof {
            lemma_count_ballots_total(m0.ballots);
        }
        // Remove existing vote from this voter if any
        match position_of(&self.voters, voter_id.as_str()) {
            Some(k) => {
                proof {
                    m0.ballots.remove_ensures(k as int);
                    lemma_count_ballots_remove(m0.ballots, k as int, true);
                    lemma_count_ballots_remove(m0.ballots, k as int, false);
                    assert(m0.voters.index_of(v) == k as int) by {
                        let j = m0.voters.index_of(v);
                        assert(m0.voters[k as int] == v);
                        assert(0 <= j < m0.voters.len() && m0.voters[j] == v);
                    }
                }
                let _gone = self.voters.remove(k);
                let earlier = self.ballots.remove(k);
                if earlier {
                    self.votes.0 = self.votes.0 - 1;
                } else {
                    self.votes.1 = self.votes.1 - 1;
                }
                proof {
                    assert(texts(self.voters@) =~= m0.voters.remove(k as int));
                    lemma_remove_keeps_distinct(m0.voters, k as int);
                }
            },
            None => {},
        }
        let ghost mid = self@;
        proof {
            lemma_count_ballots_total(mid.ballots);
            lemma_count_ballots_push(mid.ballots, approve, true);
            lemma_count_ballots_push(mid.ballots, approve, false);
        }
        if approve {
            self.votes.0 = self.votes.0 + 1;
        } else {
            self.votes.1 = self.votes.1 + 1;
        }
        self.voters.push(voter_id);
        self.ballots.push(approve);
        proof {
            assert(texts(self.voters@) =~= mid.voters.push(v));
            assert(!mid.voters.contains(v));
            lemma_push_keeps_distinct(mid.voters, v);
        }
    }

    /// Truncate content to a maximum word count
    pub fn truncate_content(&self, max_words: usize) -> (r: String)
        ensures
            r@ == truncated_words(self@.content, max_words),
    {
        truncate_words(self.content.as_str(), max_words)
    }
}

/// Number of `value` ballots in `ballots`.
pub open spec fn count_ballots(ballots: Seq<bool>, value: bool) -> nat
    decreases ballots.len(),
{
    if ballots.len() == 0 {
        0
    } else {
        count_ballots(ballots.drop_last(), value) + if ballots.last() == value {
            1nat
        } else {
            0nat
        }
    }
}

impl ChatMessageView {
    /// The tally agrees with the ballots: one ballot per voter, no voter
    /// listed twice, and the counts are those of the ballots.
    pub open spec fn wf(self) -> bool {
        &&& self.ballots.len() == self.voters.len()
        &&& self.voters.no_duplicates()
        &&& self.votes.0 == count_ballots(self.ballots, true)
        &&& self.votes.1 == count_ballots(self.ballots, false)
    }
}

/// The vote that `voter` has cast on `m`, if any.
pub open spec fn ballot_of(m: ChatMessageView, voter: Seq<char>) -> Option<bool> {
    if m.voters.contains(voter) {
        Some(m.ballots[m.voters.index_of(voter)])
    } else {
        None
    }
}

/// The message `m` after `voter` votes `approve`: the voter's earlier
/// entry, if any, leaves both lists, the voter and the new vote come last,
/// and the counts are recounted from the ballots.
pub open spec fn voted(m: ChatMessageView, voter: Seq<char>, approve: bool) -> ChatMessageView {
    let (voters, ballots) = if m.voters.contains(voter) {
        let k = m.voters.index_of(voter);
        (m.voters.remove(k), m.ballots.remove(k))
    } else {
        (m.voters, m.ballots)
    };
    let ballots = ballots.push(approve);
    ChatMessageView {
        voters: voters.push(voter),
        ballots,
        votes: (count_ballots(ballots, true) as u32, count_ballots(ballots, false) as u32),
        ..m
    }
}

/// Each voter is counted once: on a message whose tally agrees with its
/// ballots, approvals and disapprovals add up to the number of voters.
pub proof fn lemma_votes_count_voters(m: ChatMessageView)
    requires
        m.wf(),
    ensures
        m.votes.0 + m.votes.1 == m.voters.len(),
{
    lemma_count_ballots_total(m.ballots);
}

/// Approvals and disapprovals together are all the ballots.
proof fn lemma_count_ballots_total(b: Seq<bool>)
    ensures
        count_ballots(b, true) + count_ballots(b, false) == b.len(),
    decreases b.len(),
{
    if b.len() > 0 {
        lemma_count_ballots_total(b.drop_last());
    }
}

/// A ballot added last is counted once more.
proof fn lemma_count_ballots_push(b: Seq<bool>, x: bool, value: bool)
    ensures
        count_ballots(b.push(x), value) == count_ballots(b, value) + if x == value {
            1nat
        } else {
            0nat
        },
{
    assert(b.push(x).drop_last() =~= b);
}

/// A ballot taken out is counted once less.
proof fn lemma_count_ballots_remove(b: Seq<bool>, k: int, value: bool)
    requires
        0 <= k < b.len(),
    ensures
        count_ballots(b.remove(k), value) + (if b[k] == value { 1nat } else { 0nat })
            == count_ballots(b, value),
    decreases b.len(),
{
    if k == b.len() - 1 {
        assert(b.remove(k) =~= b.drop_last());
    } else {
        lemma_count_ballots_remove(b.drop_last(), k, value);
        assert(b.remove(k).drop_last() =~= b.drop_last().remove(k));
        assert(b.remove(k).last() == b.last());
    }
}

/// Taking an entry out of a list without repeats leaves the other entries,
/// still without repeats, and the removed one no longer in it.
proof fn lemma_remove_keeps_distinct(s: Seq<Seq<char>>, k: int)
    requires
        s.no_duplicates(),
        0 <= k < s.len(),
    ensures
        s.remove(k).no_duplicates(),
        !s.remove(k).contains(s[k]),
{
    let r = s.remove(k);
    s.remove_ensures(k);
    assert forall|i: int, j: int| 0 <= i < r.len() && 0 <= j < r.len() && i != j implies r[i]
        != r[j] by {
        let si = if i < k { i } else { i + 1 };
        let sj = if j < k { j } else { j + 1 };
        assert(r[i] == s[si] && r[j] == s[sj]);
    }
    assert forall|i: int| 0 <= i < r.len() implies r[i] != s[k] by {
        let si = if i < k { i } else { i + 1 };
        assert(r[i] == s[si]);
    }
}

/// Adding an entry that is not in a list without repeats keeps it without
/// repeats.
proof fn lemma_push_keeps_distinct(s: Seq<Seq<char>>, v: Seq<char>)
    requires
        s.no_duplicates(),
        !s.contains(v),
    ensures
        s.push(v).no_duplicates(),
{
    let t = s.push(v);
    assert forall|i: int, j: int| 0 <= i < t.len() && 0 <= j < t.len() && i != j implies t[i]
        != t[j] by {
        if i < s.len() && j < s.len() {
            assert(t[i] == s[i] && t[j] == s[j]);
        } else if i < s.len() {
            assert(t[i] == s[i]);
        } else {
            assert(t[j] == s[j]);
        }
    }
}

/// Where `v` stands in `voters`, if anywhere.
fn position_of(voters: &Vec<String>, v: &str) -> (r: Option<usize>)
    ensures
        match r {
            Some(k) => k < voters@.len() && voters@[k as int]@ == v@,
            None => !texts(voters@).contains(v@),
        },
{
    let mut i: usize = 0;
    while i < voters.len()
        invariant
            i <= voters@.len(),
            forall|j: int| 0 <= j < i ==> voters@[j]@ != v@,
        decreases voters@.len() - i,
    {
        if str_eq(voters[i].as_str(), v) {
            return Some(i);
        }
        i = i + 1;
    }
    proof {
        assert forall|j: int| 0 <= j < texts(voters@).len() implies texts(voters@)[j] != v@ by {
            assert(texts(voters@)[j] == voters@[j]@);
        }
    }
    None
}

/// A copy of a list of ballots.
fn clone_ballots(v: &Vec<bool>) -> (r: Vec<bool>)
    ensures
        r@ == v@,
{
    let mut out: Vec<bool> = Vec::new();
    let mut i: usize = 0;
    while i < v.len()
        invariant
            i <= v@.len(),
            out@ == v@.take(i as int),
        decreases v@.len() - i,
    {
        out.push(v[i]);
        assert(v@.take(i + 1) =~= v@.take(i as int).push(v@[i as int]));
        i = i + 1;
    }
    assert(v@.take(v@.len() as int) =~= v@);
    out
}

/// Priority levels for message delivery
#[derive(Debug, Clone, Copy, PartialEq, Eq, Structural, PartialOrd, Ord)]
pub enum MessagePriority {
    Low,
    Normal,
    High,
    Urgent,
}

/// Rank of a priority: `Low` is 0 and `Urgent` is 3.
pub open spec fn priority_rank(p: MessagePriority) -> nat {
    match p {
        MessagePriority::Low => 0,
        MessagePriority::Normal => 1,
        MessagePriority::High => 2,
        MessagePriority::Urgent => 3,
    }
}

impl MessagePriority {
    /// Rank of this priority: `Low` is 0 and `Urgent` is 3.
    pub fn rank(&self) -> (r: u8)
        ensures
            r == priority_rank(*self),
    {
        match self {
            MessagePriority::Low => 0,
            MessagePriority::Normal => 1,
            MessagePriority::High => 2,
            MessagePriority::Urgent => 3,
        }
    }
}

impl Default for MessagePriority {
    fn default() -> (r: Self)
        ensures
            r == MessagePriority::Normal,
    {
        MessagePriority::Normal
    }
}

/// Queued message with delivery metadata
#[derive(Debug)]
pub struct QueuedMessage {
    pub message: ChatMessage,
    pub priority: MessagePriority,
    pub retry_count: u32,
    /// When the message was queued (microseconds since the epoch)
    pub created_at: i64,
}

/// The value of a queued message.
pub struct QueuedMessageView {
    pub message: ChatMessageView,
    pub priority: MessagePriority,
    pub retry_count: u32,
    pub created_at: i64,
}

impl View for QueuedMessage {
    type V = QueuedMessageView;

    open spec fn view(&self) -> QueuedMessageView {
        QueuedMessageView {
            message: self.message@,
            priority: self.priority,
            retry_count: self.retry_count,
            created_at: self.created_at,
        }
    }
}

/// The view of a queued message, as a function.
pub open spec fn queued_view() -> spec_fn(QueuedMessage) -> QueuedMessageView {
    |q: QueuedMessage| q@
}

impl Clone for QueuedMessage {
    fn clone(&self) -> (r: Self)
        ensures
            r@ == self@,
    {
        QueuedMessage {
            message: self.message.clone(),
            priority: self.priority,
            retry_count: self.retry_count,
            created_at: self.created_at,
        }
    }
}

/// Position `p` holds the next message to deliver: the first of those with
/// the highest priority.
pub open spec fn is_next(items: Seq<QueuedMessageView>, p: int) -> bool {
    &&& 0 <= p < items.len()
    &&& forall|j: int|
        0 <= j < items.len() ==> priority_rank(#[trigger] items[j].priority) <= priority_rank(
            items[p].priority,
        )
    &&& forall|j: int|
        0 <= j < p ==> priority_rank(#[trigger] items[j].priority) < priority_rank(
            items[p].priority,
        )
}

/// Message queue for managing message delivery
///
/// A bounded queue that delivers the most urgent message first, and
/// messages of equal priority in the order in which they were queued.
#[derive(Debug)]
pub struct MessageQueue {
    items: Vec<QueuedMessage>,
    capacity: usize,
}

impl Clone for MessageQueue {
    fn clone(&self) -> (r: Self)
        ensures
            r.items() == self.items(),
            r.capacity() == self.capacity(),
    {
        let mut items: Vec<QueuedMessage> = Vec::new();
        let mut i: usize = 0;
        while i < self.items.len()
            invariant
                i <= self.items@.len(),
                items@.len() == i,
                items@.map_values(queued_view()) == self.items@.take(i as int).map_values(queued_view()),
            decreases self.items@.len() - i,
        {
            let ghost before = items@;
            let c = self.items[i].clone();
            items.push(c);
            assert forall|k: int| 0 <= k < i + 1 implies #[trigger] items@.map_values(queued_view())[k]
                == self.items@.take(i + 1).map_values(queued_view())[k] by {
                if k < i {
                    assert(items@[k] == before[k]);
                    assert(before.map_values(queued_view())[k] == self.items@.take(i as int).map_values(
                        queued_view(),
                    )[k]);
                }
            }
            assert(items@.map_values(queued_view()) =~= self.items@.take(i + 1).map_values(queued_view()));
            i = i + 1;
        }
        let r = MessageQueue { items, capacity: self.capacity };
        assert(r.items() =~= self.items());
        r
    }
}

impl MessageQueue {
    /// The queued messages, in the order in which they were queued.
    pub closed spec fn items(&self) -> Seq<QueuedMessageView> {
        self.items@.map_values(queued_view())
    }

    /// How many messages the queue holds at most.
    pub closed spec fn capacity(&self) -> nat {
        self.capacity as nat
    }

    /// Well-formedness: a positive capacity that the queue does not exceed.
    pub open spec fn wf(&self) -> bool {
        0 < self.capacity() && self.items().len() <= self.capacity()
    }

    /// Create a new message queue with specified capacity
    pub fn new(capacity: usize) -> (r: Self)
        requires
            capacity > 0,
        ensures
            r.wf(),
            r.items() == Seq::<QueuedMessageView>::empty(),
            r.capacity() == capacity,
    {
        let r = Self { items: Vec::new(), capacity };
        assert(r.items() =~= Seq::<QueuedMessageView>::empty());
        r
    }

    /// Enqueue a message with normal priority
    pub fn enqueue(&mut self, message: ChatMessage) -> (r: Result<(), MessageQueueError>)
        requires
            old(self).wf(),
        ensures
            final(self).wf(),
            final(self).capacity() == old(self).capacity(),
            old(self).items().len() < old(self).capacity() ==> r is Ok && final(self).items().len()
                == old(self).items().len() + 1 && final(self).items().drop_last() == old(
                self,
            ).items() && final(self).items().last().message == message@
                && final(self).items().last().priority == MessagePriority::Normal
                && final(self).items().last().retry_count == 0,
            old(self).items().len() >= old(self).capacity() ==> r == Err::<(), MessageQueueError>(
                MessageQueueError::QueueFull,
            ) && final(self).items() == old(self).items(),
    {
        self.enqueue_with_priority(message, MessagePriority::Normal)
    }

    /// Enqueue a message with specified priority
    ///
    /// A full queue refuses the message.
    pub fn enqueue_with_priority(&mut self, message: ChatMessage, priority: MessagePriority) -> (r:
        Result<(), MessageQueueError>)
        requires
            old(self).wf(),
        ensures
            final(self).wf(),
            final(self).capacity() == old(self).capacity(),
            old(self).items().len() < old(self).capacity() ==> r is Ok && final(self).items().len()
                == old(self).items().len() + 1 && final(self).items().drop_last() == old(
                self,
            ).items() && final(self).items().last().message == message@
                && final(self).items().last().priority == priority
                && final(self).items().last().retry_count == 0,
            old(self).items().len() >= old(self).capacity() ==> r == Err::<(), MessageQueueError>(
                MessageQueueError::QueueFull,
            ) && final(self).items() == old(self).items(),
    {
        if self.items.len() >= self.capacity {
            return Err(MessageQueueError::QueueFull);
        }
        let queued = QueuedMessage { message, priority, retry_count: 0, created_at: now_micros() };
        self.items.push(queued);
        assert(self.items().drop_last() =~= old(self).items());
        Ok(())
    }

    /// Dequeue the next message (priority-aware)
    ///
    /// The next message is the earliest queued of those with the highest
    /// priority; an empty queue gives `QueueEmpty`.
    pub fn dequeue(&mut self) -> (r: Result<QueuedMessage, MessageQueueError>)
        requires
            old(self).wf(),
        ensures
            final(self).wf(),
            final(self).capacity() == old(self).capacity(),
            old(self).items().len() == 0 ==> r == Err::<QueuedMessage, MessageQueueError>(
                MessageQueueError::QueueEmpty,
            ) && final(self).items() == old(self).items(),
            old(self).items().len() > 0 ==> exists|p: int|
                {
                    &&& is_next(old(self).items(), p)
                    &&& r matches Ok(q) && q@ == old(self).items()[p]
                    &&& final(self).items() == old(self).items().remove(p)
                },
    {
        if self.items.len() == 0 {
            return Err(MessageQueueError::QueueEmpty);
        }
        let mut best: usize = 0;
        let mut best_rank = self.items[0].priority.rank();
        let mut i: usize = 1;
        while i < self.items.len()
            invariant
                1 <= i <= self.items@.len(),
                best < i,
                best_rank == priority_rank(self.items()[best as int].priority),
                forall|j: int|
                    0 <= j < i ==> priority_rank(#[trigger] self.items()[j].priority) <= best_rank,
                forall|j: int|
                    0 <= j < best ==> priority_rank(#[trigger] self.items()[j].priority) < best_rank,
            decreases self.items@.len() - i,
        {
            let rank = self.items[i].priority.rank();
            if rank > best_rank {
                best = i;
                best_rank = rank;
            }
            i = i + 1;
        }
        assert(is_next(self.items(), best as int));
        let m = self.items.remove(best);
        assert(self.items() =~= old(self).items().remove(best as int));
        Ok(m)
    }

    /// Get the current queue size: how many more messages it accepts.
    pub fn size(&self) -> (r: usize)
        requires
            self.wf(),
        ensures
            r == self.capacity() - self.items().len(),
    {
        self.capacity - self.items.len()
    }
}

/// Of two queued messages with the same priority, the earlier one is
/// delivered first: the later one is never the next while the earlier one
/// waits.
pub proof fn lemma_same_priority_fifo(items: Seq<QueuedMessageView>, i: int, j: int)
    requires
        0 <= i < j < items.len(),
        items[i].priority == items[j].priority,
    ensures
        !is_next(items, j),
{
}

/// The next message is unique.
pub proof fn lemma_next_unique(items: Seq<QueuedMessageView>, p: int, q: int)
    requires
        is_next(items, p),
        is_next(items, q),
    ensures
        p == q,
{
    if p < q {
        assert(priority_rank(items[p].priority) < priority_rank(items[q].priority));
    } else if q < p {
        assert(priority_rank(items[q].priority) < priority_rank(items[p].priority));
    }
}

/// Errors that can occur in message queue operations
#[derive(Debug)]
pub enum MessageQueueError {
    QueueFull,
    QueueEmpty,
    OperationFailed(String),
}

/// The text that describes a queue error.
pub open spec fn queue_error_text(e: MessageQueueError) -> Seq<char> {
    match e {
        MessageQueueError::QueueFull => "Queue is full"@,
        MessageQueueError::QueueEmpty => "Queue is empty"@,
        MessageQueueError::OperationFailed(s) => "Queue operation failed: "@ + s@,
    }
}

impl MessageQueueError {
    /// The text that describes this error.
    pub fn message(&self) -> (r: String)
        ensures
            r@ == queue_error_text(*self),
    {
        match self {
            MessageQueueError::QueueFull => string_of("Queue is full"),
            MessageQueueError::QueueEmpty => string_of("Queue is empty"),
            MessageQueueError::OperationFailed(s) => {
                let mut r = string_of("Queue operation failed: ");
                r.append(s.as_str());
                r
            },
        }
    }
}

} // verus!

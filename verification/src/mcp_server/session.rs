//! MCP Session Management
//!
//! This module handles individual agent sessions and their state.

use vstd::prelude::*;
use crate::utils::ids::{new_id_string, now_micros, uuid_text};
use crate::utils::keyed::{
    has_key, key_pos, keys_distinct, lemma_to_map_at, lemma_to_map_len, lemma_to_map_remove,
    lemma_to_map_update,
    lemma_upsert, to_map, upsert,
};
use crate::utils::text::str_eq;
use crate::message_router::channel::{clone_strings, lemma_texts_take, not_text, texts};
use crate::permission::permission::PermissionScope;
use crate::permission::storage::PermissionStorage;
use super::handshake::HandshakeState;

verus! {

/// Agent session information
#[derive(Debug)]
pub struct AgentInfo {
    /// Unique agent identifier
    pub id: String,
    /// Human-readable name
    pub name: String,
    /// Agent capabilities
    pub capabilities: Vec<String>,
    /// Connection timestamp (microseconds since the epoch)
    pub connected_at: i64,
}

/// The value of agent information.
pub struct AgentView {
    pub id: Seq<char>,
    pub name: Seq<char>,
    pub capabilities: Seq<Seq<char>>,
    pub connected_at: i64,
}

impl View for AgentInfo {
    type V = AgentView;

    open spec fn view(&self) -> AgentView {
        AgentView {
            id: self.id@,
            name: self.name@,
            capabilities: texts(self.capabilities@),
            connected_at: self.connected_at,
        }
    }
}

/// Session state
#[derive(Debug, Clone, Copy, PartialEq, Eq, Structural)]
pub enum SessionState {
    /// Handshake in progress
    Handshaking,
    /// Authenticated and active
    Active,
    /// Session suspended
    Suspended,
    /// Session terminated
    Terminated,
}

/// Individual agent session
#[derive(Debug)]
pub struct Session {
    /// Unique session ID
    pub id: String,
    /// Associated agent info
    pub agent: Option<AgentInfo>,
    /// Current session state
    pub state: SessionState,
    /// Handshake state tracker
    pub handshake_state: HandshakeState,
    /// Last activity timestamp (microseconds since the epoch)
    pub last_activity: i64,
    /// Private channels this agent is part of
    pub private_channels: Vec<String>,
}

/// The value of a session.
pub struct SessionView {
    pub id: Seq<char>,
    pub agent: Option<AgentView>,
    pub state: SessionState,
    pub handshake_state: HandshakeState,
    pub last_activity: i64,
    pub private_channels: Seq<Seq<char>>,
}

impl View for Session {
    type V = SessionView;

    open spec fn view(&self) -> SessionView {
        SessionView {
            id: self.id@,
            agent: match self.agent {
                Some(a) => Some(a@),
                None => None,
            },
            state: self.state,
            handshake_state: self.handshake_state,
            last_activity: self.last_activity,
            private_channels: texts(self.private_channels@),
        }
    }
}

/// The whole seconds in `micros` microseconds, rounded toward zero (as
/// `chrono::TimeDelta::num_seconds` counts them).
pub open spec fn whole_seconds(micros: int) -> int {
    if micros >= 0 {
        micros / 1_000_000
    } else {
        -((-micros) / 1_000_000)
    }
}

/// Whether a session last active at `last` has expired at `now`: more
/// than `timeout_seconds` whole seconds have passed.
pub open spec fn expired_since(last: i64, now: i64, timeout_seconds: i64) -> bool {
    whole_seconds(now - last) > timeout_seconds
}

/// Whether the session has an agent with this identifier.
pub open spec fn has_agent(s: SessionView, agent_id: Seq<char>) -> bool {
    s.agent matches Some(a) && a.id == agent_id
}

impl Session {
    /// Create a new session
    ///
    /// A fresh identifier in text form, no agent, handshaking, no private
    /// channels.
    pub fn new() -> (r: Self)
        ensures
            exists|a: u128| r@.id == uuid_text(a),
            r@.agent is None,
            r@.state == SessionState::Handshaking,
            r@.handshake_state == HandshakeState::Init,
            r@.private_channels == Seq::<Seq<char>>::empty(),
    {
        let r = Self {
            id: new_id_string(),
            agent: None,
            state: SessionState::Handshaking,
            handshake_state: HandshakeState::new(),
            last_activity: now_micros(),
            private_channels: Vec::new(),
        };
        assert(r@.private_channels =~= Seq::<Seq<char>>::empty());
        r
    }

    /// Records activity at time `now`: only the last activity changes.
    pub fn touch_at(&mut self, now: i64)
        ensures
            final(self)@ == (SessionView { last_activity: now, ..old(self)@ }),
    {
        self.last_activity = now;
    }

    /// Update last activity timestamp
    ///
    /// This is `touch_at` for the time read from the clock.
    pub fn touch(&mut self)
        ensures
            final(self)@ == (SessionView { last_activity: final(self)@.last_activity, ..old(self)@ }),
    {
        let now = now_micros();
        self.touch_at(now);
    }

    /// Register agent info after successful handshake
    pub fn register_agent(&mut self, agent_id: String, name: String, capabilities: Vec<String>)
        ensures
            final(self)@ == (SessionView { agent: final(self)@.agent, ..old(self)@ }),
            final(self)@.agent matches Some(a) && {
                &&& a.id == agent_id@
                &&& a.name == name@
                &&& a.capabilities == texts(capabilities@)
            },
    {
        self.agent = Some(
            AgentInfo { id: agent_id, name, capabilities, connected_at: now_micros() },
        );
    }

    /// Activate session after successful authentication
    pub fn activate(&mut self)
        ensures
            final(self)@ == (SessionView { state: SessionState::Active, ..old(self)@ }),
    {
        self.state = SessionState::Active;
    }

    /// Suspend session
    pub fn suspend(&mut self)
        ensures
            final(self)@ == (SessionView { state: SessionState::Suspended, ..old(self)@ }),
    {
        self.state = SessionState::Suspended;
    }

    /// Terminate session
    pub fn terminate(&mut self)
        ensures
            final(self)@ == (SessionView { state: SessionState::Terminated, ..old(self)@ }),
    {
        self.state = SessionState::Terminated;
    }

    /// Check if session is active
    pub fn is_active(&self) -> (r: bool)
        ensures
            r == (self@.state == SessionState::Active),
    {
        self.state == SessionState::Active
    }

    /// Get agent ID if available
    pub fn agent_id(&self) -> (r: Option<&str>)
        ensures
            match self@.agent {
                Some(a) => r matches Some(s) && s@ == a.id,
                None => r is None,
            },
    {
        match &self.agent {
            Some(a) => Some(a.id.as_str()),
            None => None,
        }
    }

    /// Whether the session's agent has an active permission for `scope` at
    /// time `now` in `permissions`; a session without agent has none.
    pub fn has_permission_at(
        &self,
        permissions: &PermissionStorage,
        scope: &PermissionScope,
        now: i64,
    ) -> (r: bool)
        requires
            permissions.wf(),
        ensures
            match self@.agent {
                Some(a) => r == (permissions.active_by_scope(a.id, *scope, now).len() > 0),
                None => !r,
            },
    {
        match &self.agent {
            Some(agent) => permissions.has_permission_at(agent.id.as_str(), scope, now),
            None => false,
        }
    }

    /// Check if agent has specific permission
    ///
    /// The answer is `has_permission_at` for the time read from the clock.
    pub fn has_permission(&self, permissions: &PermissionStorage, scope: &PermissionScope) -> (r:
        bool)
        requires
            permissions.wf(),
        ensures
            match self@.agent {
                Some(a) => exists|now: i64|
                    r == (#[trigger] permissions.active_by_scope(a.id, *scope, now).len() > 0),
                None => !r,
            },
    {
        let now = now_micros();
        self.has_permission_at(permissions, scope, now)
    }

    /// Add agent to a private channel
    pub fn join_private_channel(&mut self, channel_id: String)
        ensures
            old(self)@.private_channels.contains(channel_id@) ==> final(self)@ == old(self)@,
            !old(self)@.private_channels.contains(channel_id@) ==> final(self)@ == (SessionView {
                private_channels: old(self)@.private_channels.push(channel_id@),
                ..old(self)@
            }),
    {
        let mut i: usize = 0;
        while i < self.private_channels.len()
            invariant
                i <= self.private_channels@.len(),
                forall|k: int| 0 <= k < i ==> #[trigger] self.private_channels@[k]@ != channel_id@,
            decreases self.private_channels@.len() - i,
        {
            if str_eq(self.private_channels[i].as_str(), channel_id.as_str()) {
                assert(self@.private_channels[i as int] == channel_id@);
                return;
            }
            i = i + 1;
        }
        assert(!old(self)@.private_channels.contains(channel_id@)) by {
            assert forall|k: int| 0 <= k < self@.private_channels.len() implies self@.private_channels[k]
                != channel_id@ by {
                assert(self@.private_channels[k] == self.private_channels@[k]@);
            }
        }
        self.private_channels.push(channel_id);
        assert(self@.private_channels =~= old(self)@.private_channels.push(channel_id@));
    }

    /// Remove agent from a private channel
    pub fn leave_private_channel(&mut self, channel_id: &str)
        ensures
            final(self)@ == (SessionView {
                private_channels: old(self)@.private_channels.filter(not_text(channel_id@)),
                ..old(self)@
            }),
    {
        let ghost pred = not_text(channel_id@);
        let ghost before = self.private_channels@;
        let mut kept: Vec<String> = Vec::new();
        let mut i: usize = 0;
        while i < self.private_channels.len()
            invariant
                self.private_channels@ == before,
                i <= before.len(),
                texts(kept@) == texts(before.take(i as int)).filter(pred),
                pred == not_text(channel_id@),
            decreases before.len() - i,
        {
            proof {
                reveal_with_fuel(Seq::filter, 1);
                lemma_texts_take(before, i as int);
                assert(texts(before.take(i + 1)).drop_last() =~= texts(before.take(i as int)));
            }
            if !str_eq(self.private_channels[i].as_str(), channel_id) {
                let ghost k0 = kept@;
                kept.push(self.private_channels[i].clone());
                assert(texts(kept@) =~= texts(k0).push(before[i as int]@));
            }
            i = i + 1;
        }
        assert(before.take(before.len() as int) =~= before);
        self.private_channels = kept;
    }

    /// Whether the session has expired at time `now`: no activity for more
    /// than `timeout_seconds` whole seconds.
    pub fn is_expired_at(&self, now: i64, timeout_seconds: i64) -> (r: bool)
        ensures
            r == expired_since(self@.last_activity, now, timeout_seconds),
    {
        let diff: i128 = now as i128 - self.last_activity as i128;
        let elapsed: i128 = if diff >= 0 {
            diff / 1_000_000
        } else {
            -((-diff) / 1_000_000)
        };
        elapsed > timeout_seconds as i128
    }

    /// Check if session has expired (no activity for extended period)
    ///
    /// The answer is `is_expired_at` for the time read from the clock.
    pub fn is_expired(&self, timeout_seconds: i64) -> (r: bool)
        ensures
            exists|now: i64| r == expired_since(self@.last_activity, now, timeout_seconds),
    {
        let now = now_micros();
        self.is_expired_at(now, timeout_seconds)
    }
}

/// Key of a session: its identifier.
pub open spec fn session_key() -> spec_fn(SessionView) -> Seq<char> {
    |s: SessionView| s.id
}

/// Value of a session: the session itself.
pub open spec fn session_val() -> spec_fn(SessionView) -> SessionView {
    |s: SessionView| s
}

/// The view of a session, as a function.
pub open spec fn session_view() -> spec_fn(Session) -> SessionView {
    |s: Session| s@
}

/// Holds of sessions that have not expired at `now`.
pub open spec fn live_at(now: i64, timeout_seconds: i64) -> spec_fn(SessionView) -> bool {
    |s: SessionView| !expired_since(s.last_activity, now, timeout_seconds)
}

/// Holds of sessions that have expired at `now`.
pub open spec fn expired_at(now: i64, timeout_seconds: i64) -> spec_fn(SessionView) -> bool {
    |s: SessionView| expired_since(s.last_activity, now, timeout_seconds)
}

/// Session manager for tracking all active sessions
#[derive(Debug)]
pub struct SessionManager {
    sessions: Vec<Session>,
}

impl SessionManager {
    /// The sessions, in the order in which they were added.
    pub closed spec fn session_views(&self) -> Seq<SessionView> {
        self.sessions@.map_values(session_view())
    }

    /// The sessions by identifier.
    pub open spec fn sessions(&self) -> Map<Seq<char>, SessionView> {
        to_map(self.session_views(), session_key(), session_val())
    }

    /// Well-formedness: no session identifier twice.
    pub closed spec fn wf(&self) -> bool {
        keys_distinct(self.session_views(), session_key())
    }

    /// In a well-formed manager the sessions have distinct identifiers.
    pub proof fn lemma_wf(&self)
        requires
            self.wf(),
        ensures
            keys_distinct(self.session_views(), session_key()),
    {
    }

    /// Create a new session manager
    pub fn new() -> (r: Self)
        ensures
            r.wf(),
            r.session_views() == Seq::<SessionView>::empty(),
    {
        let r = Self { sessions: Vec::new() };
        assert(r.session_views() =~= Seq::<SessionView>::empty());
        r
    }

    fn find(&self, session_id: &str) -> (r: Option<usize>)
        requires
            self.wf(),
        ensures
            match r {
                Some(i) => {
                    &&& i < self.sessions@.len()
                    &&& self.sessions().contains_key(session_id@)
                    &&& self.sessions()[session_id@] == self.sessions@[i as int]@
                    &&& key_pos(self.session_views(), session_key(), session_id@) == i
                },
                None => !self.sessions().contains_key(session_id@),
            },
    {
        let mut i: usize = 0;
        while i < self.sessions.len()
            invariant
                self.wf(),
                i <= self.sessions@.len(),
                forall|k: int| 0 <= k < i ==> self.session_views()[k].id != session_id@,
            decreases self.sessions@.len() - i,
        {
            if str_eq(self.sessions[i].id.as_str(), session_id) {
                proof {
                    lemma_to_map_at(self.session_views(), session_key(), session_val(), i as int);
                }
                return Some(i);
            }
            i = i + 1;
        }
        assert forall|k: int| 0 <= k < self.session_views().len() implies #[trigger] session_key()(
            self.session_views()[k],
        ) != session_id@ by {}
        None
    }

    /// Add a new session
    ///
    /// A session with an identifier already present replaces that one.
    pub fn add_session(&mut self, session: Session) -> (r: String)
        requires
            old(self).wf(),
        ensures
            final(self).wf(),
            r@ == session@.id,
            final(self).session_views() == upsert(old(self).session_views(), session_key(), session@),
            final(self).sessions() == old(self).sessions().insert(session@.id, session@),
    {
        let session_id = session.id.clone();
        let ghost sv = session@;
        proof {
            lemma_upsert(self.session_views(), session_key(), session_val(), sv);
        }
        match self.find(session_id.as_str()) {
            Some(i) => {
                self.sessions.set(i, session);
                assert(self.session_views() =~= old(self).session_views().update(i as int, sv));
            },
            None => {
                assert(!has_key(old(self).session_views(), session_key(), sv.id));
                self.sessions.push(session);
                assert(self.session_views() =~= old(self).session_views().push(sv));
            },
        }
        session_id
    }

    /// Get a session by ID
    pub fn get_session(&self, session_id: &str) -> (r: Option<&Session>)
        requires
            self.wf(),
        ensures
            match r {
                Some(s) => self.sessions().contains_key(session_id@) && s@ == self.sessions()[session_id@],
                None => !self.sessions().contains_key(session_id@),
            },
    {
        match self.find(session_id) {
            Some(i) => Some(&self.sessions[i]),
            None => None,
        }
    }

    /// Get session by agent ID
    ///
    /// The first session, in the order of addition, whose agent has this
    /// identifier.
    pub fn get_session_by_agent(&self, agent_id: &str) -> (r: Option<&Session>)
        requires
            self.wf(),
        ensures
            match r {
                Some(s) => exists|i: int|
                    {
                        &&& 0 <= i < self.session_views().len()
                        &&& s@ == self.session_views()[i]
                        &&& has_agent(self.session_views()[i], agent_id@)
                        &&& forall|k: int|
                            0 <= k < i ==> !has_agent(#[trigger] self.session_views()[k], agent_id@)
                    },
                None => forall|k: int|
                    0 <= k < self.session_views().len() ==> !has_agent(
                        #[trigger] self.session_views()[k],
                        agent_id@,
                    ),
            },
    {
        let mut i: usize = 0;
        while i < self.sessions.len()
            invariant
                i <= self.sessions@.len(),
                forall|k: int| 0 <= k < i ==> !has_agent(#[trigger] self.session_views()[k], agent_id@),
            decreases self.sessions@.len() - i,
        {
            match &self.sessions[i].agent {
                Some(agent) => {
                    if str_eq(agent.id.as_str(), agent_id) {
                        assert(has_agent(self.session_views()[i as int], agent_id@));
                        return Some(&self.sessions[i]);
                    }
                },
                None => {},
            }
            i = i + 1;
        }
        None
    }

    /// Remove a session
    pub fn remove_session(&mut self, session_id: &str) -> (r: Option<Session>)
        requires
            old(self).wf(),
        ensures
            final(self).wf(),
            final(self).sessions() == old(self).sessions().remove(session_id@),
            match r {
                Some(s) => old(self).sessions().contains_key(session_id@) && s@ == old(
                    self,
                ).sessions()[session_id@] && final(self).session_views() == old(
                    self,
                ).session_views().remove(key_pos(old(self).session_views(), session_key(), session_id@)),
                None => !old(self).sessions().contains_key(session_id@) && final(self).session_views()
                    == old(self).session_views(),
            },
    {
        match self.find(session_id) {
            Some(i) => {
                proof {
                    lemma_to_map_at(self.session_views(), session_key(), session_val(), i as int);
                    lemma_to_map_remove(self.session_views(), session_key(), session_val(), i as int);
                }
                let s = self.sessions.remove(i);
                assert(self.session_views() =~= old(self).session_views().remove(i as int));
                Some(s)
            },
            None => {
                assert(self.sessions() =~= old(self).sessions().remove(session_id@));
                None
            },
        }
    }

    /// Marks activity at time `now` on the session with this identifier;
    /// says whether there is one. Only its last activity changes, to `now`.
    pub fn touch_session_at(&mut self, session_id: &str, now: i64) -> (r: bool)
        requires
            old(self).wf(),
        ensures
            final(self).wf(),
            r == old(self).sessions().contains_key(session_id@),
            !r ==> final(self).session_views() == old(self).session_views(),
            r ==> {
                let p = key_pos(old(self).session_views(), session_key(), session_id@);
                let s = old(self).session_views()[p];
                &&& 0 <= p < old(self).session_views().len()
                &&& final(self).session_views() == old(self).session_views().update(
                    p,
                    SessionView { last_activity: now, ..s },
                )
                &&& final(self).sessions() == old(self).sessions().insert(
                    session_id@,
                    SessionView { last_activity: now, ..old(self).sessions()[session_id@] },
                )
            },
    {
        match self.find(session_id) {
            Some(i) => {
                let mut s = self.sessions.remove(i);
                s.touch_at(now);
                let ghost sv = s@;
                self.sessions.insert(i, s);
                assert(self.session_views() =~= old(self).session_views().update(i as int, sv));
                proof {
                    lemma_to_map_at(old(self).session_views(), session_key(), session_val(), i as int);
                    lemma_to_map_update(old(self).session_views(), session_key(), session_val(), i as int, sv);
                    lemma_to_map_at(self.session_views(), session_key(), session_val(), i as int);
                    let t = self.session_views();
                    assert forall|a: int, b: int|
                        0 <= a < t.len() && 0 <= b < t.len() && a != b implies #[trigger] session_key()(t[a])
                        != #[trigger] session_key()(t[b]) by {
                        let o = old(self).session_views();
                        assert(session_key()(t[a]) == session_key()(o[a]));
                        assert(session_key()(t[b]) == session_key()(o[b]));
                    }
                }
                true
            },
            None => false,
        }
    }

    /// Get all active sessions
    pub fn get_all_sessions(&self) -> (r: &Vec<Session>)
        ensures
            r@.map_values(session_view()) == self.session_views(),
    {
        &self.sessions
    }

    /// Get session count
    pub fn count(&self) -> (r: usize)
        requires
            self.wf(),
        ensures
            r == self.sessions().len(),
            r == self.session_views().len(),
    {
        proof {
            lemma_to_map_len(self.session_views(), session_key(), session_val());
        }
        self.sessions.len()
    }

    /// Removes the sessions expired at time `now` and returns their
    /// identifiers, in the order of addition.
    pub fn cleanup_expired_at(&mut self, now: i64, timeout_seconds: i64) -> (r: Vec<String>)
        requires
            old(self).wf(),
        ensures
            final(self).wf(),
            final(self).session_views() == old(self).session_views().filter(
                live_at(now, timeout_seconds),
            ),
            texts(r@) == old(self).session_views().filter(expired_at(now, timeout_seconds)).map_values(
                |s: SessionView| s.id,
            ),
    {
        let ghost live = live_at(now, timeout_seconds);
        let ghost dead = expired_at(now, timeout_seconds);
        let ghost before = self.session_views();
        let mut expired_ids: Vec<String> = Vec::new();
        let mut j: usize = 0;
        let ghost mut i: int = 0;
        while j < self.sessions.len()
            invariant
                0 <= i <= before.len(),
                self.session_views() == before.take(i).filter(live) + before.skip(i),
                j == before.take(i).filter(live).len(),
                texts(expired_ids@) == before.take(i).filter(dead).map_values(
                    |s: SessionView| s.id,
                ),
                live == live_at(now, timeout_seconds),
                dead == expired_at(now, timeout_seconds),
            decreases self.sessions@.len() - j,
        {
            let ghost kept = before.take(i).filter(live);
            proof {
                reveal_with_fuel(Seq::filter, 1);
                assert(before.take(i + 1).drop_last() =~= before.take(i));
                assert(self.session_views()[j as int] == before[i]);
                assert(self.sessions@[j as int]@ == before[i]);
                assert(before.skip(i).drop_first() =~= before.skip(i + 1));
            }
            if self.sessions[j].is_expired_at(now, timeout_seconds) {
                let ghost e0 = expired_ids@;
                let ghost v0 = self.session_views();
                let s = self.sessions.remove(j);
                expired_ids.push(s.id);
                assert(texts(expired_ids@) =~= texts(e0).push(before[i].id));
                assert(before.take(i + 1).filter(dead).map_values(|s: SessionView| s.id)
                    =~= before.take(i).filter(dead).map_values(|s: SessionView| s.id).push(
                    before[i].id,
                ));
                assert(self.session_views() =~= v0.remove(j as int));
                assert(self.session_views() =~= kept + before.skip(i + 1));
            } else {
                let ghost v0 = self.session_views();
                assert(before.take(i + 1).filter(live) =~= kept.push(before[i]));
                assert(v0 =~= kept.push(before[i]) + before.skip(i + 1));
                j = j + 1;
            }
            proof {
                i = i + 1;
            }
        }
        assert(before.take(i) =~= before);
        assert(self.session_views() =~= before.filter(live));
        proof {
            lemma_filter_keys_distinct(before, live);
        }
        expired_ids
    }

    /// Clean up expired sessions
    ///
    /// The result is `cleanup_expired_at` for the time read from the clock.
    pub fn cleanup_expired(&mut self, timeout_seconds: i64) -> (r: Vec<String>)
        requires
            old(self).wf(),
        ensures
            final(self).wf(),
            exists|now: i64|
                {
                    &&& final(self).session_views() == old(self).session_views().filter(
                        live_at(now, timeout_seconds),
                    )
                    &&& texts(r@) == old(self).session_views().filter(
                        expired_at(now, timeout_seconds),
                    ).map_values(|s: SessionView| s.id)
                },
    {
        let now = now_micros();
        self.cleanup_expired_at(now, timeout_seconds)
    }
}

/// Keeping some sessions keeps their identifiers distinct.
proof fn lemma_filter_keys_distinct(s: Seq<SessionView>, pred: spec_fn(SessionView) -> bool)
    requires
        keys_distinct(s, session_key()),
    ensures
        keys_distinct(s.filter(pred), session_key()),
    decreases s.len(),
{
    reveal_with_fuel(Seq::filter, 1);
    if s.len() > 0 {
        let t = s.drop_last();
        assert(keys_distinct(t, session_key())) by {
            assert forall|i: int, j: int|
                0 <= i < t.len() && 0 <= j < t.len() && i != j implies #[trigger] session_key()(t[i])
                != #[trigger] session_key()(t[j]) by {
                assert(t[i] == s[i] && t[j] == s[j]);
            }
        }
        lemma_filter_keys_distinct(t, pred);
        let f = t.filter(pred);
        if pred(s.last()) {
            let u = f.push(s.last());
            assert forall|i: int, j: int|
                0 <= i < u.len() && 0 <= j < u.len() && i != j implies #[trigger] session_key()(u[i])
                != #[trigger] session_key()(u[j]) by {
                if i == f.len() || j == f.len() {
                    let other = if i == f.len() { j } else { i };
                    t.lemma_filter_contains_rev(pred, f[other]);
                    let k = choose|k: int| 0 <= k < t.len() && t[k] == f[other];
                    assert(s[k] == f[other]);
                } else {
                    assert(u[i] == f[i] && u[j] == f[j]);
                }
            }
        }
    } else {
        assert(s.filter(pred) =~= s);
    }
}

impl Default for SessionManager {
    fn default() -> (r: Self)
        ensures
            r.wf(),
            r.session_views() == Seq::<SessionView>::empty(),
    {
        Self::new()
    }
}

/// An added session is found by its identifier: after `add_session(s)`,
/// `get_session(s.id)` answers `s`, and the count grows by one unless a
/// session with that identifier was there (which `s` replaces).
pub proof fn lemma_get_after_add(before: SessionManager, after: SessionManager, s: SessionView)
    requires
        before.wf(),
        after.wf(),
        after.sessions() == before.sessions().insert(s.id, s),
    ensures
        after.sessions().contains_key(s.id),
        after.sessions()[s.id] == s,
        after.sessions().len() == before.sessions().len() + if before.sessions().contains_key(s.id) {
            0int
        } else {
            1int
        },
{
    before.lemma_wf();
    after.lemma_wf();
    lemma_to_map_len(before.session_views(), session_key(), session_val());
    if !before.sessions().contains_key(s.id) {
        assert(after.sessions().dom() =~= before.sessions().dom().insert(s.id));
    } else {
        assert(after.sessions().dom() =~= before.sessions().dom());
    }
}

/// A removed session is gone: after `remove_session(id)`,
/// `get_session(id)` answers nothing, and the count shrinks by one if
/// there was such a session.
pub proof fn lemma_gone_after_remove(before: SessionManager, after: SessionManager, id: Seq<char>)
    requires
        before.wf(),
        after.sessions() == before.sessions().remove(id),
    ensures
        !after.sessions().contains_key(id),
        after.sessions().len() == before.sessions().len() - if before.sessions().contains_key(id) {
            1int
        } else {
            0int
        },
{
    lemma_to_map_len(before.session_views(), session_key(), session_val());
    if before.sessions().contains_key(id) {
        assert(after.sessions().dom() =~= before.sessions().dom().remove(id));
    } else {
        assert(after.sessions().dom() =~= before.sessions().dom());
    }
}

/// Expiry only moves one way: a session that has expired at some time is
/// expired at every later time, and a session is never expired at the
/// very time of its last activity (for a timeout that is not negative),
/// nor before a whole extra second beyond the timeout has passed.
pub proof fn lemma_expiry_monotone(last: i64, earlier: i64, later: i64, timeout_seconds: i64)
    requires
        earlier <= later,
    ensures
        expired_since(last, earlier, timeout_seconds) ==> expired_since(last, later, timeout_seconds),
        timeout_seconds >= 0 ==> !expired_since(last, last, timeout_seconds),
        timeout_seconds >= 0 && later - last < (timeout_seconds + 1) * 1_000_000 ==> !expired_since(
            last,
            later,
            timeout_seconds,
        ),
{
    let a = earlier - last;
    let b = later - last;
    assert(whole_seconds(a) <= whole_seconds(b)) by (nonlinear_arith)
        requires
            a <= b,
            whole_seconds(a) == (if a >= 0 { a / 1_000_000 } else { -((-a) / 1_000_000) }),
            whole_seconds(b) == (if b >= 0 { b / 1_000_000 } else { -((-b) / 1_000_000) }),
    ;
    if timeout_seconds >= 0 && b < (timeout_seconds + 1) * 1_000_000 {
        assert(whole_seconds(b) <= timeout_seconds) by (nonlinear_arith)
            requires
                b < (timeout_seconds + 1) * 1_000_000,
                timeout_seconds >= 0,
                whole_seconds(b) == (if b >= 0 { b / 1_000_000 } else { -((-b) / 1_000_000) }),
        ;
    }
}

} // verus!

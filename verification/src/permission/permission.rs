//! Permissions of agents and the state machine of their status.

use vstd::prelude::*;
use crate::utils::ids::{new_id, now_micros};
use crate::utils::text::{str_eq, string_of};

verus! {

/// Represents the scope of a permission
#[derive(Debug, Eq, Hash)]
pub enum PermissionScope {
    /// Access to read documents
    DocumentRead,
    /// Access to write/modify documents
    DocumentWrite,
    /// Access to send private messages
    PrivateMessage,
    /// Access to participate in voting
    Voting,
    /// Access to broadcast messages
    Broadcast,
    /// Custom scope with identifier
    Custom(String),
}

/// Two scopes are the same: the same variant, and for `Custom` the same
/// identifier.
pub open spec fn same_scope(a: PermissionScope, b: PermissionScope) -> bool {
    match (a, b) {
        (PermissionScope::DocumentRead, PermissionScope::DocumentRead) => true,
        (PermissionScope::DocumentWrite, PermissionScope::DocumentWrite) => true,
        (PermissionScope::PrivateMessage, PermissionScope::PrivateMessage) => true,
        (PermissionScope::Voting, PermissionScope::Voting) => true,
        (PermissionScope::Broadcast, PermissionScope::Broadcast) => true,
        (PermissionScope::Custom(x), PermissionScope::Custom(y)) => x@ == y@,
        _ => false,
    }
}

/// Scopes compare as values: two custom scopes are the same exactly when
/// their identifiers are equal, and any other scope is the same only as
/// itself.
pub proof fn lemma_same_scope_is_equality(a: PermissionScope, b: PermissionScope)
    ensures
        a is Custom && b is Custom ==> (same_scope(a, b) <==> a->Custom_0@ == b->Custom_0@),
        !(a is Custom) ==> (same_scope(a, b) <==> a == b),
        !(b is Custom) ==> (same_scope(a, b) <==> a == b),
        same_scope(a, b) ==> same_scope(b, a),
{
}

impl PermissionScope {
    /// Whether `self` and `other` are the same scope.
    pub fn same_as(&self, other: &PermissionScope) -> (r: bool)
        ensures
            r == same_scope(*self, *other),
    {
        match (self, other) {
            (PermissionScope::DocumentRead, PermissionScope::DocumentRead) => true,
            (PermissionScope::DocumentWrite, PermissionScope::DocumentWrite) => true,
            (PermissionScope::PrivateMessage, PermissionScope::PrivateMessage) => true,
            (PermissionScope::Voting, PermissionScope::Voting) => true,
            (PermissionScope::Broadcast, PermissionScope::Broadcast) => true,
            (PermissionScope::Custom(x), PermissionScope::Custom(y)) => str_eq(x.as_str(), y.as_str()),
            _ => false,
        }
    }
}

impl PartialEq for PermissionScope {
    fn eq(&self, other: &Self) -> (r: bool) {
        self.same_as(other)
    }
}

impl vstd::std_specs::cmp::PartialEqSpecImpl for PermissionScope {
    open spec fn obeys_eq_spec() -> bool {
        true
    }

    open spec fn eq_spec(&self, other: &Self) -> bool {
        same_scope(*self, *other)
    }
}

impl Clone for PermissionScope {
    fn clone(&self) -> (r: Self)
        ensures
            r == *self,
    {
        match self {
            PermissionScope::DocumentRead => PermissionScope::DocumentRead,
            PermissionScope::DocumentWrite => PermissionScope::DocumentWrite,
            PermissionScope::PrivateMessage => PermissionScope::PrivateMessage,
            PermissionScope::Voting => PermissionScope::Voting,
            PermissionScope::Broadcast => PermissionScope::Broadcast,
            PermissionScope::Custom(s) => PermissionScope::Custom(s.clone()),
        }
    }
}

/// Represents the current status of a permission
#[derive(Debug, Clone, Copy, PartialEq, Eq, Structural)]
pub enum PermissionStatus {
    /// Permission is pending approval
    Pending,
    /// Permission has been granted
    Granted,
    /// Permission has been denied
    Denied,
    /// Permission has been revoked after being granted
    Revoked,
}

/// `grant` is allowed from these states.
pub open spec fn can_grant(s: PermissionStatus) -> bool {
    s == PermissionStatus::Pending || s == PermissionStatus::Denied || s
        == PermissionStatus::Revoked
}

/// `deny` is allowed from these states.
pub open spec fn can_deny(s: PermissionStatus) -> bool {
    s == PermissionStatus::Pending || s == PermissionStatus::Granted
}

/// `revoke` is allowed from this state only.
pub open spec fn can_revoke(s: PermissionStatus) -> bool {
    s == PermissionStatus::Granted
}

/// Clones an optional string, keeping it equal.
pub fn clone_opt_string(s: &Option<String>) -> (r: Option<String>)
    ensures
        r == *s,
{
    match s {
        Some(x) => Some(x.clone()),
        None => None,
    }
}

/// Represents a permission with metadata
#[derive(Debug)]
pub struct Permission {
    /// Unique identifier for this permission
    pub id: u128,
    /// The agent ID this permission belongs to
    pub agent_id: String,
    /// The scope of this permission
    pub scope: PermissionScope,
    /// Current status of the permission
    pub status: PermissionStatus,
    /// When this permission was created (microseconds since the epoch)
    pub created_at: i64,
    /// When this permission was last updated (microseconds since the epoch)
    pub updated_at: i64,
    /// Optional expiration time (microseconds since the epoch)
    pub expires_at: Option<i64>,
    /// Reason for grant/denial (optional)
    pub reason: Option<String>,
    /// Who granted/denied this permission (if applicable)
    pub granted_by: Option<String>,
}

impl Clone for Permission {
    fn clone(&self) -> (r: Self)
        ensures
            r == *self,
    {
        Permission {
            id: self.id,
            agent_id: self.agent_id.clone(),
            scope: self.scope.clone(),
            status: self.status,
            created_at: self.created_at,
            updated_at: self.updated_at,
            expires_at: self.expires_at,
            reason: clone_opt_string(&self.reason),
            granted_by: clone_opt_string(&self.granted_by),
        }
    }
}

/// `new` is `old` after a decision (grant, deny or revoke) that set the
/// status to `status`, recorded `by` and `reason`, and stamped `updated_at`;
/// nothing else changed.
pub open spec fn decided(
    old: Permission,
    new: Permission,
    status: PermissionStatus,
    by: String,
    reason: Option<String>,
) -> bool {
    new == Permission {
        status,
        granted_by: Some(by),
        reason,
        updated_at: new.updated_at,
        ..old
    }
}

/// Whether `p` is in force at time `now`: granted, and not past its
/// expiration (a permission expiring exactly at `now` is no longer active).
pub open spec fn active_at(p: Permission, now: i64) -> bool {
    &&& p.status == PermissionStatus::Granted
    &&& match p.expires_at {
        Some(exp) => exp > now,
        None => true,
    }
}

impl Permission {
    /// Create a new pending permission request
    pub fn new(agent_id: String, scope: PermissionScope) -> (r: Self)
        ensures
            r.agent_id == agent_id,
            r.scope == scope,
            r.status == PermissionStatus::Pending,
            r.created_at == r.updated_at,
            r.expires_at is None,
            r.reason is None,
            r.granted_by is None,
    {
        let now = now_micros();
        Self {
            id: new_id(),
            agent_id,
            scope,
            status: PermissionStatus::Pending,
            created_at: now,
            updated_at: now,
            expires_at: None,
            reason: None,
            granted_by: None,
        }
    }

    /// Grant this permission
    pub fn grant(&mut self, granted_by: String, reason: Option<String>) -> (r: Result<
        (),
        PermissionError,
    >)
        ensures
            can_grant(old(self).status) ==> r is Ok && decided(
                *old(self),
                *final(self),
                PermissionStatus::Granted,
                granted_by,
                reason,
            ),
            !can_grant(old(self).status) ==> r == Err::<(), PermissionError>(
                PermissionError::InvalidTransition,
            ) && *final(self) == *old(self),
    {
        match self.status {
            PermissionStatus::Pending | PermissionStatus::Denied | PermissionStatus::Revoked => {
                self.status = PermissionStatus::Granted;
                self.updated_at = now_micros();
                self.granted_by = Some(granted_by);
                self.reason = reason;
                Ok(())
            },
            _ => Err(PermissionError::InvalidTransition),
        }
    }

    /// Deny this permission
    pub fn deny(&mut self, granted_by: String, reason: Option<String>) -> (r: Result<
        (),
        PermissionError,
    >)
        ensures
            can_deny(old(self).status) ==> r is Ok && decided(
                *old(self),
                *final(self),
                PermissionStatus::Denied,
                granted_by,
                reason,
            ),
            !can_deny(old(self).status) ==> r == Err::<(), PermissionError>(
                PermissionError::InvalidTransition,
            ) && *final(self) == *old(self),
    {
        match self.status {
            PermissionStatus::Pending | PermissionStatus::Granted => {
                self.status = PermissionStatus::Denied;
                self.updated_at = now_micros();
                self.granted_by = Some(granted_by);
                self.reason = reason;
                Ok(())
            },
            _ => Err(PermissionError::InvalidTransition),
        }
    }

    /// Revoke a granted permission
    pub fn revoke(&mut self, granted_by: String, reason: Option<String>) -> (r: Result<
        (),
        PermissionError,
    >)
        ensures
            can_revoke(old(self).status) ==> r is Ok && decided(
                *old(self),
                *final(self),
                PermissionStatus::Revoked,
                granted_by,
                reason,
            ),
            !can_revoke(old(self).status) ==> r == Err::<(), PermissionError>(
                PermissionError::InvalidTransition,
            ) && *final(self) == *old(self),
    {
        if self.status == PermissionStatus::Granted {
            self.status = PermissionStatus::Revoked;
            self.updated_at = now_micros();
            self.granted_by = Some(granted_by);
            self.reason = reason;
            Ok(())
        } else {
            Err(PermissionError::InvalidTransition)
        }
    }

    /// Whether this permission is active at time `now`.
    pub fn is_active_at(&self, now: i64) -> (r: bool)
        ensures
            r == active_at(*self, now),
    {
        self.status == PermissionStatus::Granted && match self.expires_at {
            Some(exp) => exp > now,
            None => true,
        }
    }

    /// Check if this permission is currently active
    ///
    /// The answer is `is_active_at` for the time read from the clock.
    pub fn is_active(&self) -> (r: bool)
        ensures
            exists|now: i64| r == active_at(*self, now),
    {
        let now = now_micros();
        self.is_active_at(now)
    }

    /// Set an expiration time for this permission
    pub fn set_expiration(&mut self, expires_at: i64)
        ensures
            *final(self) == (Permission {
                expires_at: Some(expires_at),
                updated_at: final(self).updated_at,
                ..*old(self)
            }),
    {
        self.expires_at = Some(expires_at);
        self.updated_at = now_micros();
    }
}

/// Represents a permission request from an agent
#[derive(Debug)]
pub struct PermissionRequest {
    /// The agent requesting permission
    pub agent_id: String,
    /// The requested permission scope
    pub scope: PermissionScope,
    /// Optional reason for the request
    pub reason: Option<String>,
}

/// Errors that can occur during permission operations
#[derive(Debug)]
pub enum PermissionError {
    InvalidTransition,
    NotFound,
    Expired,
    StorageError(String),
}

/// The text that describes a permission error.
pub open spec fn permission_error_text(e: PermissionError) -> Seq<char> {
    match e {
        PermissionError::InvalidTransition => "Invalid state transition"@,
        PermissionError::NotFound => "Permission not found"@,
        PermissionError::Expired => "Permission expired"@,
        PermissionError::StorageError(s) => "Storage error: "@ + s@,
    }
}

impl PermissionError {
    /// The text that describes this error.
    pub fn message(&self) -> (r: String)
        ensures
            r@ == permission_error_text(*self),
    {
        match self {
            PermissionError::InvalidTransition => string_of("Invalid state transition"),
            PermissionError::NotFound => string_of("Permission not found"),
            PermissionError::Expired => string_of("Permission expired"),
            PermissionError::StorageError(s) => {
                let mut r = string_of("Storage error: ");
                r.append(s.as_str());
                r
            },
        }
    }
}

/// The permission state machine: a status can move by grant, deny and
/// revoke exactly along these six edges.
///
/// Pending -> Granted, Pending -> Denied, Granted -> Denied,
/// Granted -> Revoked, Denied -> Granted, Revoked -> Granted.
pub proof fn lemma_transition_table(s: PermissionStatus)
    ensures
        can_grant(s) <==> (s == PermissionStatus::Pending || s == PermissionStatus::Denied || s
            == PermissionStatus::Revoked),
        can_deny(s) <==> (s == PermissionStatus::Pending || s == PermissionStatus::Granted),
        can_revoke(s) <==> s == PermissionStatus::Granted,
        s == PermissionStatus::Granted ==> !can_grant(s),
        s == PermissionStatus::Denied ==> !can_deny(s) && !can_revoke(s),
        s == PermissionStatus::Revoked ==> !can_deny(s) && !can_revoke(s),
        s == PermissionStatus::Pending ==> !can_revoke(s),
{
}

/// Only a granted permission is ever active, and a granted one without an
/// expiration is active at every time.
pub proof fn lemma_active_only_when_granted(p: Permission, now: i64)
    ensures
        active_at(p, now) ==> p.status == PermissionStatus::Granted,
        p.status == PermissionStatus::Granted && p.expires_at is None ==> active_at(p, now),
        p.expires_at == Some(now) ==> !active_at(p, now),
{
}

/// Expiry only moves one way: a permission active at some time was active
/// at every earlier time, and one with an expiration is no longer active
/// from that time on.
pub proof fn lemma_active_earlier(p: Permission, earlier: i64, later: i64)
    requires
        earlier <= later,
    ensures
        active_at(p, later) ==> active_at(p, earlier),
        p.expires_at matches Some(e) && e <= earlier ==> !active_at(p, later),
{
}

} // verus!

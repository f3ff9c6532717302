//! In-memory storage for permissions, indexed by agent.

use vstd::prelude::*;
use crate::utils::ids::now_micros;
use crate::utils::keyed::{
    has_key, key_pos, keys_distinct, lemma_to_map_at, lemma_to_map_empty, lemma_to_map_push,
    lemma_to_map_remove, lemma_to_map_update, to_map,
};
use crate::utils::text::str_eq;
use super::permission::{
    active_at, lemma_same_scope_is_equality, same_scope, Permission, PermissionError,
    PermissionScope, PermissionStatus,
};

verus! {

/// The identifiers of the permissions stored for one agent, in the order in
/// which they were stored.
#[derive(Debug)]
struct AgentPermissions {
    agent_id: String,
    ids: Vec<u128>,
}

/// Key of a stored permission: its identifier.
pub open spec fn perm_key() -> spec_fn(Permission) -> u128 {
    |p: Permission| p.id
}

/// Value of a stored permission: the permission itself.
pub open spec fn perm_val() -> spec_fn(Permission) -> Permission {
    |p: Permission| p
}

spec fn agent_key() -> spec_fn(AgentPermissions) -> Seq<char> {
    |e: AgentPermissions| e.agent_id@
}

spec fn agent_val() -> spec_fn(AgentPermissions) -> Seq<u128> {
    |e: AgentPermissions| e.ids@
}

/// The permissions that `ids` name in `perms`, in the order of `ids`;
/// identifiers that `perms` does not hold are skipped.
pub open spec fn resolve_ids(ids: Seq<u128>, perms: Map<u128, Permission>) -> Seq<Permission>
    decreases ids.len(),
{
    if ids.len() == 0 {
        seq![]
    } else {
        let rest = resolve_ids(ids.drop_last(), perms);
        if perms.contains_key(ids.last()) {
            rest.push(perms[ids.last()])
        } else {
            rest
        }
    }
}

/// Whether `p` has an expiration earlier than `now`.
pub open spec fn expired_at(p: Permission, now: i64) -> bool {
    match p.expires_at {
        Some(exp) => exp < now,
        None => false,
    }
}

/// Holds of identifiers other than `id`.
pub open spec fn other_than(id: u128) -> spec_fn(u128) -> bool {
    |x: u128| x != id
}

/// Holds of permissions that have not expired before `now`.
pub open spec fn unexpired(now: i64) -> spec_fn(Permission) -> bool {
    |p: Permission| !expired_at(p, now)
}

/// Holds of permissions that expired before `now`.
pub open spec fn expired(now: i64) -> spec_fn(Permission) -> bool {
    |p: Permission| expired_at(p, now)
}

/// Holds of pending permissions.
pub open spec fn pending() -> spec_fn(Permission) -> bool {
    |p: Permission| p.status == PermissionStatus::Pending
}

/// Holds of permissions with the given scope that are active at `now`.
pub open spec fn active_with_scope(scope: PermissionScope, now: i64) -> spec_fn(Permission) -> bool {
    |p: Permission| same_scope(p.scope, scope) && active_at(p, now)
}

/// Holds of identifiers that do not name, in `perms`, a permission of
/// `agent` that expired before `now`.
pub open spec fn not_expired_for(perms: Map<u128, Permission>, agent: Seq<char>, now: i64) -> spec_fn(
    u128,
) -> bool {
    |x: u128| !(perms.contains_key(x) && expired_at(perms[x], now) && perms[x].agent_id@ == agent)
}

/// The agent index after removing `id` from the list of `agent`, if the
/// index has such a list.
pub open spec fn index_without(index: Map<Seq<char>, Seq<u128>>, agent: Seq<char>, id: u128) -> Map<
    Seq<char>,
    Seq<u128>,
> {
    if index.contains_key(agent) {
        index.insert(agent, index[agent].filter(other_than(id)))
    } else {
        index
    }
}

/// The agent index after every permission of `perms` that expired before
/// `now` has left the list of its own agent.
pub open spec fn index_after_clear(
    index: Map<Seq<char>, Seq<u128>>,
    perms: Map<u128, Permission>,
    now: i64,
) -> Map<Seq<char>, Seq<u128>> {
    Map::new(
        |a: Seq<char>| index.contains_key(a),
        |a: Seq<char>| index[a].filter(not_expired_for(perms, a, now)),
    )
}

/// What `store(p)` makes of `before`: `p` is stored under its identifier,
/// its identifier joins its agent's list unless already there, and it
/// replaces the entry with its identifier or else comes last.
pub open spec fn stored(before: PermissionStorage, after: PermissionStorage, p: Permission) -> bool {
    &&& after.permissions() == before.permissions().insert(p.id, p)
    &&& after.agent_index() == before.agent_index().insert(
        p.agent_id@,
        if before.ids_for(p.agent_id@).contains(p.id) {
            before.ids_for(p.agent_id@)
        } else {
            before.ids_for(p.agent_id@).push(p.id)
        },
    )
    &&& after.entries() == if before.permissions().contains_key(p.id) {
        before.entries().update(key_pos(before.entries(), perm_key(), p.id), p)
    } else {
        before.entries().push(p)
    }
}

/// In-memory storage for permissions
/// In production, this would be backed by a database
#[derive(Debug)]
pub struct PermissionStorage {
    permissions: Vec<Permission>,
    agent_permissions: Vec<AgentPermissions>,
}

/// Whether `ids` lists `id`.
fn ids_contain(ids: &Vec<u128>, id: u128) -> (r: bool)
    ensures
        r == ids@.contains(id),
{
    let mut i: usize = 0;
    while i < ids.len()
        invariant
            i <= ids@.len(),
            forall|k: int| 0 <= k < i ==> ids@[k] != id,
        decreases ids@.len() - i,
    {
        if ids[i] == id {
            assert(ids@[i as int] == id);
            return true;
        }
        i = i + 1;
    }
    false
}

impl PermissionStorage {
    /// The stored permissions, in the order in which they were first stored.
    pub closed spec fn entries(&self) -> Seq<Permission> {
        self.permissions@
    }

    /// The stored permissions by identifier.
    pub open spec fn permissions(&self) -> Map<u128, Permission> {
        to_map(self.entries(), perm_key(), perm_val())
    }

    /// For each agent that ever had a permission stored, the identifiers
    /// stored for it, in order.
    pub closed spec fn agent_index(&self) -> Map<Seq<char>, Seq<u128>> {
        to_map(self.agent_permissions@, agent_key(), agent_val())
    }

    /// The identifiers listed for `agent`, or none.
    pub open spec fn ids_for(&self, agent: Seq<char>) -> Seq<u128> {
        if self.agent_index().contains_key(agent) {
            self.agent_index()[agent]
        } else {
            seq![]
        }
    }

    /// What `get_by_agent` returns for `agent`.
    pub open spec fn by_agent(&self, agent: Seq<char>) -> Seq<Permission> {
        resolve_ids(self.ids_for(agent), self.permissions())
    }

    /// What `get_active_by_scope_at` returns.
    pub open spec fn active_by_scope(
        &self,
        agent: Seq<char>,
        scope: PermissionScope,
        now: i64,
    ) -> Seq<Permission> {
        self.by_agent(agent).filter(active_with_scope(scope, now))
    }

    /// Well-formedness: no identifier is stored twice, no agent has two
    /// lists, and no list names an identifier twice.
    pub closed spec fn wf(&self) -> bool {
        &&& keys_distinct(self.permissions@, perm_key())
        &&& keys_distinct(self.agent_permissions@, agent_key())
        &&& forall|k: int|
            0 <= k < self.agent_permissions@.len() ==> (#[trigger] self.agent_permissions@[k]).ids@.no_duplicates()
    }

    /// In a well-formed storage, the list of an agent names each identifier
    /// at most once.
    pub proof fn lemma_ids_distinct(&self, agent: Seq<char>)
        requires
            self.wf(),
        ensures
            self.ids_for(agent).no_duplicates(),
    {
        if self.agent_index().contains_key(agent) {
            let j = key_pos(self.agent_permissions@, agent_key(), agent);
            assert(0 <= j < self.agent_permissions@.len());
            assert(self.agent_permissions@[j].ids@.no_duplicates());
        } else {
            assert(Seq::<u128>::empty().no_duplicates());
        }
    }

    /// In a well-formed storage, no two entries share an identifier.
    pub proof fn lemma_entries_distinct(&self)
        requires
            self.wf(),
        ensures
            keys_distinct(self.entries(), perm_key()),
    {
    }

    /// Create a new permission storage instance
    pub fn new() -> (r: Self)
        ensures
            r.wf(),
            r.entries() == Seq::<Permission>::empty(),
            r.permissions() == Map::<u128, Permission>::empty(),
            r.agent_index() == Map::<Seq<char>, Seq<u128>>::empty(),
    {
        proof {
            lemma_to_map_empty(perm_key(), perm_val());
            lemma_to_map_empty(agent_key(), agent_val());
        }
        Self { permissions: Vec::new(), agent_permissions: Vec::new() }
    }

    fn find_permission(&self, id: u128) -> (r: Option<usize>)
        requires
            self.wf(),
        ensures
            match r {
                Some(i) => i < self.permissions@.len() && self.permissions@[i as int].id == id
                    && key_pos(self.permissions@, perm_key(), id) == i,
                None => !has_key(self.permissions@, perm_key(), id),
            },
    {
        let mut i: usize = 0;
        while i < self.permissions.len()
            invariant
                self.wf(),
                i <= self.permissions@.len(),
                forall|k: int| 0 <= k < i ==> self.permissions@[k].id != id,
            decreases self.permissions@.len() - i,
        {
            if self.permissions[i].id == id {
                proof {
                    lemma_to_map_at(self.permissions@, perm_key(), perm_val(), i as int);
                }
                return Some(i);
            }
            i = i + 1;
        }
        assert forall|k: int| 0 <= k < self.permissions@.len() implies #[trigger] perm_key()(
            self.permissions@[k],
        ) != id by {}
        None
    }

    fn find_agent(&self, agent: &str) -> (r: Option<usize>)
        requires
            self.wf(),
        ensures
            match r {
                Some(i) => i < self.agent_permissions@.len()
                    && self.agent_permissions@[i as int].agent_id@ == agent@,
                None => !has_key(self.agent_permissions@, agent_key(), agent@),
            },
    {
        let mut i: usize = 0;
        while i < self.agent_permissions.len()
            invariant
                i <= self.agent_permissions@.len(),
                forall|k: int| 0 <= k < i ==> self.agent_permissions@[k].agent_id@ != agent@,
            decreases self.agent_permissions@.len() - i,
        {
            if str_eq(self.agent_permissions[i].agent_id.as_str(), agent) {
                return Some(i);
            }
            i = i + 1;
        }
        assert forall|k: int| 0 <= k < self.agent_permissions@.len() implies #[trigger] agent_key()(
            self.agent_permissions@[k],
        ) != agent@ by {}
        None
    }

    /// Store a new permission
    ///
    /// A permission with an identifier already stored replaces the stored
    /// one. Its identifier is added to its agent's list if not already
    /// there.
    pub fn store(&mut self, permission: Permission) -> (r: Result<(), PermissionError>)
        requires
            old(self).wf(),
        ensures
            final(self).wf(),
            r is Ok,
            stored(*old(self), *final(self), permission),
    {
        let id = permission.id;
        match self.find_agent(permission.agent_id.as_str()) {
            Some(i) => {
                proof {
                    lemma_to_map_at(self.agent_permissions@, agent_key(), agent_val(), i as int);
                }
                let ghost before = self.agent_permissions@;
                // Add to agent's permission list if not already there
                if !ids_contain(&self.agent_permissions[i].ids, id) {
                    self.agent_permissions[i].ids.push(id);
                    proof {
                        lemma_to_map_update(before, agent_key(), agent_val(), i as int, self.agent_permissions@[i as int]);
                        assert(self.agent_permissions@ == before.update(i as int, self.agent_permissions@[i as int]));
                    }
                } else {
                    assert(old(self).agent_index().insert(permission.agent_id@, old(self).ids_for(permission.agent_id@))
                        =~= old(self).agent_index());
                }
            },
            None => {
                let mut ids = Vec::new();
                ids.push(id);
                let entry = AgentPermissions { agent_id: permission.agent_id.clone(), ids };
                proof {
                    lemma_to_map_push(self.agent_permissions@, agent_key(), agent_val(), entry);
                    assert(entry.ids@ =~= Seq::<u128>::empty().push(id));
                }
                self.agent_permissions.push(entry);
            },
        }
        match self.find_permission(id) {
            Some(i) => {
                proof {
                    lemma_to_map_update(self.permissions@, perm_key(), perm_val(), i as int, permission);
                    lemma_to_map_at(self.permissions@, perm_key(), perm_val(), i as int);
                }
                self.permissions.set(i, permission);
            },
            None => {
                proof {
                    lemma_to_map_push(self.permissions@, perm_key(), perm_val(), permission);
                }
                self.permissions.push(permission);
            },
        }
        Ok(())
    }

    /// Get a permission by ID
    pub fn get(&self, id: u128) -> (r: Result<Permission, PermissionError>)
        requires
            self.wf(),
        ensures
            self.permissions().contains_key(id) ==> r == Ok::<Permission, PermissionError>(
                self.permissions()[id],
            ),
            !self.permissions().contains_key(id) ==> r == Err::<Permission, PermissionError>(
                PermissionError::NotFound,
            ),
    {
        match self.find_permission(id) {
            Some(i) => {
                proof {
                    lemma_to_map_at(self.permissions@, perm_key(), perm_val(), i as int);
                }
                Ok(self.permissions[i].clone())
            },
            None => Err(PermissionError::NotFound),
        }
    }

    /// Update an existing permission
    pub fn update(&mut self, permission: Permission) -> (r: Result<(), PermissionError>)
        requires
            old(self).wf(),
        ensures
            final(self).wf(),
            final(self).agent_index() == old(self).agent_index(),
            old(self).permissions().contains_key(permission.id) ==> {
                &&& r is Ok
                &&& final(self).permissions() == old(self).permissions().insert(
                    permission.id,
                    permission,
                )
                &&& final(self).entries() == old(self).entries().update(
                    key_pos(old(self).entries(), perm_key(), permission.id),
                    permission,
                )
            },
            !old(self).permissions().contains_key(permission.id) ==> {
                &&& r == Err::<(), PermissionError>(PermissionError::NotFound)
                &&& final(self).entries() == old(self).entries()
            },
    {
        match self.find_permission(permission.id) {
            Some(i) => {
                proof {
                    lemma_to_map_update(self.permissions@, perm_key(), perm_val(), i as int, permission);
                    lemma_to_map_at(self.permissions@, perm_key(), perm_val(), i as int);
                }
                self.permissions.set(i, permission);
                Ok(())
            },
            None => Err(PermissionError::NotFound),
        }
    }

    /// Get all permissions for an agent
    pub fn get_by_agent(&self, agent_id: &str) -> (r: Vec<Permission>)
        requires
            self.wf(),
        ensures
            r@ == self.by_agent(agent_id@),
    {
        let mut out: Vec<Permission> = Vec::new();
        match self.find_agent(agent_id) {
            Some(a) => {
                proof {
                    lemma_to_map_at(self.agent_permissions@, agent_key(), agent_val(), a as int);
                }
                let ids = &self.agent_permissions[a].ids;
                let mut i: usize = 0;
                while i < ids.len()
                    invariant
                        self.wf(),
                        ids@ == self.ids_for(agent_id@),
                        i <= ids@.len(),
                        out@ == resolve_ids(ids@.take(i as int), self.permissions()),
                    decreases ids@.len() - i,
                {
                    assert(ids@.take(i + 1).drop_last() =~= ids@.take(i as int));
                    match self.find_permission(ids[i]) {
                        Some(k) => {
                            proof {
                                lemma_to_map_at(self.permissions@, perm_key(), perm_val(), k as int);
                            }
                            out.push(self.permissions[k].clone());
                        },
                        None => {},
                    }
                    i = i + 1;
                }
                assert(ids@.take(ids@.len() as int) =~= ids@);
            },
            None => {
                assert(!self.agent_index().contains_key(agent_id@));
            },
        }
        out
    }

    /// Active permissions of `agent_id` with the given scope at time `now`.
    pub fn get_active_by_scope_at(&self, agent_id: &str, scope: &PermissionScope, now: i64) -> (r:
        Vec<Permission>)
        requires
            self.wf(),
        ensures
            r@ == self.active_by_scope(agent_id@, *scope, now),
    {
        let all = self.get_by_agent(agent_id);
        let ghost pred = active_with_scope(*scope, now);
        let mut out: Vec<Permission> = Vec::new();
        let mut i: usize = 0;
        while i < all.len()
            invariant
                i <= all@.len(),
                out@ == all@.take(i as int).filter(pred),
                pred == active_with_scope(*scope, now),
            decreases all@.len() - i,
        {
            proof {
                reveal_with_fuel(Seq::filter, 1);
                assert(all@.take(i + 1).drop_last() =~= all@.take(i as int));
            }
            if all[i].scope.same_as(scope) && all[i].is_active_at(now) {
                out.push(all[i].clone());
            }
            i = i + 1;
        }
        assert(all@.take(all@.len() as int) =~= all@);
        out
    }

    /// Get active permissions for an agent with a specific scope
    ///
    /// The result is `get_active_by_scope_at` for the time read from the
    /// clock.
    pub fn get_active_by_scope(&self, agent_id: &str, scope: &PermissionScope) -> (r: Vec<
        Permission,
    >)
        requires
            self.wf(),
        ensures
            exists|now: i64| r@ == self.active_by_scope(agent_id@, *scope, now),
    {
        let now = now_micros();
        self.get_active_by_scope_at(agent_id, scope, now)
    }

    /// Whether `agent_id` has an active permission for `scope` at `now`.
    pub fn has_permission_at(&self, agent_id: &str, scope: &PermissionScope, now: i64) -> (r:
        bool)
        requires
            self.wf(),
        ensures
            r == (self.active_by_scope(agent_id@, *scope, now).len() > 0),
    {
        let v = self.get_active_by_scope_at(agent_id, scope, now);
        v.len() > 0
    }

    /// Check if an agent has an active permission for a scope
    ///
    /// The answer is `has_permission_at` for the time read from the clock.
    pub fn has_permission(&self, agent_id: &str, scope: &PermissionScope) -> (r: bool)
        requires
            self.wf(),
        ensures
            exists|now: i64| r == (self.active_by_scope(agent_id@, *scope, now).len() > 0),
    {
        let now = now_micros();
        self.has_permission_at(agent_id, scope, now)
    }

    /// Get pending permission requests
    pub fn get_pending_requests(&self) -> (r: Vec<Permission>)
        requires
            self.wf(),
        ensures
            r@ == self.entries().filter(pending()),
    {
        let ghost pred = pending();
        let mut out: Vec<Permission> = Vec::new();
        let mut i: usize = 0;
        while i < self.permissions.len()
            invariant
                i <= self.permissions@.len(),
                out@ == self.permissions@.take(i as int).filter(pred),
                pred == pending(),
            decreases self.permissions@.len() - i,
        {
            proof {
                reveal_with_fuel(Seq::filter, 1);
                assert(self.permissions@.take(i + 1).drop_last() =~= self.permissions@.take(
                    i as int,
                ));
            }
            if self.permissions[i].status == PermissionStatus::Pending {
                out.push(self.permissions[i].clone());
            }
            i = i + 1;
        }
        assert(self.permissions@.take(self.permissions@.len() as int) =~= self.permissions@);
        out
    }

    /// Get pending requests for a specific agent
    pub fn get_pending_by_agent(&self, agent_id: &str) -> (r: Vec<Permission>)
        requires
            self.wf(),
        ensures
            r@ == self.by_agent(agent_id@).filter(
                |p: Permission| p.status == PermissionStatus::Pending,
            ),
    {
        let all = self.get_by_agent(agent_id);
        let ghost pred = pending();
        let mut out: Vec<Permission> = Vec::new();
        let mut i: usize = 0;
        while i < all.len()
            invariant
                i <= all@.len(),
                out@ == all@.take(i as int).filter(pred),
                pred == pending(),
            decreases all@.len() - i,
        {
            proof {
                reveal_with_fuel(Seq::filter, 1);
                assert(all@.take(i + 1).drop_last() =~= all@.take(i as int));
            }
            if all[i].status == PermissionStatus::Pending {
                out.push(all[i].clone());
            }
            i = i + 1;
        }
        assert(all@.take(all@.len() as int) =~= all@);
        out
    }

    /// Removes `id` from the list at position `a` of the agent index.
    fn remove_id_from_agent(&mut self, a: usize, id: u128)
        requires
            old(self).wf(),
            a < old(self).agent_permissions@.len(),
        ensures
            final(self).wf(),
            final(self).permissions@ == old(self).permissions@,
            final(self).agent_index() == old(self).agent_index().insert(
                old(self).agent_permissions@[a as int].agent_id@,
                old(self).agent_permissions@[a as int].ids@.filter(other_than(id)),
            ),
    {
        let ghost before = self.agent_permissions@;
        let ghost pred = other_than(id);
        let mut kept: Vec<u128> = Vec::new();
        let n = self.agent_permissions[a].ids.len();
        let mut i: usize = 0;
        while i < n
            invariant
                self.agent_permissions@ == before,
                a < before.len(),
                n == before[a as int].ids@.len(),
                i <= n,
                kept@ == before[a as int].ids@.take(i as int).filter(pred),
                pred == other_than(id),
            decreases n - i,
        {
            proof {
                reveal_with_fuel(Seq::filter, 1);
                assert(before[a as int].ids@.take(i + 1).drop_last() =~= before[a as int].ids@.take(
                    i as int,
                ));
            }
            let x = self.agent_permissions[a].ids[i];
            if x != id {
                kept.push(x);
            }
            i = i + 1;
        }
        assert(before[a as int].ids@.take(n as int) =~= before[a as int].ids@);
        proof {
            lemma_filter_no_duplicates(before[a as int].ids@, pred);
        }
        self.agent_permissions[a].ids = kept;
        proof {
            lemma_to_map_update(before, agent_key(), agent_val(), a as int, self.agent_permissions@[a as int]);
            assert(self.agent_permissions@ == before.update(a as int, self.agent_permissions@[a as int]));
        }
    }

    /// Delete a permission
    pub fn delete(&mut self, id: u128) -> (r: Result<(), PermissionError>)
        requires
            old(self).wf(),
        ensures
            final(self).wf(),
            old(self).permissions().contains_key(id) ==> {
                &&& r is Ok
                &&& final(self).permissions() == old(self).permissions().remove(id)
                &&& final(self).entries() == old(self).entries().remove(
                    key_pos(old(self).entries(), perm_key(), id),
                )
                &&& final(self).agent_index() == index_without(
                    old(self).agent_index(),
                    old(self).permissions()[id].agent_id@,
                    id,
                )
            },
            !old(self).permissions().contains_key(id) ==> {
                &&& r == Err::<(), PermissionError>(PermissionError::NotFound)
                &&& final(self).entries() == old(self).entries()
                &&& final(self).agent_index() == old(self).agent_index()
            },
    {
        match self.find_permission(id) {
            Some(i) => {
                proof {
                    lemma_to_map_at(self.permissions@, perm_key(), perm_val(), i as int);
                    lemma_to_map_remove(self.permissions@, perm_key(), perm_val(), i as int);
                }
                let removed = self.permissions.remove(i);
                match self.find_agent(removed.agent_id.as_str()) {
                    Some(a) => {
                        proof {
                            lemma_to_map_at(self.agent_permissions@, agent_key(), agent_val(), a as int);
                        }
                        self.remove_id_from_agent(a, id);
                    },
                    None => {},
                }
                Ok(())
            },
            None => Err(PermissionError::NotFound),
        }
    }

    /// Get all permissions (for admin purposes)
    pub fn get_all(&self) -> (r: Vec<Permission>)
        requires
            self.wf(),
        ensures
            r@ == self.entries(),
    {
        let mut out: Vec<Permission> = Vec::new();
        let mut i: usize = 0;
        while i < self.permissions.len()
            invariant
                i <= self.permissions@.len(),
                out@ == self.permissions@.take(i as int),
            decreases self.permissions@.len() - i,
        {
            out.push(self.permissions[i].clone());
            assert(out@ =~= self.permissions@.take(i + 1));
            i = i + 1;
        }
        assert(self.permissions@.take(self.permissions@.len() as int) =~= self.permissions@);
        out
    }

    /// Clear the permissions that expired before `now`; returns how many
    /// were removed.
    pub fn clear_expired_at(&mut self, now: i64) -> (r: usize)
        requires
            old(self).wf(),
        ensures
            final(self).wf(),
            final(self).entries() == old(self).entries().filter(unexpired(now)),
            r == old(self).entries().filter(expired(now)).len(),
            final(self).agent_index() == index_after_clear(
                old(self).agent_index(),
                old(self).permissions(),
                now,
            ),
    {
        let ghost old_self = *self;
        let ghost keep_pred = unexpired(now);
        let ghost drop_pred = expired(now);
        // Split the permissions into those kept and those removed.
        let mut kept: Vec<Permission> = Vec::new();
        let mut removed: Vec<Permission> = Vec::new();
        let mut i: usize = 0;
        while i < self.permissions.len()
            invariant
                *self == old_self,
                i <= self.permissions@.len(),
                kept@ == self.permissions@.take(i as int).filter(keep_pred),
                removed@ == self.permissions@.take(i as int).filter(drop_pred),
                keep_pred == unexpired(now),
                drop_pred == expired(now),
            decreases self.permissions@.len() - i,
        {
            proof {
                reveal_with_fuel(Seq::filter, 1);
                assert(self.permissions@.take(i + 1).drop_last() =~= self.permissions@.take(
                    i as int,
                ));
            }
            let p = self.permissions[i].clone();
            let expired = match p.expires_at {
                Some(exp) => exp < now,
                None => false,
            };
            if expired {
                removed.push(p);
            } else {
                kept.push(p);
            }
            i = i + 1;
        }
        assert(self.permissions@.take(self.permissions@.len() as int) =~= self.permissions@);
        let count = removed.len();
        // Each removed permission leaves the list of its own agent.
        let mut index: Vec<AgentPermissions> = Vec::new();
        let mut a: usize = 0;
        while a < self.agent_permissions.len()
            invariant
                *self == old_self,
                self.wf(),
                a <= self.agent_permissions@.len(),
                index@.len() == a,
                forall|k: int|
                    0 <= k < a ==> #[trigger] index@[k].agent_id == self.agent_permissions@[k].agent_id,
                forall|k: int|
                    0 <= k < a ==> #[trigger] index@[k].ids@
                        == self.agent_permissions@[k].ids@.filter(
                        not_expired_for(self.permissions(), self.agent_permissions@[k].agent_id@, now),
                    ),
                forall|k: int| 0 <= k < a ==> (#[trigger] index@[k]).ids@.no_duplicates(),
            decreases self.agent_permissions@.len() - a,
        {
            let ids = self.unexpired_ids(a, now);
            proof {
                lemma_filter_no_duplicates(
                    self.agent_permissions@[a as int].ids@,
                    not_expired_for(self.permissions(), self.agent_permissions@[a as int].agent_id@, now),
                );
            }
            index.push(AgentPermissions { agent_id: self.agent_permissions[a].agent_id.clone(), ids });
            a = a + 1;
        }
        proof {
            let t = index@;
            assert forall|i: int, j: int|
                0 <= i < t.len() && 0 <= j < t.len() && i != j implies #[trigger] agent_key()(t[i])
                != #[trigger] agent_key()(t[j]) by {
                assert(agent_key()(t[i]) == agent_key()(old_self.agent_permissions@[i]));
                assert(agent_key()(t[j]) == agent_key()(old_self.agent_permissions@[j]));
            }
            let m1 = to_map(index@, agent_key(), agent_val());
            let m2 = index_after_clear(old_self.agent_index(), old_self.permissions(), now);
            assert forall|k: Seq<char>| m1.contains_key(k) <==> m2.contains_key(k) by {
                if has_key(index@, agent_key(), k) {
                    let j = choose|j: int| 0 <= j < index@.len() && #[trigger] agent_key()(index@[j]) == k;
                    assert(agent_key()(old_self.agent_permissions@[j]) == k);
                }
                if has_key(old_self.agent_permissions@, agent_key(), k) {
                    let j = choose|j: int| 0 <= j < old_self.agent_permissions@.len() && #[trigger] agent_key()(old_self.agent_permissions@[j]) == k;
                    assert(agent_key()(index@[j]) == k);
                }
            }
            assert forall|k: Seq<char>| #[trigger] m1.contains_key(k) implies m1[k] == m2[k] by {
                let j = choose|j: int| 0 <= j < index@.len() && #[trigger] agent_key()(index@[j]) == k;
                lemma_to_map_at(index@, agent_key(), agent_val(), j);
                assert(agent_key()(old_self.agent_permissions@[j]) == k);
                lemma_to_map_at(old_self.agent_permissions@, agent_key(), agent_val(), j);
            }
            assert(m1 =~= m2);
            lemma_filter_distinct(old_self.permissions@, keep_pred);
        }
        self.agent_permissions = index;
        self.permissions = kept;
        count
    }

    /// The list at position `a` of the agent index without the identifiers
    /// of permissions of that agent that expired before `now`.
    fn unexpired_ids(&self, a: usize, now: i64) -> (r: Vec<u128>)
        requires
            self.wf(),
            a < self.agent_permissions@.len(),
        ensures
            r@ == self.agent_permissions@[a as int].ids@.filter(
                not_expired_for(self.permissions(), self.agent_permissions@[a as int].agent_id@, now),
            ),
    {
        let ghost agent = self.agent_permissions@[a as int].agent_id@;
        let ghost pred = not_expired_for(self.permissions(), agent, now);
        let ids = &self.agent_permissions[a].ids;
        let mut kept: Vec<u128> = Vec::new();
        let mut i: usize = 0;
        while i < ids.len()
            invariant
                self.wf(),
                ids@ == self.agent_permissions@[a as int].ids@,
                i <= ids@.len(),
                kept@ == ids@.take(i as int).filter(pred),
                pred == not_expired_for(self.permissions(), agent, now),
                agent == self.agent_permissions@[a as int].agent_id@,
                a < self.agent_permissions@.len(),
            decreases ids@.len() - i,
        {
            proof {
                reveal_with_fuel(Seq::filter, 1);
                assert(ids@.take(i + 1).drop_last() =~= ids@.take(i as int));
            }
            let x = ids[i];
            let drop = match self.find_permission(x) {
                Some(k) => {
                    proof {
                        lemma_to_map_at(self.permissions@, perm_key(), perm_val(), k as int);
                    }
                    let p = &self.permissions[k];
                    let expired = match p.expires_at {
                        Some(exp) => exp < now,
                        None => false,
                    };
                    expired && str_eq(p.agent_id.as_str(), self.agent_permissions[a].agent_id.as_str())
                },
                None => false,
            };
            if !drop {
                kept.push(x);
            }
            i = i + 1;
        }
        assert(ids@.take(ids@.len() as int) =~= ids@);
        kept
    }

    /// Clear expired permissions
    ///
    /// The result is `clear_expired_at` for the time read from the clock.
    pub fn clear_expired(&mut self) -> (r: usize)
        requires
            old(self).wf(),
        ensures
            final(self).wf(),
            exists|now: i64|
                {
                    &&& final(self).entries() == old(self).entries().filter(unexpired(now))
                    &&& r == old(self).entries().filter(expired(now)).len()
                    &&& final(self).agent_index() == index_after_clear(
                        old(self).agent_index(),
                        old(self).permissions(),
                        now,
                    )
                },
    {
        let now = now_micros();
        self.clear_expired_at(now)
    }
}

/// Keeping some records of a sequence with distinct keys keeps the keys
/// distinct.
proof fn lemma_filter_distinct(s: Seq<Permission>, pred: spec_fn(Permission) -> bool)
    requires
        keys_distinct(s, perm_key()),
    ensures
        keys_distinct(s.filter(pred), perm_key()),
    decreases s.len(),
{
    reveal_with_fuel(Seq::filter, 1);
    if s.len() > 0 {
        lemma_filter_distinct(s.drop_last(), pred);
        let f = s.drop_last().filter(pred);
        if pred(s.last()) {
            let t = f.push(s.last());
            assert forall|i: int, j: int|
                0 <= i < t.len() && 0 <= j < t.len() && i != j implies #[trigger] perm_key()(t[i])
                != #[trigger] perm_key()(t[j]) by {
                if i == f.len() || j == f.len() {
                    let other = if i == f.len() { j } else { i };
                    s.drop_last().lemma_filter_contains_rev(pred, f[other]);
                    assert(f.contains(f[other]));
                    let k = choose|k: int| 0 <= k < s.drop_last().len() && s.drop_last()[k] == f[other];
                    assert(s[k] == f[other]);
                    assert(perm_key()(s[k]) != perm_key()(s[s.len() - 1]));
                } else {
                    assert(t[i] == f[i] && t[j] == f[j]);
                }
            }
        }
    } else {
        assert(s.filter(pred) =~= s);
    }
}

/// Keeping some entries of a list without repeats keeps it without
/// repeats.
proof fn lemma_filter_no_duplicates(s: Seq<u128>, pred: spec_fn(u128) -> bool)
    requires
        s.no_duplicates(),
    ensures
        s.filter(pred).no_duplicates(),
    decreases s.len(),
{
    reveal_with_fuel(Seq::filter, 1);
    if s.len() > 0 {
        lemma_filter_no_duplicates(s.drop_last(), pred);
        let f = s.drop_last().filter(pred);
        if pred(s.last()) {
            let t = f.push(s.last());
            assert forall|i: int, j: int| 0 <= i < t.len() && 0 <= j < t.len() && i != j implies t[i]
                != t[j] by {
                if i == f.len() || j == f.len() {
                    let other = if i == f.len() { j } else { i };
                    s.drop_last().lemma_filter_contains_rev(pred, f[other]);
                    let k = choose|k: int| 0 <= k < s.drop_last().len() && s.drop_last()[k] == f[other];
                    assert(s[k] == f[other]);
                } else {
                    assert(t[i] == f[i] && t[j] == f[j]);
                }
            }
        }
    } else {
        assert(s.filter(pred) =~= s);
    }
}

impl Default for PermissionStorage {
    fn default() -> (r: Self)
        ensures
            r.wf(),
            r.entries() == Seq::<Permission>::empty(),
    {
        Self::new()
    }
}

/// Reading back a stored permission gives it, and the others stay as they
/// were: after `store(p)`, `get(p.id)` answers `p`, and `get(k)` for any
/// other `k` answers what it answered before.
pub proof fn lemma_get_after_store(before: PermissionStorage, after: PermissionStorage, p: Permission)
    requires
        after.permissions() == before.permissions().insert(p.id, p),
    ensures
        after.permissions().contains_key(p.id),
        after.permissions()[p.id] == p,
        forall|k: u128|
            k != p.id ==> (#[trigger] after.permissions().contains_key(k)
                == before.permissions().contains_key(k)),
        forall|k: u128|
            k != p.id && before.permissions().contains_key(k) ==> #[trigger] after.permissions()[k]
                == before.permissions()[k],
{
}

/// A deleted permission is gone: after `delete(id)`, `get(id)` answers
/// `NotFound`, and the others stay as they were.
pub proof fn lemma_get_after_delete(before: PermissionStorage, after: PermissionStorage, id: u128)
    requires
        after.permissions() == before.permissions().remove(id),
    ensures
        !after.permissions().contains_key(id),
        forall|k: u128|
            k != id ==> (#[trigger] after.permissions().contains_key(k)
                == before.permissions().contains_key(k)),
        forall|k: u128|
            k != id && before.permissions().contains_key(k) ==> #[trigger] after.permissions()[k]
                == before.permissions()[k],
{
}

/// Clearing the permissions expired at `now` removes exactly those: none
/// that is left has expired at `now`, every one that has not is kept, and
/// the order of those kept is kept.
pub proof fn lemma_clear_expired_exact(before: PermissionStorage, after: PermissionStorage, now: i64)
    requires
        after.entries() == before.entries().filter(unexpired(now)),
    ensures
        forall|i: int|
            0 <= i < after.entries().len() ==> !expired_at(#[trigger] after.entries()[i], now),
        forall|i: int|
            0 <= i < before.entries().len() && !expired_at(before.entries()[i], now)
                ==> after.entries().contains(#[trigger] before.entries()[i]),
{
    broadcast use vstd::seq_lib::group_filter_ensures;

    assert forall|i: int| 0 <= i < after.entries().len() implies !expired_at(
        #[trigger] after.entries()[i],
        now,
    ) by {
        before.entries().lemma_filter_pred(unexpired(now), i);
    }
    assert forall|i: int|
        0 <= i < before.entries().len() && !expired_at(
            before.entries()[i],
            now,
        ) implies after.entries().contains(#[trigger] before.entries()[i]) by {
        before.entries().lemma_filter_contains(unexpired(now), i);
    }
}

/// Each permission that `perms` holds is held under its own identifier.
pub open spec fn held_by_id(perms: Map<u128, Permission>) -> bool {
    forall|x: u128| #[trigger] perms.contains_key(x) ==> perms[x].id == x
}

/// A well-formed storage holds each permission under its identifier.
proof fn lemma_held_by_id(s: PermissionStorage)
    requires
        s.wf(),
    ensures
        held_by_id(s.permissions()),
{
    assert forall|x: u128| #[trigger] s.permissions().contains_key(x) implies s.permissions()[x].id
        == x by {
        let j = key_pos(s.entries(), perm_key(), x);
        assert(perm_key()(s.entries()[j]) == x);
    }
}

/// Resolving a list without repeats gives permissions with distinct
/// identifiers, each named by the list.
proof fn lemma_resolve_distinct(ids: Seq<u128>, perms: Map<u128, Permission>)
    requires
        ids.no_duplicates(),
        held_by_id(perms),
    ensures
        keys_distinct(resolve_ids(ids, perms), perm_key()),
        forall|i: int|
            0 <= i < resolve_ids(ids, perms).len() ==> ids.contains(
                #[trigger] resolve_ids(ids, perms)[i].id,
            ),
    decreases ids.len(),
{
    if ids.len() > 0 {
        let rest = ids.drop_last();
        assert forall|i: int, j: int| 0 <= i < rest.len() && 0 <= j < rest.len() && i != j implies rest[i]
            != rest[j] by {
            assert(rest[i] == ids[i] && rest[j] == ids[j]);
        }
        lemma_resolve_distinct(rest, perms);
        let r0 = resolve_ids(rest, perms);
        if perms.contains_key(ids.last()) {
            let r = r0.push(perms[ids.last()]);
            assert forall|i: int| 0 <= i < r0.len() implies #[trigger] r0[i].id != ids.last() by {
                assert(rest.contains(r0[i].id));
                let k = choose|k: int| 0 <= k < rest.len() && rest[k] == r0[i].id;
                assert(ids[k] == rest[k]);
            }
            assert forall|i: int, j: int|
                0 <= i < r.len() && 0 <= j < r.len() && i != j implies #[trigger] perm_key()(r[i])
                != #[trigger] perm_key()(r[j]) by {
                if i < r0.len() && j < r0.len() {
                    assert(r[i] == r0[i] && r[j] == r0[j]);
                } else if i < r0.len() {
                    assert(r[i] == r0[i]);
                } else {
                    assert(r[j] == r0[j]);
                }
            }
            assert forall|i: int| 0 <= i < r.len() implies ids.contains(#[trigger] r[i].id) by {
                if i < r0.len() {
                    assert(r[i] == r0[i]);
                    assert(rest.contains(r0[i].id));
                    let k = choose|k: int| 0 <= k < rest.len() && rest[k] == r0[i].id;
                    assert(ids[k] == rest[k]);
                } else {
                    assert(ids[ids.len() - 1] == ids.last());
                }
            }
        } else {
            assert forall|i: int| 0 <= i < r0.len() implies ids.contains(#[trigger] r0[i].id) by {
                assert(rest.contains(r0[i].id));
                let k = choose|k: int| 0 <= k < rest.len() && rest[k] == r0[i].id;
                assert(ids[k] == rest[k]);
            }
        }
    } else {
        assert(resolve_ids(ids, perms) =~= Seq::<Permission>::empty());
    }
}

/// Resolving a list that names a held identifier gives the permission held
/// under it.
proof fn lemma_resolve_contains(ids: Seq<u128>, perms: Map<u128, Permission>, id: u128)
    requires
        ids.contains(id),
        perms.contains_key(id),
    ensures
        resolve_ids(ids, perms).contains(perms[id]),
    decreases ids.len(),
{
    let rest = ids.drop_last();
    let r0 = resolve_ids(rest, perms);
    if ids.last() == id {
        assert(resolve_ids(ids, perms) == r0.push(perms[id]));
        assert(resolve_ids(ids, perms)[r0.len() as int] == perms[id]);
    } else {
        let k = choose|k: int| 0 <= k < ids.len() && ids[k] == id;
        assert(rest[k] == id);
        lemma_resolve_contains(rest, perms, id);
        let j = choose|j: int| 0 <= j < r0.len() && r0[j] == perms[id];
        if perms.contains_key(ids.last()) {
            assert(resolve_ids(ids, perms)[j] == r0[j]);
        }
    }
}

/// Storing a permission a second time changes nothing, and it stays
/// listed once: after `store(p)` twice, the storage is as after the first,
/// its agent's list names `p.id` exactly once, and `get_by_agent` and
/// `get_all` each hold `p` and no other permission with its identifier.
pub proof fn lemma_store_twice_lists_once(
    s0: PermissionStorage,
    s1: PermissionStorage,
    s2: PermissionStorage,
    p: Permission,
)
    requires
        s0.wf(),
        s1.wf(),
        s2.wf(),
        stored(s0, s1, p),
        stored(s1, s2, p),
    ensures
        s2.permissions() == s1.permissions(),
        s2.agent_index() == s1.agent_index(),
        s2.entries() == s1.entries(),
        s2.ids_for(p.agent_id@).contains(p.id),
        s2.ids_for(p.agent_id@).no_duplicates(),
        s2.by_agent(p.agent_id@).contains(p),
        keys_distinct(s2.by_agent(p.agent_id@), perm_key()),
        s2.entries().contains(p),
        keys_distinct(s2.entries(), perm_key()),
{
    let a = p.agent_id@;
    // The first store lists the identifier and holds `p` under it.
    assert(s1.ids_for(a).contains(p.id)) by {
        if !s0.ids_for(a).contains(p.id) {
            assert(s0.ids_for(a).push(p.id)[s0.ids_for(a).len() as int] == p.id);
        }
    }
    assert(s1.permissions().contains_key(p.id) && s1.permissions()[p.id] == p);
    // So the second store rewrites what is already there.
    assert(s2.permissions() =~= s1.permissions());
    assert(s2.agent_index() =~= s1.agent_index());
    let j = key_pos(s1.entries(), perm_key(), p.id);
    assert(0 <= j < s1.entries().len() && s1.entries()[j] == p);
    assert(s2.entries() =~= s1.entries());
    assert(s2.entries().contains(p)) by {
        assert(s2.entries()[j] == p);
    }
    s2.lemma_ids_distinct(a);
    lemma_held_by_id(s2);
    lemma_resolve_distinct(s2.ids_for(a), s2.permissions());
    lemma_resolve_contains(s2.ids_for(a), s2.permissions(), p.id);
}

/// The active permissions found for an agent and a scope are of that
/// scope: each is one of the agent's permissions, granted and not expired
/// at `now`; for a custom scope it has the queried identifier, and for any
/// other scope it has that very scope. Every such permission of the agent
/// is found.
pub proof fn lemma_active_by_scope_exact(
    s: PermissionStorage,
    agent: Seq<char>,
    scope: PermissionScope,
    now: i64,
    found: Seq<Permission>,
)
    requires
        found == s.active_by_scope(agent, scope, now),
    ensures
        forall|i: int|
            0 <= i < found.len() ==> {
                &&& s.by_agent(agent).contains(#[trigger] found[i])
                &&& found[i].status == PermissionStatus::Granted
                &&& (found[i].expires_at matches Some(e) ==> e > now)
                &&& (scope is Custom ==> found[i].scope is Custom && found[i].scope->Custom_0@
                    == scope->Custom_0@)
                &&& (!(scope is Custom) ==> found[i].scope == scope)
            },
        forall|i: int|
            0 <= i < s.by_agent(agent).len() && {
                let p = s.by_agent(agent)[i];
                &&& p.status == PermissionStatus::Granted
                &&& (p.expires_at matches Some(e) ==> e > now)
                &&& (scope is Custom ==> p.scope is Custom && p.scope->Custom_0@ == scope->Custom_0@)
                &&& (!(scope is Custom) ==> p.scope == scope)
            } ==> found.contains(#[trigger] s.by_agent(agent)[i]),
{
    let all = s.by_agent(agent);
    let pred = active_with_scope(scope, now);
    assert forall|i: int| 0 <= i < found.len() implies {
        &&& all.contains(#[trigger] found[i])
        &&& found[i].status == PermissionStatus::Granted
        &&& (found[i].expires_at matches Some(e) ==> e > now)
        &&& (scope is Custom ==> found[i].scope is Custom && found[i].scope->Custom_0@
            == scope->Custom_0@)
        &&& (!(scope is Custom) ==> found[i].scope == scope)
    } by {
        all.lemma_filter_pred(pred, i);
        all.lemma_filter_contains_rev(pred, found[i]);
        lemma_same_scope_is_equality(found[i].scope, scope);
    }
    assert forall|i: int|
        0 <= i < all.len() && {
            let p = all[i];
            &&& p.status == PermissionStatus::Granted
            &&& (p.expires_at matches Some(e) ==> e > now)
            &&& (scope is Custom ==> p.scope is Custom && p.scope->Custom_0@ == scope->Custom_0@)
            &&& (!(scope is Custom) ==> p.scope == scope)
        } implies found.contains(#[trigger] all[i]) by {
        lemma_same_scope_is_equality(all[i].scope, scope);
        all.lemma_filter_contains(pred, i);
    }
}

/// An agent has a permission for a scope at `now` exactly when one of its
/// permissions of that scope (for a custom scope, with the same
/// identifier) is granted and not expired at `now`.
pub proof fn lemma_has_permission_exact(
    s: PermissionStorage,
    agent: Seq<char>,
    scope: PermissionScope,
    now: i64,
    r: bool,
)
    requires
        r == (s.active_by_scope(agent, scope, now).len() > 0),
    ensures
        r <==> exists|i: int|
            0 <= i < s.by_agent(agent).len() && {
                let p = #[trigger] s.by_agent(agent)[i];
                &&& p.status == PermissionStatus::Granted
                &&& (p.expires_at matches Some(e) ==> e > now)
                &&& (scope is Custom ==> p.scope is Custom && p.scope->Custom_0@ == scope->Custom_0@)
                &&& (!(scope is Custom) ==> p.scope == scope)
            },
{
    let found = s.active_by_scope(agent, scope, now);
    lemma_active_by_scope_exact(s, agent, scope, now, found);
    let all = s.by_agent(agent);
    if r {
        let q = found[0];
        assert(all.contains(q));
        let i = choose|i: int| 0 <= i < all.len() && all[i] == q;
        assert(all[i] == q);
    }
    if exists|i: int|
        0 <= i < all.len() && {
            let p = #[trigger] all[i];
            &&& p.status == PermissionStatus::Granted
            &&& (p.expires_at matches Some(e) ==> e > now)
            &&& (scope is Custom ==> p.scope is Custom && p.scope->Custom_0@ == scope->Custom_0@)
            &&& (!(scope is Custom) ==> p.scope == scope)
        } {
        let i = choose|i: int|
            0 <= i < all.len() && {
                let p = #[trigger] all[i];
                &&& p.status == PermissionStatus::Granted
                &&& (p.expires_at matches Some(e) ==> e > now)
                &&& (scope is Custom ==> p.scope is Custom && p.scope->Custom_0@ == scope->Custom_0@)
                &&& (!(scope is Custom) ==> p.scope == scope)
            };
        assert(found.contains(all[i]));
    }
}

} // verus!

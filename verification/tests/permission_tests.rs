use multi_agent_chat::permission::permission::{
    Permission, PermissionError, PermissionScope, PermissionStatus,
};
use multi_agent_chat::permission::storage::PermissionStorage;
use rand::rngs::StdRng;
use rand::{Rng, SeedableRng};

const HOUR: i64 = 3_600_000_000;
const DAY: i64 = 24 * HOUR;

fn now() -> i64 {
    chrono::Utc::now().timestamp_micros()
}

fn granted(agent: &str, scope: PermissionScope) -> Permission {
    let mut p = Permission::new(agent.to_string(), scope);
    p.grant("admin".to_string(), None).unwrap();
    p
}

#[test]
fn test_permission_creation() {
    let perm = Permission::new("agent1".to_string(), PermissionScope::DocumentRead);
    assert_eq!(perm.status, PermissionStatus::Pending);
    assert_eq!(perm.agent_id, "agent1");
    assert_eq!(perm.scope, PermissionScope::DocumentRead);
}

#[test]
fn test_permission_grant() {
    let mut perm = Permission::new("agent1".to_string(), PermissionScope::DocumentRead);
    assert!(perm.grant("admin".to_string(), Some("Test reason".to_string())).is_ok());
    assert_eq!(perm.status, PermissionStatus::Granted);
    assert_eq!(perm.granted_by, Some("admin".to_string()));
}

#[test]
fn test_permission_deny() {
    let mut perm = Permission::new("agent1".to_string(), PermissionScope::DocumentRead);
    assert!(perm.deny("admin".to_string(), Some("Not authorized".to_string())).is_ok());
    assert_eq!(perm.status, PermissionStatus::Denied);
}

#[test]
fn test_permission_revoke() {
    let mut perm = Permission::new("agent1".to_string(), PermissionScope::DocumentRead);
    perm.grant("admin".to_string(), None).unwrap();
    assert!(perm.revoke("admin".to_string(), Some("Policy change".to_string())).is_ok());
    assert_eq!(perm.status, PermissionStatus::Revoked);
}

#[test]
fn test_invalid_transition() {
    let mut perm = Permission::new("agent1".to_string(), PermissionScope::DocumentRead);
    perm.deny("admin".to_string(), None).unwrap();
    // Cannot revoke a denied permission
    assert!(perm.revoke("admin".to_string(), None).is_err());
}

#[test]
fn test_store_and_get() {
    let mut storage = PermissionStorage::new();
    let perm = Permission::new("agent1".to_string(), PermissionScope::DocumentRead);
    let id = perm.id;
    storage.store(perm).unwrap();
    let retrieved = storage.get(id).unwrap();
    assert_eq!(retrieved.id, id);
    assert_eq!(retrieved.agent_id, "agent1");
}

#[test]
fn test_get_by_agent() {
    let mut storage = PermissionStorage::new();
    storage.store(Permission::new("agent1".to_string(), PermissionScope::DocumentRead)).unwrap();
    storage.store(Permission::new("agent1".to_string(), PermissionScope::PrivateMessage)).unwrap();
    storage.store(Permission::new("agent2".to_string(), PermissionScope::Voting)).unwrap();
    assert_eq!(storage.get_by_agent("agent1").len(), 2);
    assert_eq!(storage.get_by_agent("agent2").len(), 1);
}

#[test]
fn test_has_permission() {
    let mut storage = PermissionStorage::new();
    storage.store(granted("agent1", PermissionScope::DocumentRead)).unwrap();
    assert!(storage.has_permission("agent1", &PermissionScope::DocumentRead));
    assert!(!storage.has_permission("agent1", &PermissionScope::PrivateMessage));
    assert!(!storage.has_permission("agent2", &PermissionScope::DocumentRead));
}

#[test]
fn test_update_permission() {
    let mut storage = PermissionStorage::new();
    let perm = Permission::new("agent1".to_string(), PermissionScope::DocumentRead);
    let id = perm.id;
    storage.store(perm).unwrap();
    let mut updated = storage.get(id).unwrap();
    updated.grant("admin".to_string(), Some("Approved".to_string())).unwrap();
    storage.update(updated).unwrap();
    let retrieved = storage.get(id).unwrap();
    assert_eq!(retrieved.status, PermissionStatus::Granted);
}

#[test]
fn test_delete_permission() {
    let mut storage = PermissionStorage::new();
    let perm = Permission::new("agent1".to_string(), PermissionScope::DocumentRead);
    let id = perm.id;
    storage.store(perm).unwrap();
    storage.delete(id).unwrap();
    assert!(storage.get(id).is_err());
    assert!(storage.get_by_agent("agent1").is_empty());
}

#[test]
fn test_permission_expiration_exact_boundary() {
    let mut storage = PermissionStorage::new();
    let mut perm = granted("agent1", PermissionScope::DocumentRead);
    perm.set_expiration(now());
    storage.store(perm.clone()).unwrap();
    assert!(!perm.is_active(), "Permission at exact expiration boundary should not be active");
}

#[test]
fn test_permission_zero_duration_expiration() {
    let mut storage = PermissionStorage::new();
    let mut perm = granted("agent1", PermissionScope::DocumentRead);
    perm.set_expiration(perm.created_at);
    storage.store(perm.clone()).unwrap();
    assert!(!perm.is_active(), "Zero-duration permission should not be active");
}

#[test]
fn test_custom_scope_empty_string() {
    let perm = Permission::new("agent1".to_string(), PermissionScope::Custom("".to_string()));
    assert_eq!(perm.scope, PermissionScope::Custom("".to_string()));
}

#[test]
fn test_custom_scope_very_long_string() {
    let long_string = "a".repeat(10000);
    let perm = Permission::new("agent1".to_string(), PermissionScope::Custom(long_string.clone()));
    match &perm.scope {
        PermissionScope::Custom(s) => {
            assert_eq!(s.len(), 10000);
            assert_eq!(s, &long_string);
        }
        _ => panic!("Expected Custom scope"),
    }
}

#[test]
fn test_agent_id_special_characters() {
    let special_ids = vec![
        "agent@domain.com", "agent#123", "agent$special", "agent%encoded", "agent&ampsersand",
        "agent*star", "agent?question", "agent[bracket]", "agent{brace}", "agent|pipe",
        "agent\\backslash", "agent\"quote", "agent'apostrophe", "agent<angle>", "agent,comma",
        "agent.period", "agent space", "agent\ttab", "agent\nnewline",
    ];
    for agent_id in special_ids {
        let perm = Permission::new(agent_id.to_string(), PermissionScope::DocumentRead);
        assert_eq!(perm.agent_id, agent_id);
    }
}

#[test]
fn test_agent_id_unicode_and_emojis() {
    let unicode_ids = vec!["エージェント", "代理", "агент", "🤖", "agent🤖123", "مرحبا", "שלום", "🎉🚀💯"];
    for agent_id in unicode_ids {
        let perm = Permission::new(agent_id.to_string(), PermissionScope::DocumentRead);
        assert_eq!(perm.agent_id, agent_id);
    }
}

#[test]
fn test_permission_far_future_expiration() {
    let mut perm = granted("agent1", PermissionScope::DocumentRead);
    perm.set_expiration(now() + 365 * 100 * DAY);
    assert!(perm.is_active(), "Far-future expiration should still be active");
}

#[test]
fn test_permission_past_expiration() {
    let mut perm = granted("agent1", PermissionScope::DocumentRead);
    perm.set_expiration(now() - 365 * DAY);
    assert!(!perm.is_active(), "Past expiration should not be active");
}

#[test]
fn test_grant_already_granted_permission() {
    let mut perm = Permission::new("agent1".to_string(), PermissionScope::DocumentRead);
    perm.grant("admin".to_string(), Some("First grant".to_string())).unwrap();
    let result = perm.grant("admin2".to_string(), Some("Second grant".to_string()));
    assert!(result.is_err());
    assert!(matches!(result, Err(PermissionError::InvalidTransition)));
    assert_eq!(perm.status, PermissionStatus::Granted);
    assert_eq!(perm.granted_by, Some("admin".to_string()));
}

#[test]
fn test_deny_already_denied_permission() {
    let mut perm = Permission::new("agent1".to_string(), PermissionScope::DocumentRead);
    perm.deny("admin".to_string(), Some("First denial".to_string())).unwrap();
    let result = perm.deny("admin2".to_string(), Some("Second denial".to_string()));
    assert!(result.is_err());
    assert!(matches!(result, Err(PermissionError::InvalidTransition)));
    assert_eq!(perm.status, PermissionStatus::Denied);
}

#[test]
fn test_revoke_non_granted_permission() {
    let mut perm = Permission::new("agent1".to_string(), PermissionScope::DocumentRead);
    let result = perm.revoke("admin".to_string(), Some("Revocation".to_string()));
    assert!(result.is_err());
    assert!(matches!(result, Err(PermissionError::InvalidTransition)));
    assert_eq!(perm.status, PermissionStatus::Pending);
    perm.deny("admin".to_string(), None).unwrap();
    let result = perm.revoke("admin".to_string(), None);
    assert!(result.is_err());
    assert_eq!(perm.status, PermissionStatus::Denied);
}

#[test]
fn test_revoke_already_revoked_permission() {
    let mut perm = granted("agent1", PermissionScope::DocumentRead);
    perm.revoke("admin".to_string(), Some("First revocation".to_string())).unwrap();
    let result = perm.revoke("admin2".to_string(), Some("Second revocation".to_string()));
    assert!(result.is_err());
    assert!(matches!(result, Err(PermissionError::InvalidTransition)));
    assert_eq!(perm.status, PermissionStatus::Revoked);
}

#[test]
fn test_update_nonexistent_permission() {
    let mut storage = PermissionStorage::new();
    let perm = Permission::new("agent1".to_string(), PermissionScope::DocumentRead);
    let result = storage.update(perm);
    assert!(result.is_err());
    assert!(matches!(result, Err(PermissionError::NotFound)));
}

#[test]
fn test_get_nonexistent_permission() {
    let storage = PermissionStorage::new();
    let result = storage.get(uuid::Uuid::new_v4().as_u128());
    assert!(result.is_err());
    assert!(matches!(result, Err(PermissionError::NotFound)));
}

#[test]
fn test_delete_nonexistent_permission() {
    let mut storage = PermissionStorage::new();
    let result = storage.delete(uuid::Uuid::new_v4().as_u128());
    assert!(result.is_err());
    assert!(matches!(result, Err(PermissionError::NotFound)));
}

#[test]
fn test_concurrent_permission_access() {
    let mut storage = PermissionStorage::new();
    for i in 0..10 {
        storage.store(granted("agent1", PermissionScope::Custom(format!("scope_{}", i)))).unwrap();
    }
    assert_eq!(storage.get_by_agent("agent1").len(), 10);
}

#[test]
fn test_fuzz_random_state_transitions() {
    #[derive(Debug, Clone, Copy)]
    enum Action {
        Grant,
        Deny,
        Revoke,
    }
    let mut rng = StdRng::seed_from_u64(42);
    for _iteration in 0..100 {
        let mut perm = Permission::new("agent1".to_string(), PermissionScope::DocumentRead);
        let mut expected_status = PermissionStatus::Pending;
        for _step in 0..10 {
            let action = match rng.gen_range(0..3) {
                0 => Action::Grant,
                1 => Action::Deny,
                _ => Action::Revoke,
            };
            let result = match action {
                Action::Grant => perm.grant("admin".to_string(), None),
                Action::Deny => perm.deny("admin".to_string(), None),
                Action::Revoke => perm.revoke("admin".to_string(), None),
            };
            match (expected_status, action) {
                (PermissionStatus::Pending, Action::Grant) => expected_status = PermissionStatus::Granted,
                (PermissionStatus::Pending, Action::Deny) => expected_status = PermissionStatus::Denied,
                (PermissionStatus::Granted, Action::Deny) => expected_status = PermissionStatus::Denied,
                (PermissionStatus::Granted, Action::Revoke) => expected_status = PermissionStatus::Revoked,
                (PermissionStatus::Denied, Action::Grant) => expected_status = PermissionStatus::Granted,
                (PermissionStatus::Revoked, Action::Grant) => expected_status = PermissionStatus::Granted,
                _ => {
                    assert!(result.is_err(), "Expected error for invalid transition");
                    continue;
                }
            }
            if result.is_ok() {
                assert_eq!(perm.status, expected_status, "Status mismatch after action");
            }
        }
    }
}

#[test]
fn test_fuzz_random_expiration_times() {
    let mut rng = StdRng::seed_from_u64(42);
    for _iteration in 0..100 {
        let mut perm = granted("agent1", PermissionScope::DocumentRead);
        let days_offset: i64 = rng.gen_range(-365..365);
        perm.set_expiration(now() + days_offset * DAY);
        let should_be_active = days_offset > 0;
        assert_eq!(perm.is_active(), should_be_active, "offset: {} days", days_offset);
    }
}

#[test]
fn test_fuzz_random_agent_ids() {
    let mut rng = StdRng::seed_from_u64(42);
    let chars: Vec<char> =
        "abcdefghijklmnopqrstuvwxyzABCDEFGHIJKLMNOPQRSTUVWXYZ0123456789!@#$%^&*()_+-=[]{}|;:,.<>?/~` "
            .chars()
            .collect();
    for _iteration in 0..100 {
        let length = rng.gen_range(0..1000);
        let agent_id: String = (0..length).map(|_| chars[rng.gen_range(0..chars.len())]).collect();
        let perm = Permission::new(agent_id.clone(), PermissionScope::DocumentRead);
        assert_eq!(perm.agent_id, agent_id);
        let mut storage = PermissionStorage::new();
        storage.store(perm.clone()).unwrap();
        let retrieved = storage.get_by_agent(&agent_id);
        assert_eq!(retrieved.len(), 1);
        assert_eq!(retrieved[0].agent_id, agent_id);
    }
}

#[test]
fn test_fuzz_random_scope_types() {
    let mut rng = StdRng::seed_from_u64(42);
    for _iteration in 0..100 {
        let scope = match rng.gen_range(0..7) {
            0 => PermissionScope::DocumentRead,
            1 => PermissionScope::DocumentWrite,
            2 => PermissionScope::PrivateMessage,
            3 => PermissionScope::Voting,
            4 => PermissionScope::Broadcast,
            5 => PermissionScope::Custom("custom".to_string()),
            _ => PermissionScope::Custom(format!("random_{}", rng.gen::<u32>())),
        };
        let mut perm = Permission::new("agent1".to_string(), scope.clone());
        assert!(perm.grant("admin".to_string(), None).is_ok());
        assert_eq!(perm.status, PermissionStatus::Granted);
        assert!(perm.deny("admin".to_string(), None).is_ok());
        assert_eq!(perm.status, PermissionStatus::Denied);
        assert!(perm.revoke("admin".to_string(), None).is_err());
        assert!(perm.grant("admin".to_string(), None).is_ok());
        assert!(perm.revoke("admin".to_string(), None).is_ok());
        assert_eq!(perm.status, PermissionStatus::Revoked);
    }
}

#[test]
fn test_fuzz_concurrent_requests() {
    let mut storage = PermissionStorage::new();
    for i in 0..100 {
        storage.store(granted("agent1", PermissionScope::Custom(format!("scope_{}", i)))).unwrap();
    }
    let agent_perms = storage.get_by_agent("agent1");
    assert_eq!(agent_perms.len(), 100);
    let unique_ids: std::collections::HashSet<u128> = agent_perms.iter().map(|p| p.id).collect();
    assert_eq!(unique_ids.len(), 100);
}

#[test]
fn test_permission_reason_very_long() {
    let mut perm = Permission::new("agent1".to_string(), PermissionScope::DocumentRead);
    let long_reason = "a".repeat(100000);
    perm.grant("admin".to_string(), Some(long_reason.clone())).unwrap();
    assert_eq!(perm.reason, Some(long_reason));
}

#[test]
fn test_permission_reason_none_vs_empty() {
    let mut perm1 = Permission::new("agent1".to_string(), PermissionScope::DocumentRead);
    perm1.grant("admin".to_string(), None).unwrap();
    let mut perm2 = Permission::new("agent2".to_string(), PermissionScope::DocumentRead);
    perm2.grant("admin".to_string(), Some("".to_string())).unwrap();
    assert_eq!(perm1.reason, None);
    assert_eq!(perm2.reason, Some("".to_string()));
}

#[test]
fn test_clear_expired_mixed_permissions() {
    let mut storage = PermissionStorage::new();
    let mut expired = granted("agent1", PermissionScope::DocumentRead);
    expired.set_expiration(now() - HOUR);
    let mut active = granted("agent2", PermissionScope::DocumentRead);
    active.set_expiration(now() + HOUR);
    let no_expiration = granted("agent3", PermissionScope::DocumentRead);
    storage.store(expired).unwrap();
    storage.store(active).unwrap();
    storage.store(no_expiration).unwrap();
    let cleared_count = storage.clear_expired();
    assert_eq!(cleared_count, 1);
    assert_eq!(storage.get_all().len(), 2);
    assert!(storage.has_permission("agent2", &PermissionScope::DocumentRead));
    assert!(storage.has_permission("agent3", &PermissionScope::DocumentRead));
    assert!(!storage.has_permission("agent1", &PermissionScope::DocumentRead));
}

#[test]
fn test_storage_large_number_of_permissions() {
    let mut storage = PermissionStorage::new();
    for i in 0..10000 {
        storage
            .store(granted(&format!("agent_{}", i % 100), PermissionScope::Custom(format!("scope_{}", i))))
            .unwrap();
    }
    assert_eq!(storage.get_all().len(), 10000);
    for i in 0..100 {
        assert_eq!(storage.get_by_agent(&format!("agent_{}", i)).len(), 100);
    }
}

#[test]
fn clear_expired_boundary_is_kept() {
    // A permission expiring exactly now is not active, but not yet cleared.
    let mut storage = PermissionStorage::new();
    let mut p = granted("agent1", PermissionScope::Voting);
    p.set_expiration(1_000);
    let id = p.id;
    storage.store(p).unwrap();
    assert!(!storage.has_permission_at("agent1", &PermissionScope::Voting, 1_000));
    assert!(storage.has_permission_at("agent1", &PermissionScope::Voting, 999));
    assert_eq!(storage.clear_expired_at(1_000), 0);
    assert_eq!(storage.clear_expired_at(1_001), 1);
    assert!(storage.get(id).is_err());
    assert!(storage.get_by_agent("agent1").is_empty());
}

#[test]
fn pending_requests_and_active_scopes() {
    let mut storage = PermissionStorage::default();
    storage.store(Permission::new("a".to_string(), PermissionScope::Voting)).unwrap();
    storage.store(Permission::new("b".to_string(), PermissionScope::Voting)).unwrap();
    storage.store(granted("a", PermissionScope::Broadcast)).unwrap();
    assert_eq!(storage.get_pending_requests().len(), 2);
    assert_eq!(storage.get_pending_by_agent("a").len(), 1);
    assert_eq!(storage.get_active_by_scope("a", &PermissionScope::Broadcast).len(), 1);
    assert!(storage.get_active_by_scope("a", &PermissionScope::Voting).is_empty());
    assert_eq!(storage.get_active_by_scope_at("a", &PermissionScope::Broadcast, 0).len(), 1);
}

#[test]
fn permission_error_texts() {
    assert_eq!(PermissionError::InvalidTransition.message(), "Invalid state transition");
    assert_eq!(PermissionError::NotFound.message(), "Permission not found");
    assert_eq!(PermissionError::Expired.message(), "Permission expired");
    assert_eq!(PermissionError::StorageError("disk".to_string()).message(), "Storage error: disk");
}

#[test]
fn storing_again_replaces() {
    let mut storage = PermissionStorage::new();
    let mut p = Permission::new("a".to_string(), PermissionScope::Voting);
    let id = p.id;
    storage.store(p.clone()).unwrap();
    p.grant("admin".to_string(), None).unwrap();
    storage.store(p).unwrap();
    assert_eq!(storage.get_all().len(), 1);
    assert_eq!(storage.get_by_agent("a").len(), 1);
    assert_eq!(storage.get(id).unwrap().status, PermissionStatus::Granted);
}

#[test]
fn storing_twice_lists_the_permission_once() {
    let mut storage = PermissionStorage::new();
    let perm = Permission::new("agent1".to_string(), PermissionScope::Voting);
    storage.store(perm.clone()).unwrap();
    storage.store(perm.clone()).unwrap();
    let by_agent = storage.get_by_agent("agent1");
    assert_eq!(by_agent.iter().filter(|p| p.id == perm.id).count(), 1);
    assert_eq!(storage.get_all().iter().filter(|p| p.id == perm.id).count(), 1);
    assert_eq!(by_agent.len(), 1);
}

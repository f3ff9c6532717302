use multi_agent_chat::mcp_server::handshake::HandshakeState;
use multi_agent_chat::mcp_server::session::{Session, SessionManager, SessionState};
use multi_agent_chat::permission::permission::{Permission, PermissionScope};
use multi_agent_chat::permission::storage::PermissionStorage;

const SECOND: i64 = 1_000_000;

#[test]
fn test_session_creation() {
    let session = Session::new();
    assert_eq!(session.state, SessionState::Handshaking);
    assert!(session.agent.is_none());
    assert!(!session.is_active());
    assert_eq!(session.handshake_state, HandshakeState::Init);
}

#[test]
fn test_session_activation() {
    let mut session = Session::new();
    session.register_agent(
        "agent-1".to_string(),
        "Test Agent".to_string(),
        vec!["chat".to_string()],
    );
    session.activate();
    assert_eq!(session.state, SessionState::Active);
    assert!(session.is_active());
    assert_eq!(session.agent_id(), Some("agent-1"));
}

#[test]
fn test_session_manager() {
    let mut manager = SessionManager::new();
    let session = Session::new();
    let session_id = manager.add_session(session);
    assert_eq!(manager.count(), 1);
    let retrieved = manager.get_session(&session_id);
    assert!(retrieved.is_some());
    manager.remove_session(&session_id);
    assert_eq!(manager.count(), 0);
}

#[test]
fn test_private_channels() {
    let mut session = Session::new();
    session.join_private_channel("pm-1".to_string());
    session.join_private_channel("pm-2".to_string());
    assert_eq!(session.private_channels.len(), 2);
    assert!(session.private_channels.contains(&"pm-1".to_string()));
    session.leave_private_channel("pm-1");
    assert_eq!(session.private_channels.len(), 1);
}

#[test]
fn joining_twice_keeps_one_entry() {
    let mut session = Session::new();
    session.join_private_channel("pm-1".to_string());
    session.join_private_channel("pm-1".to_string());
    assert_eq!(session.private_channels, vec!["pm-1".to_string()]);
    session.leave_private_channel("pm-2");
    assert_eq!(session.private_channels.len(), 1);
}

#[test]
fn touch_records_the_time() {
    let mut session = Session::new();
    session.join_private_channel("pm".to_string());
    session.touch_at(42);
    assert_eq!(session.last_activity, 42);
    assert_eq!(session.private_channels, vec!["pm".to_string()]);
    session.touch();
    assert!(session.last_activity > 42);
}

#[test]
fn session_states() {
    let mut session = Session::new();
    session.suspend();
    assert_eq!(session.state, SessionState::Suspended);
    assert!(!session.is_active());
    session.terminate();
    assert_eq!(session.state, SessionState::Terminated);
    assert_eq!(session.agent_id(), None);
}

#[test]
fn expiry_counts_whole_seconds() {
    let mut session = Session::new();
    session.last_activity = 1_000 * SECOND;
    let t = session.last_activity;
    assert!(!session.is_expired_at(t + 10 * SECOND, 10));
    assert!(!session.is_expired_at(t + 11 * SECOND - 1, 10));
    assert!(session.is_expired_at(t + 11 * SECOND, 10));
    // Before the last activity: negative elapsed time.
    assert!(!session.is_expired_at(t - 5 * SECOND, 0));
    assert!(session.is_expired_at(t - 5 * SECOND, -6));
    let fresh = Session::new();
    assert!(!fresh.is_expired(60));
}

#[test]
fn permission_of_session_agent() {
    let mut storage = PermissionStorage::new();
    let mut p = Permission::new("agent-1".to_string(), PermissionScope::Voting);
    p.grant("admin".to_string(), None).unwrap();
    storage.store(p).unwrap();
    let mut session = Session::new();
    assert!(!session.has_permission(&storage, &PermissionScope::Voting));
    session.register_agent("agent-1".to_string(), "A".to_string(), vec![]);
    assert!(session.has_permission(&storage, &PermissionScope::Voting));
    assert!(!session.has_permission(&storage, &PermissionScope::Broadcast));
    assert!(session.has_permission_at(&storage, &PermissionScope::Voting, 0));
}

#[test]
fn manager_finds_by_agent_and_cleans_up() {
    let mut manager = SessionManager::default();
    let mut a = Session::new();
    a.register_agent("alice".to_string(), "Alice".to_string(), vec![]);
    a.last_activity = 0;
    let mut b = Session::new();
    b.register_agent("bob".to_string(), "Bob".to_string(), vec![]);
    b.last_activity = 100 * SECOND;
    let id_a = manager.add_session(a);
    let id_b = manager.add_session(b);
    assert_eq!(manager.get_session_by_agent("bob").unwrap().id, id_b);
    assert!(manager.get_session_by_agent("carol").is_none());
    assert_eq!(manager.get_all_sessions().len(), 2);
    let removed = manager.cleanup_expired_at(50 * SECOND, 10);
    assert_eq!(removed, vec![id_a.clone()]);
    assert_eq!(manager.count(), 1);
    assert!(manager.get_session(&id_a).is_none());
    assert!(manager.remove_session(&id_a).is_none());
    assert!(manager.touch_session_at(&id_b, 123 * SECOND));
    assert!(!manager.touch_session_at(&id_a, 5));
    assert_eq!(manager.get_session(&id_b).unwrap().last_activity, 123 * SECOND);
    assert!(manager.cleanup_expired(i64::MAX).is_empty());
    assert_eq!(manager.cleanup_expired(3600), vec![id_b]);
}

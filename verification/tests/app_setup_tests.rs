use multi_agent_chat::document_storage::storage::DocumentStorage;
use multi_agent_chat::message_router::router::MessageRouter;
use multi_agent_chat::permission::storage::PermissionStorage;

#[test]
fn test_initialization() {
    let _permission_storage = PermissionStorage::new();
    let _message_router = MessageRouter::new(100, 1000);
    let _document_storage = DocumentStorage::new(None);
    assert!(true);
}

use multi_agent_chat::document_storage::metadata::{AccessLevel, DocumentMetadata};
use multi_agent_chat::document_storage::storage::{DocumentStorage, DocumentStorageError};
use multi_agent_chat::document_storage::version::DocumentVersion;

fn new_id() -> u128 {
    uuid::Uuid::new_v4().as_u128()
}

#[test]
fn test_metadata_creation() {
    let meta = DocumentMetadata::new(new_id(), "Test Document".to_string(), "agent1".to_string());
    assert_eq!(meta.title, "Test Document");
    assert_eq!(meta.created_by, "agent1");
    assert_eq!(meta.current_version, 0);
    assert!(!meta.archived);
}

#[test]
fn test_add_remove_tags() {
    let mut meta = DocumentMetadata::new(new_id(), "Test".to_string(), "agent1".to_string());
    meta.add_tag("rust".to_string());
    meta.add_tag("programming".to_string());
    meta.add_tag("rust".to_string()); // Duplicate
    assert_eq!(meta.tags.len(), 2);
    assert!(meta.tags.contains(&"rust".to_string()));
    meta.remove_tag("rust");
    assert_eq!(meta.tags.len(), 1);
    assert!(!meta.tags.contains(&"rust".to_string()));
}

#[test]
fn test_version_increment() {
    let mut meta = DocumentMetadata::new(new_id(), "Test".to_string(), "agent1".to_string());
    meta.increment_version();
    assert_eq!(meta.current_version, 1);
    meta.increment_version();
    assert_eq!(meta.current_version, 2);
}

#[test]
fn metadata_test_archive_unarchive() {
    let mut meta = DocumentMetadata::new(new_id(), "Test".to_string(), "agent1".to_string());
    assert!(meta.is_active());
    meta.archive();
    assert!(!meta.is_active());
    assert!(meta.archived);
    meta.unarchive();
    assert!(meta.is_active());
    assert!(!meta.archived);
}

#[test]
fn test_access_level() {
    let mut meta = DocumentMetadata::new(new_id(), "Test".to_string(), "agent1".to_string());
    assert_eq!(meta.access_level, AccessLevel::Private);
    meta.set_access_level(AccessLevel::Public);
    assert_eq!(meta.access_level, AccessLevel::Public);
    meta.set_access_level(AccessLevel::Restricted);
    assert_eq!(meta.access_level, AccessLevel::Restricted);
}

#[test]
fn test_version_creation() {
    let version = DocumentVersion::new(1, "agent1".to_string(), "Hello, world!".to_string());
    assert_eq!(version.info.version_number, 1);
    assert_eq!(version.info.created_by, "agent1");
    assert!(!version.info.content_hash.is_empty());
}

#[test]
fn test_version_with_message() {
    let version = DocumentVersion::new(1, "agent1".to_string(), "Content".to_string())
        .with_message("Initial commit".to_string());
    assert_eq!(version.info.message, Some("Initial commit".to_string()));
}

#[test]
fn test_content_hash_consistency() {
    let content = "Test content";
    let v1 = DocumentVersion::new(1, "agent1".to_string(), content.to_string());
    let v2 = DocumentVersion::new(1, "agent1".to_string(), content.to_string());
    assert_eq!(v1.hash(), v2.hash());
}

#[test]
fn test_different_content_hashes() {
    let v1 = DocumentVersion::new(1, "agent1".to_string(), "Content A".to_string());
    let v2 = DocumentVersion::new(1, "agent1".to_string(), "Content B".to_string());
    assert_ne!(v1.hash(), v2.hash());
}

#[test]
fn test_create_document() {
    let mut storage = DocumentStorage::new(None);
    let doc_id = storage
        .create_document("Test Doc".to_string(), "agent1".to_string(), "Initial content".to_string())
        .unwrap();
    let metadata = storage.get_metadata(doc_id).unwrap();
    assert_eq!(metadata.title, "Test Doc");
    assert_eq!(metadata.current_version, 1);
}

#[test]
fn test_update_document() {
    let mut storage = DocumentStorage::new(None);
    let doc_id = storage
        .create_document("Test Doc".to_string(), "agent1".to_string(), "Initial content".to_string())
        .unwrap();
    let new_version = storage
        .update_document(doc_id, "agent1".to_string(), "Updated content".to_string(), Some("First update".to_string()))
        .unwrap();
    assert_eq!(new_version, 2);
    let metadata = storage.get_metadata(doc_id).unwrap();
    assert_eq!(metadata.current_version, 2);
    let version = storage.get_version(doc_id, 2).unwrap();
    assert_eq!(version.content, "Updated content");
    assert_eq!(version.info.message, Some("First update".to_string()));
}

#[test]
fn test_get_all_versions() {
    let mut storage = DocumentStorage::new(None);
    let doc_id = storage.create_document("Test".to_string(), "agent1".to_string(), "v1".to_string()).unwrap();
    storage.update_document(doc_id, "agent1".to_string(), "v2".to_string(), None).unwrap();
    storage.update_document(doc_id, "agent1".to_string(), "v3".to_string(), None).unwrap();
    let versions = storage.get_all_versions(doc_id).unwrap();
    assert_eq!(versions.len(), 3);
}

#[test]
fn test_search_documents() {
    let mut storage = DocumentStorage::new(None);
    storage.create_document("Rust Guide".to_string(), "agent1".to_string(), "Content".to_string()).unwrap();
    storage.create_document("Python Basics".to_string(), "agent1".to_string(), "Content".to_string()).unwrap();
    let results = storage.search_documents("rust");
    assert_eq!(results.len(), 1);
    assert_eq!(results[0].title, "Rust Guide");
}

#[test]
fn storage_test_archive_unarchive() {
    let mut storage = DocumentStorage::new(None);
    let doc_id = storage.create_document("Test".to_string(), "agent1".to_string(), "Content".to_string()).unwrap();
    storage.archive_document(doc_id, "agent1".to_string()).unwrap();
    let docs = storage.list_documents();
    assert!(docs.is_empty());
    storage.unarchive_document(doc_id, "agent1".to_string()).unwrap();
    let docs = storage.list_documents();
    assert_eq!(docs.len(), 1);
}

#[test]
fn latest_version_follows_updates() {
    let mut storage = DocumentStorage::default();
    let id = storage.create_document("T".to_string(), "a".to_string(), "one".to_string()).unwrap();
    assert_eq!(storage.get_latest_version(id).unwrap().content, "one");
    storage.update_document(id, "b".to_string(), "two".to_string(), None).unwrap();
    let latest = storage.get_latest_version(id).unwrap();
    assert_eq!(latest.content, "two");
    assert_eq!(latest.info.version_number, 2);
    assert_eq!(latest.info.created_by, "b");
    assert_eq!(storage.get_metadata(id).unwrap().modified_by, "b");
    assert_eq!(storage.get_version(id, 1).unwrap().content, "one");
    assert!(matches!(storage.get_version(id, 3), Err(DocumentStorageError::VersionNotFound(3))));
}

#[test]
fn archived_documents_refuse_updates() {
    let mut storage = DocumentStorage::new(None);
    let id = storage.create_document("T".to_string(), "a".to_string(), "x".to_string()).unwrap();
    storage.archive_document(id, "a".to_string()).unwrap();
    assert!(matches!(
        storage.update_document(id, "a".to_string(), "y".to_string(), None),
        Err(DocumentStorageError::DocumentArchived)
    ));
    assert!(storage.search_documents("t").is_empty());
}

#[test]
fn deleted_documents_are_gone() {
    let mut storage = DocumentStorage::new(None);
    let id = storage.create_document("T".to_string(), "a".to_string(), "x".to_string()).unwrap();
    storage.delete_document(id).unwrap();
    assert!(matches!(storage.get_metadata(id), Err(DocumentStorageError::NotFound(x)) if x == id));
    assert!(matches!(storage.get_all_versions(id), Err(DocumentStorageError::NotFound(_))));
    assert!(matches!(storage.delete_document(id), Err(DocumentStorageError::NotFound(_))));
    assert!(matches!(
        storage.update_document(id, "a".to_string(), "y".to_string(), None),
        Err(DocumentStorageError::NotFound(_))
    ));
}

#[test]
fn compare_versions_reports_changes() {
    let mut storage = DocumentStorage::new(None);
    let id = storage.create_document("T".to_string(), "a".to_string(), "x".to_string()).unwrap();
    storage.update_document(id, "a".to_string(), "y".to_string(), None).unwrap();
    storage.update_document(id, "a".to_string(), "y".to_string(), None).unwrap();
    let c = storage.compare_versions(id, 1, 2).unwrap();
    assert!(c.content_changed);
    assert!(c.hash_changed);
    assert_eq!(c.version_a.version_number, 1);
    assert_eq!(c.version_b.version_number, 2);
    let same = storage.compare_versions(id, 2, 3).unwrap();
    assert!(!same.content_changed);
    assert!(!same.hash_changed);
    assert!(matches!(storage.compare_versions(id, 4, 1), Err(DocumentStorageError::VersionNotFound(4))));
}

#[test]
fn descriptions_paths_and_plain_search() {
    let mut meta = DocumentMetadata::new(7, "Plain".to_string(), "a".to_string())
        .with_description("About ÉCOLES".to_string());
    meta.add_tag("Networking".to_string());
    assert_eq!(meta.description, Some("About ÉCOLES".to_string()));
    let mut storage = DocumentStorage::new(Some("/tmp/docs".to_string()));
    assert_eq!(storage.storage_path(), "/tmp/docs");
    assert_eq!(DocumentStorage::new(None).storage_path(), "./documents");
    let id = storage.create_document("Plain".to_string(), "a".to_string(), "x".to_string()).unwrap();
    assert!(storage.search_documents("plain").len() == 1);
    assert!(storage.search_documents("zzz").is_empty());
    assert_eq!(storage.list_documents()[0].id, id);
}

#[test]
fn links_and_hashes_have_their_exact_text() {
    let storage = DocumentStorage::new(None);
    let id = 0x0123_4567_89ab_cdef_0123_4567_89ab_cdefu128;
    assert_eq!(
        storage.generate_document_link(id),
        "document://01234567-89ab-cdef-0123-456789abcdef"
    );
    assert_eq!(
        storage.generate_version_link(id, 42),
        "document://01234567-89ab-cdef-0123-456789abcdef?version=42"
    );
    let v = DocumentVersion::new(1, "a".to_string(), "abc".to_string());
    assert_eq!(v.hash(), "ba7816bf8f01cfea414140de5dae2223b00361a396177a9cb410ff61f20015ad");
    assert_eq!(v.size_bytes, 3);
    assert_eq!(DocumentVersion::new(1, "a".to_string(), "é".to_string()).size_bytes, 2);
}

#[test]
fn storage_error_texts() {
    assert_eq!(
        DocumentStorageError::NotFound(1).message(),
        "Document not found: 00000000-0000-0000-0000-000000000001"
    );
    assert_eq!(DocumentStorageError::VersionNotFound(12).message(), "Version not found: 12");
    assert_eq!(DocumentStorageError::AccessDenied.message(), "Access denied");
    assert_eq!(DocumentStorageError::DocumentArchived.message(), "Document is archived");
    assert_eq!(DocumentStorageError::StorageError("io".to_string()).message(), "Storage error: io");
    assert_eq!(
        DocumentStorageError::InvalidOperation("no".to_string()).message(),
        "Invalid operation: no"
    );
}

#[test]
fn versions_are_numbered_in_order() {
    let mut storage = DocumentStorage::new(None);
    let id = storage.create_document("T".to_string(), "a".to_string(), "v1".to_string()).unwrap();
    for n in 2..=6u32 {
        assert_eq!(storage.update_document(id, "a".to_string(), format!("v{}", n), None).unwrap(), n);
    }
    let versions = storage.get_all_versions(id).unwrap();
    for (i, v) in versions.iter().enumerate() {
        assert_eq!(v.info.version_number as usize, i + 1);
        assert_eq!(v.content, format!("v{}", i + 1));
        assert_eq!(v.info.content_hash.len(), 64);
    }
    assert_eq!(storage.get_metadata(id).unwrap().current_version as usize, versions.len());
}

//! Document Storage module for managing documents and versions
pub mod metadata;
pub mod storage;
pub mod version;

pub use metadata::DocumentMetadata;
pub use storage::DocumentStorage;
pub use version::{DocumentVersion, VersionInfo};

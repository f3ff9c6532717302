//! Permission module for managing agent permissions and access control
pub mod permission;
pub mod storage;

pub use permission::{Permission, PermissionScope, PermissionStatus, PermissionRequest};
pub use storage::PermissionStorage;

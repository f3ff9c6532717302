//! Coordination core of a multi-agent chat server: permissions, message
//! routing, versioned documents, agent sessions and the handshake.
pub mod document_storage;
pub mod mcp_server;
pub mod message_router;
pub mod permission;
pub mod utils;

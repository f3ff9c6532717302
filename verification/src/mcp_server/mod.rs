//! MCP Server Module
//!
//! The protocol types, the handshake, agent sessions and the decisions that
//! a connection makes.
pub mod handshake;
pub mod protocol;
pub mod server;
pub mod session;

pub use handshake::HandshakeState;
pub use protocol::{McpMessage, McpMethod, McpRequest, McpResponse};
pub use server::{McpServer, ServerConfig};
pub use session::{Session, SessionManager};

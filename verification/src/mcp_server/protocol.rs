//! MCP Protocol Message Types
//!
//! This module defines the message structures for the Model Context Protocol.

use vstd::prelude::*;
use crate::utils::ids::{new_id_string, now_micros, uuid_text};
use crate::utils::text::str_eq;

verus! {

/// A JSON value (`serde_json::Value`), carried through as it is.
#[verifier::external_type_specification]
#[verifier::external_body]
pub struct ExJsonValue(serde_json::Value);

/// MCP Message envelope
#[derive(Debug)]
pub struct McpMessage {
    /// Unique message ID
    pub id: String,
    /// Timestamp (microseconds since the epoch)
    pub timestamp: i64,
    /// The actual request or response
    pub payload: McpPayload,
}

/// MCP Payload - either request or response
#[derive(Debug)]
pub enum McpPayload {
    Request(McpRequest),
    Response(McpResponse),
}

/// MCP Request methods
#[derive(Debug)]
pub enum McpMethod {
    /// Initialize connection
    Initialize,
    /// Send a chat message
    SendMessage,
    /// Request permission
    RequestPermission,
    /// Submit work for review
    Submit,
    /// Vote on a message
    Vote,
    /// Request counter-proposal
    RequestCounterProposal,
    /// State reason for vote
    StateVoteReason,
    /// Open private message channel
    OpenPrivateChannel,
    /// Close private message channel
    ClosePrivateChannel,
    /// Get document content
    GetDocument,
    /// List documents
    ListDocuments,
    /// Heartbeat/keepalive
    Ping,
    /// Custom method
    Custom(String),
}

/// Two methods are equal: the same variant, and for `Custom` the same name.
pub open spec fn same_method(a: McpMethod, b: McpMethod) -> bool {
    match (a, b) {
        (McpMethod::Custom(x), McpMethod::Custom(y)) => x@ == y@,
        (McpMethod::Custom(_), _) => false,
        (_, McpMethod::Custom(_)) => false,
        _ => method_tag(a) == method_tag(b),
    }
}

/// The position of a method's variant in the list above.
pub open spec fn method_tag(m: McpMethod) -> nat {
    match m {
        McpMethod::Initialize => 0,
        McpMethod::SendMessage => 1,
        McpMethod::RequestPermission => 2,
        McpMethod::Submit => 3,
        McpMethod::Vote => 4,
        McpMethod::RequestCounterProposal => 5,
        McpMethod::StateVoteReason => 6,
        McpMethod::OpenPrivateChannel => 7,
        McpMethod::ClosePrivateChannel => 8,
        McpMethod::GetDocument => 9,
        McpMethod::ListDocuments => 10,
        McpMethod::Ping => 11,
        McpMethod::Custom(_) => 12,
    }
}

impl McpMethod {
    fn tag(&self) -> (r: u8)
        ensures
            r == method_tag(*self),
    {
        match self {
            McpMethod::Initialize => 0,
            McpMethod::SendMessage => 1,
            McpMethod::RequestPermission => 2,
            McpMethod::Submit => 3,
            McpMethod::Vote => 4,
            McpMethod::RequestCounterProposal => 5,
            McpMethod::StateVoteReason => 6,
            McpMethod::OpenPrivateChannel => 7,
            McpMethod::ClosePrivateChannel => 8,
            McpMethod::GetDocument => 9,
            McpMethod::ListDocuments => 10,
            McpMethod::Ping => 11,
            McpMethod::Custom(_) => 12,
        }
    }
}

impl PartialEq for McpMethod {
    fn eq(&self, other: &Self) -> (r: bool) {
        match (self, other) {
            (McpMethod::Custom(x), McpMethod::Custom(y)) => str_eq(x.as_str(), y.as_str()),
            (McpMethod::Custom(_), _) => false,
            (_, McpMethod::Custom(_)) => false,
            _ => self.tag() == other.tag(),
        }
    }
}

impl vstd::std_specs::cmp::PartialEqSpecImpl for McpMethod {
    open spec fn obeys_eq_spec() -> bool {
        true
    }

    open spec fn eq_spec(&self, other: &Self) -> bool {
        same_method(*self, *other)
    }
}

/// MCP Request structure
#[derive(Debug)]
pub struct McpRequest {
    /// Method to invoke
    pub method: McpMethod,
    /// Request parameters
    pub params: serde_json::Value,
    /// Optional request ID for matching responses
    pub request_id: Option<String>,
}

/// MCP Response structure
#[derive(Debug)]
pub struct McpResponse {
    /// Corresponding request ID
    pub request_id: Option<String>,
    /// Success result
    pub result: Option<serde_json::Value>,
    /// Error information
    pub error: Option<McpError>,
}

/// MCP Error structure
#[derive(Debug)]
pub struct McpError {
    /// Error code
    pub code: i32,
    /// Error message
    pub message: String,
    /// Additional error data
    pub data: Option<serde_json::Value>,
}

impl McpMessage {
    /// Create a new request message
    ///
    /// The message identifier is a fresh identifier in text form, and the
    /// request carries the same text as its request identifier.
    pub fn request(method: McpMethod, params: serde_json::Value) -> (r: Self)
        ensures
            exists|a: u128| r.id@ == uuid_text(a),
            r.payload matches McpPayload::Request(req) && {
                &&& req.method == method
                &&& req.params == params
                &&& req.request_id matches Some(rid) && rid@ == r.id@
            },
    {
        let request_id = new_id_string();
        Self {
            id: request_id.clone(),
            timestamp: now_micros(),
            payload: McpPayload::Request(
                McpRequest { method, params, request_id: Some(request_id) },
            ),
        }
    }

    /// Create a new response message
    pub fn response(request_id: String, result: serde_json::Value) -> (r: Self)
        ensures
            exists|a: u128| r.id@ == uuid_text(a),
            r.payload == McpPayload::Response(
                McpResponse { request_id: Some(request_id), result: Some(result), error: None },
            ),
    {
        Self {
            id: new_id_string(),
            timestamp: now_micros(),
            payload: McpPayload::Response(
                McpResponse { request_id: Some(request_id), result: Some(result), error: None },
            ),
        }
    }

    /// Create an error response
    pub fn error_response(request_id: String, code: i32, message: String) -> (r: Self)
        ensures
            exists|a: u128| r.id@ == uuid_text(a),
            r.payload == McpPayload::Response(
                McpResponse {
                    request_id: Some(request_id),
                    result: None,
                    error: Some(McpError { code, message, data: None }),
                },
            ),
    {
        Self {
            id: new_id_string(),
            timestamp: now_micros(),
            payload: McpPayload::Response(
                McpResponse {
                    request_id: Some(request_id),
                    result: None,
                    error: Some(McpError { code, message, data: None }),
                },
            ),
        }
    }

    /// Extract request from message
    pub fn as_request(&self) -> (r: Option<&McpRequest>)
        ensures
            match self.payload {
                McpPayload::Request(req) => r == Some(&req),
                McpPayload::Response(_) => r is None,
            },
    {
        match &self.payload {
            McpPayload::Request(req) => Some(req),
            _ => None,
        }
    }

    /// Extract response from message
    pub fn as_response(&self) -> (r: Option<&McpResponse>)
        ensures
            match self.payload {
                McpPayload::Response(resp) => r == Some(&resp),
                McpPayload::Request(_) => r is None,
            },
    {
        match &self.payload {
            McpPayload::Response(resp) => Some(resp),
            _ => None,
        }
    }
}

impl McpError {
    /// Parse error
    pub const PARSE_ERROR: i32 = -32700;
    /// Invalid request
    pub const INVALID_REQUEST: i32 = -32600;
    /// Method not found
    pub const METHOD_NOT_FOUND: i32 = -32601;
    /// Invalid params
    pub const INVALID_PARAMS: i32 = -32602;
    /// Internal error
    pub const INTERNAL_ERROR: i32 = -32603;
    /// Permission denied
    pub const PERMISSION_DENIED: i32 = -32000;
    /// Session expired
    pub const SESSION_EXPIRED: i32 = -32001;
}

} // verus!

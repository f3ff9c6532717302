use multi_agent_chat::mcp_server::protocol::{McpError, McpMessage, McpMethod, McpPayload};

fn json(text: &str) -> serde_json::Value {
    serde_json::from_str(text).unwrap()
}

#[test]
fn test_create_request() {
    let msg = McpMessage::request(McpMethod::Initialize, json(r#"{"agentId": "test-agent"}"#));
    assert!(msg.as_request().is_some());
    assert_eq!(msg.as_request().unwrap().method, McpMethod::Initialize);
}

#[test]
fn test_create_response() {
    let request_id = "test-123".to_string();
    let msg = McpMessage::response(request_id.clone(), json(r#"{"status": "ok"}"#));
    assert!(msg.as_response().is_some());
    let resp = msg.as_response().unwrap();
    assert_eq!(resp.request_id, Some(request_id));
    assert!(resp.result.is_some());
    assert!(resp.error.is_none());
}

#[test]
fn test_error_response() {
    let request_id = "test-456".to_string();
    let msg = McpMessage::error_response(
        request_id.clone(),
        McpError::PERMISSION_DENIED,
        "Access denied".to_string(),
    );
    let resp = msg.as_response().unwrap();
    assert!(resp.result.is_none());
    assert!(resp.error.is_some());
    assert_eq!(resp.error.as_ref().unwrap().code, McpError::PERMISSION_DENIED);
}

#[test]
fn request_carries_its_identifier_and_params() {
    let params = json(r#"{"channelId": "general", "content": "Hello, world!"}"#);
    let msg = McpMessage::request(McpMethod::SendMessage, params.clone());
    assert_eq!(msg.id.len(), 36);
    let req = msg.as_request().unwrap();
    assert_eq!(req.request_id.as_deref(), Some(msg.id.as_str()));
    assert_eq!(req.params, params);
    assert!(msg.as_response().is_none());
    match &msg.payload {
        McpPayload::Request(r) => assert_eq!(r.method, McpMethod::SendMessage),
        McpPayload::Response(_) => panic!("expected a request"),
    }
}

#[test]
fn error_response_keeps_code_and_message() {
    let msg = McpMessage::error_response("r".to_string(), McpError::METHOD_NOT_FOUND, "nope".to_string());
    assert!(msg.as_request().is_none());
    let err = msg.as_response().unwrap().error.as_ref().unwrap();
    assert_eq!(err.code, -32601);
    assert_eq!(err.message, "nope");
    assert!(err.data.is_none());
    assert_ne!(
        McpMessage::response("a".to_string(), json("1")).id,
        McpMessage::response("a".to_string(), json("1")).id
    );
}

#[test]
fn method_equality() {
    assert_eq!(McpMethod::Custom("x".to_string()), McpMethod::Custom("x".to_string()));
    assert_ne!(McpMethod::Custom("x".to_string()), McpMethod::Custom("y".to_string()));
    assert_ne!(McpMethod::Ping, McpMethod::Custom("Ping".to_string()));
    assert_ne!(McpMethod::Ping, McpMethod::Vote);
    assert_eq!(McpError::PARSE_ERROR, -32700);
    assert_eq!(McpError::INVALID_REQUEST, -32600);
    assert_eq!(McpError::INVALID_PARAMS, -32602);
    assert_eq!(McpError::INTERNAL_ERROR, -32603);
    assert_eq!(McpError::SESSION_EXPIRED, -32001);
}

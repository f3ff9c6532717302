use multi_agent_chat::document_storage::storage::DocumentStorage;
use multi_agent_chat::mcp_server::handshake::{ClientHello, ClientResponse, HandshakeState};
use multi_agent_chat::mcp_server::protocol::{McpError, McpMessage, McpMethod, McpPayload};
use multi_agent_chat::mcp_server::server::{
    Connection, Inbound, McpServer, Outcome, Reply, RequestParams, ServerConfig, Step,
};
use multi_agent_chat::message_router::router::MessageRouter;
use multi_agent_chat::permission::storage::PermissionStorage;

const NOW: i64 = 1_700_000_000_000_000;

fn step(server: &mut McpServer, conn: &mut Connection, sid: &str, event: Inbound) -> Step {
    server.step(conn, sid, event, NOW)
}

fn no_params() -> RequestParams {
    RequestParams {
        channel_id: None,
        content: None,
        priority: None,
        scope: None,
        summary: None,
        message_id: None,
        vote_type: None,
        document_id: None,
        query: None,
    }
}

fn hello(version: &str) -> ClientHello {
    ClientHello {
        version: version.to_string(),
        agent_id: "agent-1".to_string(),
        agent_name: "Agent One".to_string(),
        capabilities: vec![],
        auth_token: None,
    }
}

fn server_with(docs: DocumentStorage, config: ServerConfig) -> McpServer {
    McpServer::new(config, PermissionStorage::new(), MessageRouter::new(100, 1000), docs)
}

fn server() -> McpServer {
    server_with(DocumentStorage::new(None), ServerConfig::default())
}

fn request(method: McpMethod) -> McpMessage {
    McpMessage::request(method, serde_json::Value::Null)
}

fn message(msg: McpMessage, params: RequestParams) -> Inbound {
    Inbound::Message {
        message: msg,
        params,
        hello: Err("not a hello".to_string()),
        response: Err("not an answer".to_string()),
    }
}

fn authenticated() -> Connection {
    Connection { handshake: HandshakeState::Authenticated, challenge_id: None, require_auth: false }
}

fn expect_error(step: Step, id: &str, code: i32, text: &str) {
    match step {
        Step::Send(Reply::Error { request_id, code: c, message }) => {
            assert_eq!(request_id, id);
            assert_eq!(c, code);
            assert_eq!(message, text);
        }
        other => panic!("unexpected step {:?}", other),
    }
}

#[test]
fn test_server_config_default() {
    let config = ServerConfig::default();
    assert_eq!(config.port, 8080);
    assert_eq!(config.max_connections, 100);
    assert!(!config.require_auth);
}

#[test]
fn test_server_creation() {
    let server = server();
    assert!(!server.is_running());
}

#[test]
fn server_config_default_host_and_timeout() {
    let config = ServerConfig::default();
    assert_eq!(config.host, "127.0.0.1");
    assert_eq!(config.session_timeout_seconds, 3600);
    let copy = config.clone();
    assert_eq!(copy.host, config.host);
}

#[test]
fn sessions_open_and_close() {
    let mut config = ServerConfig::default();
    config.max_connections = 1;
    let mut server = server_with(DocumentStorage::new(None), config);
    assert!(server.admits_connection());
    let sid = server.open_session();
    assert_eq!(sid.len(), 36);
    assert_eq!(server.session_count(), 1);
    assert!(!server.admits_connection());
    // New sessions are not active yet, so a broadcast reaches nobody.
    assert!(server.broadcast_targets().is_empty());
    assert_eq!(server.agent_session("agent-1"), Err("Agent agent-1 not found".to_string()));
    server.close_session(&sid);
    assert_eq!(server.session_count(), 0);
    assert!(server.admits_connection());
    server.set_running(true);
    assert!(server.is_running());
    server.set_running(false);
    assert!(!server.is_running());
}

#[test]
fn step_answers_transport_events() {
    let mut server = server();
    let sid = server.open_session();
    let mut conn = Connection::new(false);
    expect_error(
        step(&mut server, &mut conn, &sid, Inbound::Unparsable("expected value".to_string())),
        "",
        McpError::PARSE_ERROR,
        "Invalid JSON: expected value",
    );
    match step(&mut server, &mut conn, &sid, Inbound::Ping("hi".to_string())) {
        Step::SendText(t) => assert_eq!(t, "hi"),
        other => panic!("unexpected step {:?}", other),
    }
    assert!(matches!(step(&mut server, &mut conn, &sid, Inbound::Closed), Step::Stop));
    assert!(matches!(step(&mut server, &mut conn, &sid, Inbound::Other), Step::Continue));
    match step(&mut server, &mut conn, &sid, Inbound::Failed("reset".to_string())) {
        Step::Fail(e) => assert_eq!(e, "reset"),
        other => panic!("unexpected step {:?}", other),
    }
    assert_eq!(conn.handshake, HandshakeState::Init);
}

#[test]
fn step_requires_initialize_first() {
    let mut server = server();
    let sid = server.open_session();
    let mut conn = Connection::new(false);
    let msg = request(McpMethod::Ping);
    let id = msg.id.clone();
    expect_error(
        step(&mut server, &mut conn, &sid, message(msg, no_params())),
        &id,
        McpError::INVALID_REQUEST,
        "Must initialize connection first",
    );
    // A response from the client is ignored.
    let resp = McpMessage::response("x".to_string(), serde_json::Value::Null);
    assert!(matches!(step(&mut server, &mut conn, &sid, message(resp, no_params())), Step::Continue));
    assert_eq!(conn.handshake, HandshakeState::Init);
}

fn initialize(hello: Result<ClientHello, String>, response: Result<ClientResponse, String>) -> (String, Inbound) {
    let msg = request(McpMethod::Initialize);
    let id = msg.id.clone();
    (id, Inbound::Message { message: msg, params: no_params(), hello, response })
}

fn expect_pong(step: Step, id: &str) {
    match step {
        Step::Send(Reply::Result { request_id, outcome: Outcome::Pong { timestamp } }) => {
            assert_eq!(request_id, id);
            assert_eq!(timestamp, NOW);
        }
        other => panic!("unexpected step {:?}", other),
    }
}

#[test]
fn step_runs_the_handshake() {
    let mut server = server();
    let sid = server.open_session();
    let mut conn = Connection::new(true);
    let (id, event) = initialize(Ok(hello("1.0")), Err("none".to_string()));
    let challenge_id = match step(&mut server, &mut conn, &sid, event) {
        Step::Send(Reply::Result { request_id, outcome: Outcome::Challenge { challenge, auth_required } }) => {
            assert_eq!(request_id, id);
            assert!(auth_required);
            challenge.challenge_id
        }
        other => panic!("unexpected step {:?}", other),
    };
    assert_eq!(conn.handshake, HandshakeState::ChallengeSent);
    assert_eq!(conn.challenge_id, Some(challenge_id.clone()));
    // Requests wait for the answer to the challenge.
    let ping = request(McpMethod::Ping);
    let ping_id = ping.id.clone();
    expect_error(
        step(&mut server, &mut conn, &sid, message(ping, no_params())),
        &ping_id,
        McpError::INVALID_REQUEST,
        "Must initialize connection first",
    );
    // The answer naming the challenge authenticates the connection.
    let answer = ClientResponse { challenge_id, response_data: "signed".to_string() };
    let (id, event) = initialize(Err("not a hello".to_string()), Ok(answer));
    match step(&mut server, &mut conn, &sid, event) {
        Step::Send(Reply::Result { request_id, outcome: Outcome::Authenticated { session_token } }) => {
            assert_eq!(request_id, id);
            assert_eq!(session_token.len(), 36);
        }
        other => panic!("unexpected step {:?}", other),
    }
    assert_eq!(conn.handshake, HandshakeState::Authenticated);
    // Now requests are served.
    let ping = request(McpMethod::Ping);
    let ping_id = ping.id.clone();
    expect_pong(step(&mut server, &mut conn, &sid, message(ping, no_params())), &ping_id);
}

#[test]
fn step_authenticates_at_once_without_required_auth() {
    let mut server = server();
    let sid = server.open_session();
    let mut conn = Connection::new(false);
    let (id, event) = initialize(Ok(hello("1.0")), Err("none".to_string()));
    match step(&mut server, &mut conn, &sid, event) {
        Step::Send(Reply::Result { request_id, outcome: Outcome::Challenge { auth_required, .. } }) => {
            assert_eq!(request_id, id);
            assert!(!auth_required);
        }
        other => panic!("unexpected step {:?}", other),
    }
    assert_eq!(conn.handshake, HandshakeState::Authenticated);
    let ping = request(McpMethod::Ping);
    let ping_id = ping.id.clone();
    expect_pong(step(&mut server, &mut conn, &sid, message(ping, no_params())), &ping_id);
    // With a token, a client need not answer even where auth is required.
    let mut conn = Connection::new(true);
    let mut h = hello("1.3");
    h.auth_token = Some("token".to_string());
    let (_, event) = initialize(Ok(h), Err("none".to_string()));
    step(&mut server, &mut conn, &sid, event);
    assert_eq!(conn.handshake, HandshakeState::Authenticated);
}

#[test]
fn wrong_answer_fails_the_handshake() {
    let mut server = server();
    let sid = server.open_session();
    let mut conn = Connection::new(true);
    let (_, event) = initialize(Ok(hello("1.0")), Err("none".to_string()));
    step(&mut server, &mut conn, &sid, event);
    let (_, event) = initialize(Err("x".to_string()), Err("missing field `challenge_id`".to_string()));
    match step(&mut server, &mut conn, &sid, event) {
        Step::Fail(e) => assert_eq!(e, "Invalid challenge response: missing field `challenge_id`"),
        other => panic!("unexpected step {:?}", other),
    }
    assert_eq!(conn.handshake, HandshakeState::ChallengeSent);
    let answer = ClientResponse { challenge_id: "wrong".to_string(), response_data: String::new() };
    let (id, event) = initialize(Err("x".to_string()), Ok(answer));
    match step(&mut server, &mut conn, &sid, event) {
        Step::SendThenFail(Reply::Error { request_id, code, message }, e) => {
            assert_eq!(request_id, id);
            assert_eq!(code, McpError::INVALID_REQUEST);
            assert_eq!(message, "Challenge ID mismatch");
            assert_eq!(e, "Handshake failed");
        }
        other => panic!("unexpected step {:?}", other),
    }
    assert_eq!(conn.handshake, HandshakeState::Failed("Challenge ID mismatch".to_string()));
}

#[test]
fn connection_limit_is_kept() {
    let mut config = ServerConfig::default();
    config.max_connections = 2;
    let mut server = server_with(DocumentStorage::new(None), config);
    let a = server.try_open_session().unwrap();
    assert!(server.try_open_session().is_some());
    assert!(server.try_open_session().is_none());
    assert_eq!(server.session_count(), 2);
    server.close_session(&a);
    assert!(server.try_open_session().is_some());
    assert_eq!(server.session_count(), 2);
}

#[test]
fn step_refuses_bad_hellos() {
    let mut server = server();
    let sid = server.open_session();
    let mut conn = Connection::new(false);
    let msg = request(McpMethod::Initialize);
    match step(&mut server, &mut conn, &sid, Inbound::Message { message: msg, params: no_params(), hello: Err("missing field".to_string()), response: Err("none".to_string()) }) {
        Step::Fail(e) => assert_eq!(e, "Invalid hello: missing field"),
        other => panic!("unexpected step {:?}", other),
    }
    assert_eq!(conn.handshake, HandshakeState::Init);
    let msg = request(McpMethod::Initialize);
    match step(&mut server, &mut conn, &sid, Inbound::Message { message: msg, params: no_params(), hello: Ok(hello("0.9")), response: Err("none".to_string()) }) {
        Step::SendThenFail(Reply::Error { message, .. }, e) => {
            assert_eq!(message, "Unsupported protocol version: 0.9");
            assert_eq!(e, "Handshake failed");
        }
        other => panic!("unexpected step {:?}", other),
    }
    assert!(conn.handshake.is_failed());
}

#[test]
fn handlers_need_an_agent() {
    let mut server = server();
    let sid = server.open_session();
    let mut conn = authenticated();
    for method in [McpMethod::SendMessage, McpMethod::RequestPermission, McpMethod::Submit, McpMethod::Vote] {
        match step(&mut server, &mut conn, &sid, message(request(method), no_params())) {
            Step::Fail(e) => assert_eq!(e, "Agent not registered"),
            other => panic!("unexpected step {:?}", other),
        }
    }
}

#[test]
fn ping_and_unknown_methods() {
    let mut server = server();
    let sid = server.open_session();
    let mut conn = authenticated();
    let msg = request(McpMethod::Ping);
    let id = msg.id.clone();
    match step(&mut server, &mut conn, &sid, message(msg, no_params())) {
        Step::Send(Reply::Result { request_id, outcome: Outcome::Pong { timestamp } }) => {
            assert_eq!(request_id, id);
            assert!(timestamp > 0);
        }
        other => panic!("unexpected step {:?}", other),
    }
    let msg = request(McpMethod::StateVoteReason);
    let id = msg.id.clone();
    expect_error(
        step(&mut server, &mut conn, &sid, message(msg, no_params())),
        &id,
        McpError::METHOD_NOT_FOUND,
        "Method StateVoteReason not implemented",
    );
    let msg = request(McpMethod::Custom("say \"hi\"".to_string()));
    let id = msg.id.clone();
    expect_error(
        step(&mut server, &mut conn, &sid, message(msg, no_params())),
        &id,
        McpError::METHOD_NOT_FOUND,
        "Method Custom(\"say \\\"hi\\\"\") not implemented",
    );
}

#[test]
fn documents_through_requests() {
    let mut docs = DocumentStorage::new(None);
    let doc_id = docs
        .create_document("Rust Guide".to_string(), "agent1".to_string(), "Initial".to_string())
        .unwrap();
    docs.create_document("Python".to_string(), "agent1".to_string(), "x".to_string()).unwrap();
    let mut server = server_with(docs, ServerConfig::default());
    let sid = server.open_session();
    let req = match request(McpMethod::GetDocument).payload {
        McpPayload::Request(r) => r,
        McpPayload::Response(_) => unreachable!(),
    };
    // Missing and unknown documents end the request with an error.
    assert_eq!(
        server.process_request(&sid, &req, &no_params(), NOW).unwrap_err(),
        "Missing documentId"
    );
    let mut params = no_params();
    params.document_id = Some(0);
    assert_eq!(
        server.process_request(&sid, &req, &params, NOW).unwrap_err(),
        "Document 00000000-0000-0000-0000-000000000000 not found"
    );
    params.document_id = Some(doc_id);
    match server.process_request(&sid, &req, &params, NOW).unwrap() {
        Reply::Result { outcome: Outcome::Document { metadata, content, version }, .. } => {
            assert_eq!(metadata.title, "Rust Guide");
            assert_eq!(content, "Initial");
            assert_eq!(version, 1);
        }
        other => panic!("unexpected reply {:?}", other),
    }
    let list = match request(McpMethod::ListDocuments).payload {
        McpPayload::Request(r) => r,
        McpPayload::Response(_) => unreachable!(),
    };
    match server.process_request(&sid, &list, &no_params(), NOW).unwrap() {
        Reply::Result { outcome: Outcome::Documents { documents }, .. } => assert_eq!(documents.len(), 2),
        other => panic!("unexpected reply {:?}", other),
    }
    let mut q = no_params();
    q.query = Some("RUST".to_string());
    match server.process_request(&sid, &list, &q, NOW).unwrap() {
        Reply::Result { outcome: Outcome::Documents { documents }, .. } => {
            assert_eq!(documents.len(), 1);
            assert_eq!(documents[0].title, "Rust Guide");
        }
        other => panic!("unexpected reply {:?}", other),
    }
}

use multi_agent_chat::mcp_server::handshake::{
    generate_nonce, sanitize_agent_name, validate_agent_id, AuthMethod, ClientHello,
    ClientResponse, HandshakeState,
};

fn hello(version: &str, token: Option<&str>) -> ClientHello {
    ClientHello {
        version: version.to_string(),
        agent_id: "agent-123".to_string(),
        agent_name: "Test Agent".to_string(),
        capabilities: vec!["chat".to_string()],
        auth_token: token.map(|t| t.to_string()),
    }
}

#[test]
fn test_initial_state() {
    let state = HandshakeState::new();
    assert_eq!(state, HandshakeState::Init);
}

#[test]
fn test_receive_hello() {
    let mut state = HandshakeState::new();
    let hello = hello("1.0", None);
    let result = state.receive_hello(&hello);
    assert!(result.is_ok());
    assert_eq!(state, HandshakeState::ChallengeSent);
    let challenge = result.unwrap();
    assert!(!challenge.challenge_id.is_empty());
    assert!(!challenge.nonce.is_empty());
}

#[test]
fn test_unsupported_version() {
    let mut state = HandshakeState::new();
    let mut hello = hello("0.9", None);
    hello.capabilities = vec![];
    let result = state.receive_hello(&hello);
    assert!(result.is_err());
    assert!(state.is_failed());
}

#[test]
fn test_receive_response() {
    let mut state = HandshakeState::new();
    let hello = hello("1.0", None);
    let challenge = state.receive_hello(&hello).unwrap();
    let response = ClientResponse {
        challenge_id: challenge.challenge_id.clone(),
        response_data: "valid-response".to_string(),
    };
    let result = state.receive_response(&response, &challenge.challenge_id);
    assert!(result.is_ok());
    assert!(state.is_authenticated());
    let handshake_result = result.unwrap();
    assert!(handshake_result.success);
    assert!(handshake_result.session_token.is_some());
}

#[test]
fn test_challenge_mismatch() {
    let mut state = HandshakeState::new();
    let hello = hello("1.0", None);
    let challenge = state.receive_hello(&hello).unwrap();
    let response = ClientResponse {
        challenge_id: "wrong-id".to_string(),
        response_data: "invalid".to_string(),
    };
    let result = state.receive_response(&response, &challenge.challenge_id);
    assert!(result.is_ok());
    let handshake_result = result.unwrap();
    assert!(!handshake_result.success);
    assert!(handshake_result.error.is_some());
}

#[test]
fn test_validate_agent_id() {
    assert!(validate_agent_id("agent-123"));
    assert!(validate_agent_id("a"));
    assert!(!validate_agent_id(""));
    assert!(!validate_agent_id(&"a".repeat(257)));
}

#[test]
fn test_sanitize_agent_name() {
    assert_eq!(sanitize_agent_name("Test Agent"), "Test Agent");
    assert_eq!(sanitize_agent_name("Agent<script>"), "Agentscript");
    assert_eq!(sanitize_agent_name("A-B_C"), "A-B_C");
    assert_eq!(sanitize_agent_name(&"a".repeat(200)), "a".repeat(128));
}

#[test]
fn validate_agent_id_counts_characters() {
    assert!(validate_agent_id(&"a".repeat(256)));
    // Two-byte characters count once each.
    assert!(validate_agent_id(&"é".repeat(200)));
    assert!(validate_agent_id(&"é".repeat(256)));
    assert!(!validate_agent_id(&"é".repeat(257)));
}

#[test]
fn sanitize_keeps_unicode_letters_and_counts_characters() {
    // Letters of any script and whitespace pass the filter, and the limit
    // counts characters.
    assert_eq!(sanitize_agent_name("Ünïcødé!?"), "Ünïcødé");
    assert_eq!(sanitize_agent_name(&"é".repeat(130)), "é".repeat(128));
    assert_eq!(sanitize_agent_name("a!b\tc"), "ab\tc");
}

#[test]
fn hello_with_token_asks_for_token_auth() {
    let mut state = HandshakeState::new();
    let challenge = state.receive_hello(&hello("1.2", Some("secret"))).unwrap();
    assert_eq!(challenge.auth_method, AuthMethod::Token);
    let mut state2 = HandshakeState::new();
    let challenge2 = state2.receive_hello(&hello("1.0", None)).unwrap();
    assert_eq!(challenge2.auth_method, AuthMethod::ChallengeResponse);
    assert_eq!(challenge.challenge_id.len(), 36);
    assert_ne!(challenge.challenge_id, challenge.nonce);
}

#[test]
fn unsupported_version_message_names_the_version() {
    let mut state = HandshakeState::new();
    let e = state.receive_hello(&hello("2.0", None)).unwrap_err();
    assert_eq!(e, "Unsupported protocol version: 2.0");
    assert_eq!(
        state,
        HandshakeState::Failed("Unsupported protocol version: 2.0".to_string())
    );
}

#[test]
fn second_hello_is_refused_and_state_kept() {
    let mut state = HandshakeState::new();
    state.receive_hello(&hello("1.0", None)).unwrap();
    let e = state.receive_hello(&hello("1.0", None)).unwrap_err();
    assert_eq!(e, "Invalid handshake state");
    assert_eq!(state, HandshakeState::ChallengeSent);
}

#[test]
fn response_before_hello_is_refused() {
    let mut state = HandshakeState::new();
    let response = ClientResponse { challenge_id: "x".to_string(), response_data: String::new() };
    let e = state.receive_response(&response, "x").unwrap_err();
    assert_eq!(e, "Invalid handshake state");
    assert_eq!(state, HandshakeState::Init);
}

#[test]
fn mismatch_fails_the_handshake() {
    let mut state = HandshakeState::new();
    state.receive_hello(&hello("1.0", None)).unwrap();
    let response = ClientResponse { challenge_id: "wrong".to_string(), response_data: String::new() };
    let r = state.receive_response(&response, "right").unwrap();
    assert_eq!(r.error, Some("Challenge ID mismatch".to_string()));
    assert_eq!(state, HandshakeState::Failed("Challenge ID mismatch".to_string()));
    assert!(!HandshakeState::is_supported_version("0.1"));
    assert!(HandshakeState::is_supported_version("1."));
    assert!(!HandshakeState::is_supported_version("1"));
}

#[test]
fn nonce_is_an_identifier() {
    let n = generate_nonce();
    assert_eq!(n.len(), 36);
    assert!(uuid::Uuid::parse_str(&n).is_ok());
    assert_eq!(HandshakeState::default(), HandshakeState::Init);
}

#[test]
fn sanitizing_twice_changes_nothing() {
    for name in ["Agent<script>", "Ünïcødé!?", "a!b\tc", ""] {
        let once = sanitize_agent_name(name);
        assert_eq!(sanitize_agent_name(&once), once);
    }
    let long = "x!".repeat(300);
    let once = sanitize_agent_name(&long);
    assert_eq!(sanitize_agent_name(&once), once);
}

//! MCP Handshake Protocol
//!
//! This module implements the authentication handshake for agent connections.

use vstd::prelude::*;
use crate::utils::ids::{new_id_string, uuid_text};
use crate::utils::text::{
    lemma_filter_all,
    char_is_alphanumeric, char_is_whitespace, chars_of, is_unicode_whitespace, push_char,
    starts_with_seq, str_eq, str_starts_with, string_of, unicode_alphanumeric,
};

verus! {

/// Handshake state machine states
#[derive(Debug)]
pub enum HandshakeState {
    /// Initial state - waiting for client hello
    Init,
    /// Received hello - sent challenge
    ChallengeSent,
    /// Received response - verifying
    Verifying,
    /// Handshake complete - authenticated
    Authenticated,
    /// Handshake failed
    Failed(String),
}

/// Two handshake states are equal: the same variant, and for `Failed` the
/// same reason.
pub open spec fn same_handshake_state(a: HandshakeState, b: HandshakeState) -> bool {
    match (a, b) {
        (HandshakeState::Init, HandshakeState::Init) => true,
        (HandshakeState::ChallengeSent, HandshakeState::ChallengeSent) => true,
        (HandshakeState::Verifying, HandshakeState::Verifying) => true,
        (HandshakeState::Authenticated, HandshakeState::Authenticated) => true,
        (HandshakeState::Failed(x), HandshakeState::Failed(y)) => x@ == y@,
        _ => false,
    }
}

impl PartialEq for HandshakeState {
    fn eq(&self, other: &Self) -> (r: bool) {
        match (self, other) {
            (HandshakeState::Init, HandshakeState::Init) => true,
            (HandshakeState::ChallengeSent, HandshakeState::ChallengeSent) => true,
            (HandshakeState::Verifying, HandshakeState::Verifying) => true,
            (HandshakeState::Authenticated, HandshakeState::Authenticated) => true,
            (HandshakeState::Failed(x), HandshakeState::Failed(y)) => str_eq(x.as_str(), y.as_str()),
            _ => false,
        }
    }
}

impl vstd::std_specs::cmp::PartialEqSpecImpl for HandshakeState {
    open spec fn obeys_eq_spec() -> bool {
        true
    }

    open spec fn eq_spec(&self, other: &Self) -> bool {
        same_handshake_state(*self, *other)
    }
}

impl Clone for HandshakeState {
    fn clone(&self) -> (r: Self)
        ensures
            r == *self,
    {
        match self {
            HandshakeState::Init => HandshakeState::Init,
            HandshakeState::ChallengeSent => HandshakeState::ChallengeSent,
            HandshakeState::Verifying => HandshakeState::Verifying,
            HandshakeState::Authenticated => HandshakeState::Authenticated,
            HandshakeState::Failed(s) => HandshakeState::Failed(s.clone()),
        }
    }
}

/// Client hello message
#[derive(Debug)]
pub struct ClientHello {
    /// Protocol version
    pub version: String,
    /// Agent identifier
    pub agent_id: String,
    /// Agent name
    pub agent_name: String,
    /// Supported capabilities
    pub capabilities: Vec<String>,
    /// Optional authentication token
    pub auth_token: Option<String>,
}

/// Server challenge message
#[derive(Debug)]
pub struct ServerChallenge {
    /// Challenge ID
    pub challenge_id: String,
    /// Nonce for verification
    pub nonce: String,
    /// Required authentication method
    pub auth_method: AuthMethod,
}

/// Authentication methods
#[derive(Debug)]
pub enum AuthMethod {
    /// No authentication required
    NoAuth,
    /// Token-based authentication
    Token,
    /// Challenge-response authentication
    ChallengeResponse,
    /// Custom authentication
    Custom(String),
}

/// Two authentication methods are equal: the same variant, and for
/// `Custom` the same name.
pub open spec fn same_auth_method(a: AuthMethod, b: AuthMethod) -> bool {
    match (a, b) {
        (AuthMethod::NoAuth, AuthMethod::NoAuth) => true,
        (AuthMethod::Token, AuthMethod::Token) => true,
        (AuthMethod::ChallengeResponse, AuthMethod::ChallengeResponse) => true,
        (AuthMethod::Custom(x), AuthMethod::Custom(y)) => x@ == y@,
        _ => false,
    }
}

impl PartialEq for AuthMethod {
    fn eq(&self, other: &Self) -> (r: bool) {
        match (self, other) {
            (AuthMethod::NoAuth, AuthMethod::NoAuth) => true,
            (AuthMethod::Token, AuthMethod::Token) => true,
            (AuthMethod::ChallengeResponse, AuthMethod::ChallengeResponse) => true,
            (AuthMethod::Custom(x), AuthMethod::Custom(y)) => str_eq(x.as_str(), y.as_str()),
            _ => false,
        }
    }
}

impl vstd::std_specs::cmp::PartialEqSpecImpl for AuthMethod {
    open spec fn obeys_eq_spec() -> bool {
        true
    }

    open spec fn eq_spec(&self, other: &Self) -> bool {
        same_auth_method(*self, *other)
    }
}

/// Client response to challenge
#[derive(Debug)]
pub struct ClientResponse {
    /// The challenge being answered
    pub challenge_id: String,
    /// Response data (signature, token, etc.)
    pub response_data: String,
}

/// Handshake result
#[derive(Debug)]
pub struct HandshakeResult {
    /// Success status
    pub success: bool,
    /// Session token if successful
    pub session_token: Option<String>,
    /// Error message if failed
    pub error: Option<String>,
    /// Agent info if authenticated
    pub agent_info: Option<AgentInfoMinimal>,
}

/// Minimal agent info for handshake
#[derive(Debug)]
pub struct AgentInfoMinimal {
    pub agent_id: String,
    pub agent_name: String,
    pub capabilities: Vec<String>,
}

/// Protocol versions 1.x are supported.
pub open spec fn supported_version(version: Seq<char>) -> bool {
    starts_with_seq(version, "1."@)
}

/// The reason given for refusing a hello with an unsupported version.
pub open spec fn unsupported_version_message(version: Seq<char>) -> Seq<char> {
    "Unsupported protocol version: "@ + version
}

/// The state after receiving a hello with protocol version `version`.
pub open spec fn after_hello(s: HandshakeState, version: Seq<char>) -> HandshakeState {
    match s {
        HandshakeState::Init => if supported_version(version) {
            HandshakeState::ChallengeSent
        } else {
            HandshakeState::Failed(arbitrary())
        },
        _ => s,
    }
}

/// The state after receiving a response naming challenge `given` when
/// `expected` was issued.
pub open spec fn after_response(
    s: HandshakeState,
    given: Seq<char>,
    expected: Seq<char>,
) -> HandshakeState {
    match s {
        HandshakeState::ChallengeSent => if given == expected {
            HandshakeState::Authenticated
        } else {
            HandshakeState::Failed(arbitrary())
        },
        _ => s,
    }
}

/// Both states are `Failed` (whatever the reasons), or they are the same
/// state.
pub open spec fn same_phase(a: HandshakeState, b: HandshakeState) -> bool {
    (a is Failed && b is Failed) || a == b
}

/// The authentication method that a hello asks for.
pub open spec fn requested_auth(hello: ClientHello) -> AuthMethod {
    if hello.auth_token is Some {
        AuthMethod::Token
    } else {
        AuthMethod::ChallengeResponse
    }
}

impl HandshakeState {
    /// Create a new initial handshake state
    pub fn new() -> (r: Self)
        ensures
            r == HandshakeState::Init,
    {
        Self::Init
    }

    /// Process client hello and transition state
    ///
    /// From `Init` only: a hello with a 1.x version gets a challenge whose
    /// identifier and nonce are fresh identifiers in text form, asking for
    /// token authentication if the hello carries a token; any other version
    /// fails the handshake. From any other state the hello is refused and
    /// the state stays as it was.
    pub fn receive_hello(&mut self, hello: &ClientHello) -> (r: Result<ServerChallenge, String>)
        ensures
            same_phase(*final(self), after_hello(*old(self), hello.version@)),
            *old(self) is Init && supported_version(hello.version@) ==> {
                &&& r matches Ok(ch) && {
                    &&& same_auth_method(ch.auth_method, requested_auth(*hello))
                    &&& exists|a: u128| ch.challenge_id@ == uuid_text(a)
                    &&& exists|b: u128| ch.nonce@ == uuid_text(b)
                    &&& ch.challenge_id@.len() == 36
                    &&& ch.nonce@.len() == 36
                }
            },
            *old(self) is Init && !supported_version(hello.version@) ==> {
                &&& r matches Err(e) && e@ == unsupported_version_message(hello.version@)
                &&& *final(self) matches HandshakeState::Failed(m) && m@
                    == unsupported_version_message(hello.version@)
            },
            !(*old(self) is Init) ==> {
                &&& r matches Err(e) && e@ == "Invalid handshake state"@
                &&& *final(self) == *old(self)
            },
    {
        match self {
            HandshakeState::Init => {
                // Validate protocol version
                if !Self::is_supported_version(hello.version.as_str()) {
                    let mut reason = string_of("Unsupported protocol version: ");
                    reason.append(hello.version.as_str());
                    *self = HandshakeState::Failed(reason.clone());
                    return Err(reason);
                }
                // Generate challenge
                let challenge_id = new_id_string();
                let nonce = new_id_string();
                let auth_method = if hello.auth_token.is_some() {
                    AuthMethod::Token
                } else {
                    AuthMethod::ChallengeResponse
                };
                let challenge = ServerChallenge { challenge_id, nonce, auth_method };
                *self = HandshakeState::ChallengeSent;
                Ok(challenge)
            },
            _ => Err(string_of("Invalid handshake state")),
        }
    }

    /// Process client response and transition state
    ///
    /// From `ChallengeSent` only: a response naming the expected challenge
    /// authenticates the handshake and returns a fresh session token; any
    /// other challenge identifier fails the handshake, which is reported in
    /// the result rather than as an error. From any other state the
    /// response is refused and the state stays as it was.
    pub fn receive_response(
        &mut self,
        response: &ClientResponse,
        expected_challenge_id: &str,
    ) -> (r: Result<HandshakeResult, String>)
        ensures
            same_phase(
                *final(self),
                after_response(*old(self), response.challenge_id@, expected_challenge_id@),
            ),
            *old(self) is ChallengeSent && response.challenge_id@ == expected_challenge_id@ ==> {
                r matches Ok(res) && {
                    &&& res.success
                    &&& res.session_token matches Some(t) && exists|a: u128| t@ == uuid_text(a)
                    &&& res.error is None
                    &&& res.agent_info is None
                }
            },
            *old(self) is ChallengeSent && response.challenge_id@ != expected_challenge_id@ ==> {
                &&& r matches Ok(res) && {
                    &&& !res.success
                    &&& res.session_token is None
                    &&& res.error matches Some(e) && e@ == "Challenge ID mismatch"@
                    &&& res.agent_info is None
                }
                &&& *final(self) matches HandshakeState::Failed(m) && m@ == "Challenge ID mismatch"@
            },
            !(*old(self) is ChallengeSent) ==> {
                &&& r matches Err(e) && e@ == "Invalid handshake state"@
                &&& *final(self) == *old(self)
            },
    {
        match self {
            HandshakeState::ChallengeSent => {
                *self = HandshakeState::Verifying;
                // Verify challenge ID matches
                if !str_eq(response.challenge_id.as_str(), expected_challenge_id) {
                    *self = HandshakeState::Failed(string_of("Challenge ID mismatch"));
                    return Ok(
                        HandshakeResult {
                            success: false,
                            session_token: None,
                            error: Some(string_of("Challenge ID mismatch")),
                            agent_info: None,
                        },
                    );
                }
                // The response data is accepted as it is.
                let session_token = new_id_string();
                *self = HandshakeState::Authenticated;
                Ok(
                    HandshakeResult {
                        success: true,
                        session_token: Some(session_token),
                        error: None,
                        agent_info: None,
                    },
                )
            },
            _ => Err(string_of("Invalid handshake state")),
        }
    }

    /// Check if handshake is complete
    pub fn is_authenticated(&self) -> (r: bool)
        ensures
            r == (*self is Authenticated),
    {
        match self {
            HandshakeState::Authenticated => true,
            _ => false,
        }
    }

    /// Check if handshake has failed
    pub fn is_failed(&self) -> (r: bool)
        ensures
            r == (*self is Failed),
    {
        match self {
            HandshakeState::Failed(_) => true,
            _ => false,
        }
    }

    /// Get supported protocol versions
    pub fn is_supported_version(version: &str) -> (r: bool)
        ensures
            r == supported_version(version@),
    {
        str_starts_with(version, "1.")
    }
}

impl Default for HandshakeState {
    fn default() -> (r: Self)
        ensures
            r == HandshakeState::Init,
    {
        Self::new()
    }
}

/// A fresh nonce: an identifier in text form.
pub fn generate_nonce() -> (r: String)
    ensures
        exists|a: u128| r@ == uuid_text(a),
        r@.len() == 36,
{
    new_id_string()
}

/// An agent identifier is valid when it is non-empty and at most 256
/// characters long.
pub fn validate_agent_id(agent_id: &str) -> (r: bool)
    ensures
        r == (agent_id@.len() > 0 && agent_id@.len() <= 256),
{
    let cs = chars_of(agent_id);
    cs.len() > 0 && cs.len() <= 256
}

/// The characters that `sanitize_agent_name` keeps.
pub open spec fn name_char_allowed(c: char) -> bool {
    unicode_alphanumeric(c) || is_unicode_whitespace(c) || c == '-' || c == '_'
}

/// The longest name that `sanitize_agent_name` returns, in characters.
pub open spec fn max_name_chars() -> nat {
    128
}

/// The sanitized form of `name`: its allowed characters, in order, cut to
/// the first 128.
pub open spec fn sanitized_name(name: Seq<char>) -> Seq<char> {
    let kept = name.filter(|c: char| name_char_allowed(c));
    if kept.len() <= max_name_chars() {
        kept
    } else {
        kept.take(max_name_chars() as int)
    }
}

/// Remove potentially dangerous characters: keep letters, digits,
/// whitespace, `-` and `_`, at most 128 of them.
pub fn sanitize_agent_name(name: &str) -> (r: String)
    ensures
        r@ == sanitized_name(name@),
{
    let cs = chars_of(name);
    let ghost pred = |c: char| name_char_allowed(c);
    let mut out = String::new();
    let mut count: usize = 0;
    let mut i: usize = 0;
    while i < cs.len()
        invariant
            cs@ == name@,
            i <= cs@.len(),
            pred == (|c: char| name_char_allowed(c)),
            count == out@.len(),
            count <= 128,
            name@.take(i as int).filter(pred).len() <= 128 ==> out@ == name@.take(i as int).filter(pred),
            name@.take(i as int).filter(pred).len() > 128 ==> out@ == name@.take(i as int).filter(pred).take(128),
        decreases cs@.len() - i,
    {
        proof {
            reveal_with_fuel(Seq::filter, 1);
            assert(name@.take(i + 1).drop_last() =~= name@.take(i as int));
        }
        let c = cs[i];
        let allowed = char_is_alphanumeric(c) || char_is_whitespace(c) || c == '-' || c == '_';
        if allowed {
            if count < 128 {
                push_char(&mut out, c);
                count = count + 1;
            }
            proof {
                let f = name@.take(i as int).filter(pred);
                let g = name@.take(i + 1).filter(pred);
                assert(g == f.push(c));
                if g.len() > 128 {
                    if f.len() > 128 {
                        assert(g.take(128) =~= f.take(128));
                    } else {
                        assert(f.len() == 128);
                        assert(g.take(128) =~= f);
                    }
                }
            }
        }
        i = i + 1;
    }
    assert(name@.take(cs@.len() as int) =~= name@);
    out
}

/// The handshake reaches `Authenticated` from the initial state by a hello
/// and a response exactly when the hello's version is 1.x and the response
/// names the challenge that was issued.
pub proof fn lemma_handshake_authenticates(
    version: Seq<char>,
    given: Seq<char>,
    expected: Seq<char>,
)
    ensures
        after_response(after_hello(HandshakeState::Init, version), given, expected) is Authenticated
            <==> (supported_version(version) && given == expected),
{
}

/// A failed handshake stays failed and an authenticated one stays
/// authenticated, whatever is received.
pub proof fn lemma_handshake_final_states(
    s: HandshakeState,
    version: Seq<char>,
    given: Seq<char>,
    expected: Seq<char>,
)
    requires
        s is Failed || s is Authenticated,
    ensures
        after_hello(s, version) == s,
        after_response(s, given, expected) == s,
{
}

/// Sanitizing a sanitized name changes nothing.
pub proof fn lemma_sanitize_idempotent(name: Seq<char>)
    ensures
        sanitized_name(sanitized_name(name)) == sanitized_name(name),
{
    broadcast use vstd::seq_lib::group_filter_ensures;

    let pred = |c: char| name_char_allowed(c);
    let kept = name.filter(pred);
    let once = sanitized_name(name);
    assert forall|i: int| 0 <= i < once.len() implies pred(#[trigger] once[i]) by {
        name.lemma_filter_pred(pred, i);
    }
    lemma_filter_all(once, pred);
}

} // verus!

//! MCP Server
//!
//! The state of the server and the decisions that it makes for each
//! connection: the handshake phase, the routing of requests to their
//! handlers, and what each handler answers. Accepting sockets, reading and
//! writing frames and turning values into JSON happen around it.

use vstd::prelude::*;
use crate::document_storage::metadata::DocumentMetadata;
use crate::document_storage::storage::{
    active_doc, meta_view, query_matcher, versions_numbered, DocumentStorage,
};
use crate::message_router::channel::open_to;
use crate::message_router::queue::{ChatMessage, ChatMessageView, MessagePriority};
use crate::message_router::router::{router_error_text, MessageRouter, RouterError};
use crate::permission::storage::PermissionStorage;
use crate::utils::ids::{id_to_string, now_micros, uuid_text};
use crate::utils::keyed::{key_pos, lemma_to_map_len};
use crate::utils::text::{debug_text, str_debug, string_of, unicode_lowercase};
use super::handshake::{
    requested_auth, same_auth_method, supported_version, unsupported_version_message, ClientHello,
    ClientResponse, HandshakeState, ServerChallenge,
};
use super::protocol::{McpError, McpMessage, McpMethod, McpPayload, McpRequest};
use super::session::{session_key, session_val, Session, SessionManager, SessionState, SessionView};

verus! {

/// MCP Server configuration
#[derive(Debug)]
pub struct ServerConfig {
    /// Host address to bind to
    pub host: String,
    /// Port to listen on
    pub port: u16,
    /// Maximum number of concurrent connections
    pub max_connections: usize,
    /// Session timeout in seconds
    pub session_timeout_seconds: i64,
    /// Enable authentication
    pub require_auth: bool,
}

impl Clone for ServerConfig {
    fn clone(&self) -> (r: Self)
        ensures
            r.host@ == self.host@,
            r.port == self.port,
            r.max_connections == self.max_connections,
            r.session_timeout_seconds == self.session_timeout_seconds,
            r.require_auth == self.require_auth,
    {
        ServerConfig {
            host: self.host.clone(),
            port: self.port,
            max_connections: self.max_connections,
            session_timeout_seconds: self.session_timeout_seconds,
            require_auth: self.require_auth,
        }
    }
}

impl Default for ServerConfig {
    /// Local host, port 8080, at most 100 connections, sessions time out
    /// after an hour, no authentication.
    fn default() -> (r: Self)
        ensures
            r.host@ == "127.0.0.1"@,
            r.port == 8080,
            r.max_connections == 100,
            r.session_timeout_seconds == 3600,
            !r.require_auth,
    {
        ServerConfig {
            host: string_of("127.0.0.1"),
            port: 8080,
            max_connections: 100,
            session_timeout_seconds: 3600,
            require_auth: false,
        }
    }
}

/// The parameters of a request, as read from its JSON `params`: each is
/// `None` where the field is absent or does not have the expected form.
#[derive(Debug)]
pub struct RequestParams {
    /// `channelId`, an identifier
    pub channel_id: Option<u128>,
    /// `content`
    pub content: Option<String>,
    /// `priority`
    pub priority: Option<MessagePriority>,
    /// `scope`
    pub scope: Option<String>,
    /// `summary`
    pub summary: Option<String>,
    /// `messageId`
    pub message_id: Option<String>,
    /// `voteType`
    pub vote_type: Option<String>,
    /// `documentId`, an identifier
    pub document_id: Option<u128>,
    /// `query`
    pub query: Option<String>,
}

/// What a request that succeeded answers.
#[derive(Debug)]
pub enum Outcome {
    /// The handshake challenge, and whether the client must still
    /// authenticate.
    Challenge { challenge: ServerChallenge, auth_required: bool },
    /// The client answered the challenge; the session token.
    Authenticated { session_token: String },
    /// A chat message was sent.
    MessageSent { message_id: u128, timestamp: i64 },
    /// A permission request awaits the user's decision.
    PermissionPending { agent_id: String, scope: String },
    /// Work was submitted for review.
    Submitted,
    /// A vote was recorded.
    VoteRecorded { voted_message: String, vote_type: String, voter_id: String },
    /// A document's metadata and its latest content.
    Document { metadata: DocumentMetadata, content: String, version: u32 },
    /// A list of documents.
    Documents { documents: Vec<DocumentMetadata> },
    /// The answer to a heartbeat.
    Pong { timestamp: i64 },
}

/// A reply to send back on the connection.
#[derive(Debug)]
pub enum Reply {
    /// A response carrying a result.
    Result { request_id: String, outcome: Outcome },
    /// A response carrying an error.
    Error { request_id: String, code: i32, message: String },
}

/// What came in on a connection.
#[derive(Debug)]
pub enum Inbound {
    /// A text frame that is not an MCP message; the parser's explanation.
    Unparsable(String),
    /// An MCP message, with its parameters, and the client hello and the
    /// client's answer to a challenge read from them (or why they are not
    /// one).
    Message {
        message: McpMessage,
        params: RequestParams,
        hello: Result<ClientHello, String>,
        response: Result<ClientResponse, String>,
    },
    /// A ping frame; the text that answers it.
    Ping(String),
    /// The client closed the connection.
    Closed,
    /// The transport failed.
    Failed(String),
    /// Any other frame.
    Other,
}

/// What a connection does next.
#[derive(Debug)]
pub enum Step {
    /// Send the reply and go on.
    Send(Reply),
    /// Send the text as it is and go on.
    SendText(String),
    /// Send the reply, then end the connection with the error.
    SendThenFail(Reply, String),
    /// End the connection with the error.
    Fail(String),
    /// End the connection normally.
    Stop,
    /// Go on.
    Continue,
}

/// The handshake phase of one connection.
#[derive(Debug)]
pub struct Connection {
    /// Where the handshake stands
    pub handshake: HandshakeState,
    /// The challenge issued to the client, once there is one
    pub challenge_id: Option<String>,
    /// Whether clients must authenticate
    pub require_auth: bool,
}

impl Connection {
    /// A connection that has not started its handshake.
    pub fn new(require_auth: bool) -> (r: Self)
        ensures
            r.handshake == HandshakeState::Init,
            r.challenge_id is None,
            r.require_auth == require_auth,
    {
        Connection { handshake: HandshakeState::new(), challenge_id: None, require_auth }
    }
}

/// The identifier a reply to this request carries: its request
/// identifier, or the empty text.
pub open spec fn reply_id(req: McpRequest) -> Seq<char> {
    match req.request_id {
        Some(s) => s@,
        None => Seq::empty(),
    }
}

/// A reply carrying this error.
pub open spec fn is_error_reply(r: Reply, request_id: Seq<char>, code: i32, message: Seq<char>) -> bool {
    r matches Reply::Error { request_id: id, code: c, message: m } && id@ == request_id && c == code
        && m@ == message
}

/// The agent of the session with this identifier, if there is one.
pub open spec fn agent_of(sessions: Map<Seq<char>, SessionView>, session_id: Seq<char>) -> Option<
    Seq<char>,
> {
    if sessions.contains_key(session_id) {
        match sessions[session_id].agent {
            Some(a) => Some(a.id),
            None => None,
        }
    } else {
        None
    }
}

/// The chat message with which an agent submits work.
pub open spec fn submission_text(agent: Seq<char>, summary: Seq<char>) -> Seq<char> {
    "\u{1F4CB} Submission from "@ + agent + ": "@ + summary
}

/// The name under which `{:?}` shows a method.
pub open spec fn method_debug(m: McpMethod) -> Seq<char> {
    match m {
        McpMethod::Initialize => "Initialize"@,
        McpMethod::SendMessage => "SendMessage"@,
        McpMethod::RequestPermission => "RequestPermission"@,
        McpMethod::Submit => "Submit"@,
        McpMethod::Vote => "Vote"@,
        McpMethod::RequestCounterProposal => "RequestCounterProposal"@,
        McpMethod::StateVoteReason => "StateVoteReason"@,
        McpMethod::OpenPrivateChannel => "OpenPrivateChannel"@,
        McpMethod::ClosePrivateChannel => "ClosePrivateChannel"@,
        McpMethod::GetDocument => "GetDocument"@,
        McpMethod::ListDocuments => "ListDocuments"@,
        McpMethod::Ping => "Ping"@,
        McpMethod::Custom(s) => "Custom("@ + str_debug(s@) + ")"@,
    }
}

/// How sending `content` from `sender` to `channel` with `priority`
/// changed the router, given what the send answered: a message, or the
/// text of its error.
pub open spec fn routed(
    before: MessageRouter,
    after: MessageRouter,
    sender: Seq<char>,
    channel: u128,
    content: Seq<char>,
    priority: MessagePriority,
    r: Result<ChatMessageView, Seq<char>>,
) -> bool {
    &&& after.wf()
    &&& after.channel_views() == before.channel_views()
    &&& after.private_index() == before.private_index()
    &&& after.handled() == before.handled()
    &&& after.queue_capacity() == before.queue_capacity()
    &&& !before.channels().contains_key(channel) ==> r == Err::<ChatMessageView, Seq<char>>(
        "Channel not found"@,
    )
    &&& before.channels().contains_key(channel) && !open_to(before.channels()[channel], sender)
        ==> r == Err::<ChatMessageView, Seq<char>>("Agent not authorized"@)
    &&& before.channels().contains_key(channel) && open_to(before.channels()[channel], sender)
        && !before.handled().contains(channel) && before.queued().len() < before.queue_capacity()
        ==> r is Ok
    &&& r is Err ==> after.queued() == before.queued()
    &&& r is Err ==> after.broadcast_history() == before.broadcast_history()
    &&& r matches Ok(m) ==> after.broadcast_history() == before.broadcast_history().push(m)
    &&& r matches Ok(m) ==> {
        &&& m.sender_id == sender
        &&& m.channel_id == channel
        &&& m.content == content
        &&& m.document_ref is None
        &&& m.votes == (0u32, 0u32)
        &&& m.voters == Seq::<Seq<char>>::empty()
        &&& after.queued().drop_last() == before.queued()
        &&& after.queued().len() == before.queued().len() + 1
        &&& after.queued().last().message == m
        &&& after.queued().last().priority == priority
        &&& after.queued().last().retry_count == 0
    }
}

/// The given priority, or `Normal` when none is given.
pub open spec fn priority_or_normal(p: Option<MessagePriority>) -> MessagePriority {
    match p {
        Some(x) => x,
        None => MessagePriority::Normal,
    }
}

/// What a message send answered, by value.
pub open spec fn sent_view(r: Result<ChatMessage, String>) -> Result<ChatMessageView, Seq<char>> {
    match r {
        Ok(m) => Ok(m@),
        Err(e) => Err(e@),
    }
}

/// An error answer with this text.
pub open spec fn fails_with<T>(r: Result<T, String>, message: Seq<char>) -> bool {
    r matches Err(e) && e@ == message
}

/// What an authenticated request is answered, for the agent of its
/// session, with the router before and after and the documents.
///
/// Each handler checks its inputs in order (the agent, then each parameter
/// it needs) and refuses with an error text at the first one missing. A
/// message send that the router refuses is refused with the router's
/// error text; the send of a submission may fail without changing the
/// answer. Methods without a handler are answered with a
/// method-not-found error.
pub open spec fn answers(
    agent: Option<Seq<char>>,
    rb: MessageRouter,
    ra: MessageRouter,
    docs: DocumentStorage,
    req: McpRequest,
    p: RequestParams,
    now: i64,
    r: Result<Reply, String>,
) -> bool {
    let rid = reply_id(req);
    match req.method {
        McpMethod::SendMessage => if agent is None {
            fails_with(r, "Agent not registered"@) && ra == rb
        } else if p.channel_id is None {
            fails_with(r, "Missing channelId"@) && ra == rb
        } else if p.content is None {
            fails_with(r, "Missing content"@) && ra == rb
        } else {
            exists|sent: Result<ChatMessageView, Seq<char>>|
                {
                    &&& #[trigger] routed(
                        rb,
                        ra,
                        agent->0,
                        p.channel_id->0,
                        (p.content->0)@,
                        priority_or_normal(p.priority),
                        sent,
                    )
                    &&& match sent {
                        Ok(m) => r matches Ok(
                            Reply::Result {
                                request_id,
                                outcome: Outcome::MessageSent { message_id, timestamp },
                            },
                        ) && request_id@ == rid && message_id == m.id && timestamp == m.timestamp,
                        Err(e) => fails_with(r, e),
                    }
                }
        },
        McpMethod::RequestPermission => ra == rb && (if agent is None {
            fails_with(r, "Agent not registered"@)
        } else if p.scope is None {
            fails_with(r, "Missing scope"@)
        } else {
            r matches Ok(
                Reply::Result { request_id, outcome: Outcome::PermissionPending { agent_id, scope } },
            ) && request_id@ == rid && agent_id@ == agent->0 && scope@ == (p.scope->0)@
        }),
        McpMethod::Submit => if agent is None {
            fails_with(r, "Agent not registered"@) && ra == rb
        } else if p.channel_id is None {
            fails_with(r, "Missing channelId"@) && ra == rb
        } else if p.summary is None {
            fails_with(r, "Missing summary"@) && ra == rb
        } else {
            &&& exists|sent: Result<ChatMessageView, Seq<char>>|
                #[trigger] routed(
                    rb,
                    ra,
                    agent->0,
                    p.channel_id->0,
                    submission_text(agent->0, (p.summary->0)@),
                    MessagePriority::Normal,
                    sent,
                )
            &&& r matches Ok(Reply::Result { request_id, outcome: Outcome::Submitted })
            &&& request_id@ == rid
        },
        McpMethod::Vote => ra == rb && (if agent is None {
            fails_with(r, "Agent not registered"@)
        } else if p.message_id is None {
            fails_with(r, "Missing messageId"@)
        } else if p.vote_type is None {
            fails_with(r, "Missing voteType"@)
        } else {
            r matches Ok(
                Reply::Result {
                    request_id,
                    outcome: Outcome::VoteRecorded { voted_message, vote_type, voter_id },
                },
            ) && request_id@ == rid && voted_message@ == (p.message_id->0)@ && vote_type@ == (
            p.vote_type->0)@ && voter_id@ == agent->0
        }),
        McpMethod::GetDocument => ra == rb && (if p.document_id is None {
            fails_with(r, "Missing documentId"@)
        } else {
            let id = p.document_id->0;
            if !docs.documents().contains_key(id) {
                fails_with(r, "Document "@ + uuid_text(id) + " not found"@)
            } else {
                let n = docs.documents()[id].current_version;
                if docs.versions().contains_key(id) && n <= docs.versions()[id].len() {
                    let v = docs.versions()[id][n - 1];
                    r matches Ok(
                        Reply::Result {
                            request_id,
                            outcome: Outcome::Document { metadata, content, version },
                        },
                    ) && request_id@ == rid && metadata@ == docs.documents()[id] && content@
                        == v.content@ && version == v.info.version_number
                } else {
                    fails_with(r, "No versions found for document "@ + uuid_text(id))
                }
            }
        }),
        McpMethod::ListDocuments => {
            &&& ra == rb
            &&& (r matches Ok(Reply::Result { request_id, outcome: Outcome::Documents { documents } })
                && request_id@ == rid && documents@.map_values(meta_view()) == match p.query {
                Some(q) => docs.doc_views().filter(query_matcher(unicode_lowercase(q@))),
                None => docs.doc_views().filter(active_doc()),
            })
        },
        McpMethod::Ping => {
            &&& ra == rb
            &&& (r matches Ok(Reply::Result { request_id, outcome: Outcome::Pong { timestamp } })
                && request_id@ == rid && timestamp == now)
        },
        _ => {
            &&& ra == rb
            &&& (r matches Ok(rep) && is_error_reply(
                rep,
                rid,
                McpError::METHOD_NOT_FOUND,
                "Method "@ + method_debug(req.method) + " not implemented"@,
            ))
        },
    }
}

/// The sessions are the same but for the last activity of this one, which
/// is `now`.
pub open spec fn touched(
    before: Map<Seq<char>, SessionView>,
    after: Map<Seq<char>, SessionView>,
    session_id: Seq<char>,
    now: i64,
) -> bool {
    if before.contains_key(session_id) {
        after == before.insert(session_id, SessionView { last_activity: now, ..before[session_id] })
    } else {
        after == before
    }
}

/// The challenge a connection expects to be answered: the one it issued,
/// or the empty text if it issued none.
pub open spec fn expected_challenge(c: Connection) -> Seq<char> {
    match c.challenge_id {
        Some(id) => id@,
        None => Seq::empty(),
    }
}

/// Whether the client of this hello still has to answer the challenge:
/// authentication is required and the hello carries no token.
pub open spec fn must_answer(c: Connection, h: ClientHello) -> bool {
    c.require_auth && h.auth_token is None
}

/// What the connection does with a message while its handshake is not
/// complete, with the connection before and after.
///
/// Only `initialize` requests take part; any other request is told to
/// initialize first, and responses are ignored. The first `initialize`
/// carries the client's hello: with a hello that cannot be read the
/// connection fails; a refused hello is answered with the refusal before
/// the connection fails; an accepted one is answered with the challenge
/// (which the connection keeps), and the connection is authenticated at
/// once unless the client still has to answer the challenge. While the
/// challenge is pending, an `initialize` request carries the client's
/// answer: naming the issued challenge authenticates the connection and is
/// answered with a session token; naming another fails the handshake.
pub open spec fn handshake_step(
    cb: Connection,
    ca: Connection,
    message: McpMessage,
    hello: Result<ClientHello, String>,
    response: Result<ClientResponse, String>,
    r: Step,
) -> bool {
    &&& ca.require_auth == cb.require_auth
    &&& match message.payload {
        McpPayload::Request(req) => if !(req.method is Initialize) {
            &&& ca == cb
            &&& r matches Step::Send(rep) && is_error_reply(
                rep,
                message.id@,
                McpError::INVALID_REQUEST,
                "Must initialize connection first"@,
            )
        } else if cb.handshake is ChallengeSent {
            match response {
                Err(e) => {
                    &&& ca == cb
                    &&& r matches Step::Fail(x) && x@ == "Invalid challenge response: "@ + e@
                },
                Ok(resp) => if resp.challenge_id@ == expected_challenge(cb) {
                    &&& ca.handshake == HandshakeState::Authenticated
                    &&& ca.challenge_id == cb.challenge_id
                    &&& r matches Step::Send(
                        Reply::Result { request_id, outcome: Outcome::Authenticated { session_token } },
                    )
                    &&& request_id@ == reply_id(req)
                    &&& exists|a: u128| session_token@ == uuid_text(a)
                } else {
                    &&& ca.handshake matches HandshakeState::Failed(m) && m@ == "Challenge ID mismatch"@
                    &&& ca.challenge_id == cb.challenge_id
                    &&& r matches Step::SendThenFail(rep, x) && is_error_reply(
                        rep,
                        reply_id(req),
                        McpError::INVALID_REQUEST,
                        "Challenge ID mismatch"@,
                    ) && x@ == "Handshake failed"@
                },
            }
        } else {
            match hello {
                Err(e) => {
                    &&& ca == cb
                    &&& r matches Step::Fail(x) && x@ == "Invalid hello: "@ + e@
                },
                Ok(h) => if cb.handshake is Init && supported_version(h.version@) {
                    &&& ca.handshake == if must_answer(cb, h) {
                        HandshakeState::ChallengeSent
                    } else {
                        HandshakeState::Authenticated
                    }
                    &&& r matches Step::Send(
                        Reply::Result {
                            request_id,
                            outcome: Outcome::Challenge { challenge, auth_required },
                        },
                    )
                    &&& request_id@ == reply_id(req)
                    &&& auth_required == must_answer(cb, h)
                    &&& same_auth_method(challenge.auth_method, requested_auth(h))
                    &&& exists|a: u128| challenge.challenge_id@ == uuid_text(a)
                    &&& exists|b: u128| challenge.nonce@ == uuid_text(b)
                    &&& ca.challenge_id matches Some(c) && c@ == challenge.challenge_id@
                } else if cb.handshake is Init {
                    &&& ca.handshake matches HandshakeState::Failed(m) && m@
                        == unsupported_version_message(h.version@)
                    &&& ca.challenge_id == cb.challenge_id
                    &&& r matches Step::SendThenFail(rep, x) && is_error_reply(
                        rep,
                        reply_id(req),
                        McpError::INVALID_REQUEST,
                        unsupported_version_message(h.version@),
                    ) && x@ == "Handshake failed"@
                } else {
                    &&& ca == cb
                    &&& r matches Step::SendThenFail(rep, x) && is_error_reply(
                        rep,
                        reply_id(req),
                        McpError::INVALID_REQUEST,
                        "Invalid handshake state"@,
                    ) && x@ == "Handshake failed"@
                },
            }
        },
        McpPayload::Response(_) => ca == cb && r is Continue,
    }
}

/// Main MCP Server instance
pub struct McpServer {
    config: ServerConfig,
    session_manager: SessionManager,
    permission_storage: PermissionStorage,
    message_router: MessageRouter,
    document_storage: DocumentStorage,
    is_running: bool,
}

impl McpServer {
    /// The configuration.
    pub closed spec fn config(&self) -> ServerConfig {
        self.config
    }

    /// The sessions.
    pub closed spec fn sessions(&self) -> SessionManager {
        self.session_manager
    }

    /// The permissions.
    pub closed spec fn permissions(&self) -> PermissionStorage {
        self.permission_storage
    }

    /// The router.
    pub closed spec fn router(&self) -> MessageRouter {
        self.message_router
    }

    /// The documents.
    pub closed spec fn documents(&self) -> DocumentStorage {
        self.document_storage
    }

    /// Whether the server is accepting connections.
    pub closed spec fn running(&self) -> bool {
        self.is_running
    }

    /// Well-formedness: each part is well formed, and there are no more
    /// sessions than the configured maximum of connections.
    pub open spec fn wf(&self) -> bool {
        &&& self.sessions().session_views().len() <= self.config().max_connections
        &&& self.sessions().wf()
        &&& self.permissions().wf()
        &&& self.router().wf()
        &&& self.documents().wf()
    }

    /// Create a new MCP server instance
    ///
    /// With no sessions, not yet running.
    pub fn new(
        config: ServerConfig,
        permission_storage: PermissionStorage,
        message_router: MessageRouter,
        document_storage: DocumentStorage,
    ) -> (r: Self)
        requires
            permission_storage.wf(),
            message_router.wf(),
            document_storage.wf(),
        ensures
            r.wf(),
            r.config() == config,
            r.sessions().session_views() == Seq::<SessionView>::empty(),
            r.permissions() == permission_storage,
            r.router() == message_router,
            r.documents() == document_storage,
            !r.running(),
    {
        McpServer {
            config,
            session_manager: SessionManager::new(),
            permission_storage,
            message_router,
            document_storage,
            is_running: false,
        }
    }

    /// Check if server is running
    pub fn is_running(&self) -> (r: bool)
        ensures
            r == self.running(),
    {
        self.is_running
    }

    /// Records that the server started or stopped accepting connections.
    pub fn set_running(&mut self, running: bool)
        ensures
            final(self).running() == running,
            final(self).config() == old(self).config(),
            final(self).sessions() == old(self).sessions(),
            final(self).permissions() == old(self).permissions(),
            final(self).router() == old(self).router(),
            final(self).documents() == old(self).documents(),
    {
        self.is_running = running;
    }

    /// Get active session count
    pub fn session_count(&self) -> (r: usize)
        requires
            self.wf(),
        ensures
            r == self.sessions().session_views().len(),
            r == self.sessions().sessions().len(),
    {
        self.session_manager.count()
    }

    /// Whether one more connection may be accepted: fewer sessions than the
    /// configured maximum.
    pub fn admits_connection(&self) -> (r: bool)
        requires
            self.wf(),
        ensures
            r == (self.sessions().session_views().len() < self.config().max_connections),
    {
        self.session_manager.count() < self.config.max_connections
    }

    /// Opens a session for a new connection and returns its identifier.
    ///
    /// There must be room for it: fewer sessions than the configured
    /// maximum (`try_open_session` checks this first).
    pub fn open_session(&mut self) -> (r: String)
        requires
            old(self).wf(),
            old(self).sessions().session_views().len() < old(self).config().max_connections,
        ensures
            final(self).wf(),
            final(self).sessions().sessions().contains_key(r@),
            final(self).sessions().sessions()[r@].agent is None,
            final(self).sessions().sessions()[r@].state == SessionState::Handshaking,
            final(self).sessions().sessions() == old(self).sessions().sessions().insert(
                r@,
                final(self).sessions().sessions()[r@],
            ),
            exists|a: u128| r@ == uuid_text(a),
            final(self).sessions().session_views().len() <= old(self).sessions().session_views().len()
                + 1,
            final(self).config() == old(self).config(),
            final(self).permissions() == old(self).permissions(),
            final(self).router() == old(self).router(),
            final(self).documents() == old(self).documents(),
            final(self).running() == old(self).running(),
    {
        let session = Session::new();
        self.session_manager.add_session(session)
    }

    /// Admits a new connection: opens its session and returns its
    /// identifier if there are fewer sessions than the configured maximum,
    /// and otherwise changes nothing. So the number of sessions never
    /// grows beyond the maximum.
    pub fn try_open_session(&mut self) -> (r: Option<String>)
        requires
            old(self).wf(),
        ensures
            final(self).wf(),
            old(self).sessions().session_views().len() < old(self).config().max_connections
                <==> r is Some,
            r matches Some(id) ==> {
                &&& final(self).sessions().sessions().contains_key(id@)
                &&& final(self).sessions().sessions()[id@].agent is None
                &&& final(self).sessions().sessions()[id@].state == SessionState::Handshaking
                &&& final(self).sessions().sessions() == old(self).sessions().sessions().insert(
                    id@,
                    final(self).sessions().sessions()[id@],
                )
            },
            r is None ==> final(self).sessions() == old(self).sessions(),
            final(self).config() == old(self).config(),
            final(self).permissions() == old(self).permissions(),
            final(self).router() == old(self).router(),
            final(self).documents() == old(self).documents(),
            final(self).running() == old(self).running(),
    {
        if self.admits_connection() {
            Some(self.open_session())
        } else {
            None
        }
    }

    /// Closes the session of a connection that ended.
    pub fn close_session(&mut self, session_id: &str)
        requires
            old(self).wf(),
        ensures
            final(self).wf(),
            final(self).sessions().sessions() == old(self).sessions().sessions().remove(session_id@),
            final(self).config() == old(self).config(),
            final(self).permissions() == old(self).permissions(),
            final(self).router() == old(self).router(),
            final(self).documents() == old(self).documents(),
            final(self).running() == old(self).running(),
    {
        let _ = self.session_manager.remove_session(session_id);
    }

    /// The sessions that a broadcast reaches: the active ones, in the order
    /// of their creation, by identifier.
    pub fn broadcast_targets(&self) -> (r: Vec<String>)
        requires
            self.wf(),
        ensures
            r@.map_values(|s: String| s@) == self.sessions().session_views().filter(
                |s: SessionView| s.state == SessionState::Active,
            ).map_values(|s: SessionView| s.id),
    {
        let sessions = self.session_manager.get_all_sessions();
        let ghost all = self.sessions().session_views();
        let ghost pred = |s: SessionView| s.state == SessionState::Active;
        let ghost id_of = |s: SessionView| s.id;
        let mut out: Vec<String> = Vec::new();
        let mut i: usize = 0;
        while i < sessions.len()
            invariant
                sessions@.map_values(super::session::session_view()) == all,
                i <= sessions@.len(),
                out@.map_values(|s: String| s@) == all.take(i as int).filter(pred).map_values(id_of),
                pred == (|s: SessionView| s.state == SessionState::Active),
                id_of == (|s: SessionView| s.id),
            decreases sessions@.len() - i,
        {
            proof {
                reveal_with_fuel(Seq::filter, 1);
                assert(all.take(i + 1).drop_last() =~= all.take(i as int));
                assert(all[i as int] == sessions@[i as int]@);
            }
            if sessions[i].is_active() {
                let ghost o0 = out@;
                out.push(sessions[i].id.clone());
                assert(out@.map_values(|s: String| s@) =~= o0.map_values(|s: String| s@).push(
                    all[i as int].id,
                ));
                assert(all.take(i + 1).filter(pred).map_values(id_of) =~= all.take(i as int).filter(
                    pred,
                ).map_values(id_of).push(all[i as int].id));
            }
            i = i + 1;
        }
        assert(all.take(sessions@.len() as int) =~= all);
        out
    }

    /// The session that a message for this agent goes to: the first one,
    /// in the order of creation, whose agent has this identifier.
    pub fn agent_session(&self, agent_id: &str) -> (r: Result<String, String>)
        requires
            self.wf(),
        ensures
            match r {
                Ok(id) => exists|i: int|
                    {
                        &&& 0 <= i < self.sessions().session_views().len()
                        &&& id@ == self.sessions().session_views()[i].id
                        &&& super::session::has_agent(self.sessions().session_views()[i], agent_id@)
                        &&& forall|k: int|
                            0 <= k < i ==> !super::session::has_agent(
                                #[trigger] self.sessions().session_views()[k],
                                agent_id@,
                            )
                    },
                Err(e) => {
                    &&& e@ == "Agent "@ + agent_id@ + " not found"@
                    &&& forall|k: int|
                        0 <= k < self.sessions().session_views().len()
                            ==> !super::session::has_agent(
                            #[trigger] self.sessions().session_views()[k],
                            agent_id@,
                        )
                },
            },
    {
        match self.session_manager.get_session_by_agent(agent_id) {
            Some(s) => Ok(s.id.clone()),
            None => {
                let mut e = string_of("Agent ");
                e.append(agent_id);
                e.append(" not found");
                Err(e)
            },
        }
    }
}

impl McpServer {
    /// The identifier of the agent of a session, if it has one.
    fn agent_for(&self, session_id: &str) -> (r: Option<String>)
        requires
            self.wf(),
        ensures
            match r {
                Some(a) => agent_of(self.sessions().sessions(), session_id@) == Some(a@),
                None => agent_of(self.sessions().sessions(), session_id@) is None,
            },
    {
        match self.session_manager.get_session(session_id) {
            Some(s) => match s.agent_id() {
                Some(a) => Some(string_of(a)),
                None => None,
            },
            None => None,
        }
    }

    /// Sends a chat message through the router and answers the message, or
    /// the text of the router's error.
    fn send_as(
        &mut self,
        sender: String,
        channel: u128,
        content: String,
        priority: MessagePriority,
    ) -> (r: Result<ChatMessage, String>)
        requires
            old(self).wf(),
        ensures
            final(self).wf(),
            routed(
                old(self).router(),
                final(self).router(),
                sender@,
                channel,
                content@,
                priority,
                sent_view(r),
            ),
            final(self).config() == old(self).config(),
            final(self).sessions() == old(self).sessions(),
            final(self).permissions() == old(self).permissions(),
            final(self).documents() == old(self).documents(),
            final(self).running() == old(self).running(),
    {
        proof {
            self.message_router.lemma_wf();
        }
        let ghost s0 = sender@;
        let ghost c0 = content@;
        match self.message_router.send_message(sender, channel, content, priority) {
            Ok(m) => Ok(m),
            Err(e) => {
                let text = e.message();
                proof {
                    if !old(self).router().channels().contains_key(channel) {
                        assert(text@ == "Channel not found"@);
                    }
                }
                Err(text)
            },
        }
    }

    /// The answer to a `sendMessage` request.
    fn handle_send_message(&mut self, session_id: &str, request: &McpRequest, params: &RequestParams, now: i64) -> (r:
        Result<Reply, String>)
        requires
            old(self).wf(),
            request.method is SendMessage,
        ensures
            final(self).wf(),
            answers(
                agent_of(old(self).sessions().sessions(), session_id@),
                old(self).router(),
                final(self).router(),
                old(self).documents(),
                *request,
                *params,
                now,
                r,
            ),
            final(self).config() == old(self).config(),
            final(self).sessions() == old(self).sessions(),
            final(self).permissions() == old(self).permissions(),
            final(self).documents() == old(self).documents(),
            final(self).running() == old(self).running(),
    {
        let agent_id = match self.agent_for(session_id) {
            Some(a) => a,
            None => {
                return Err(string_of("Agent not registered"));
            },
        };
        let channel_id = match params.channel_id {
            Some(c) => c,
            None => {
                return Err(string_of("Missing channelId"));
            },
        };
        let content = match &params.content {
            Some(c) => c.clone(),
            None => {
                return Err(string_of("Missing content"));
            },
        };
        let priority = match params.priority {
            Some(p) => p,
            None => MessagePriority::Normal,
        };
        let request_id = reply_id_of(request);
        let ghost a0 = agent_id@;
        let ghost c0 = content@;
        let r = self.send_as(agent_id, channel_id, content, priority);
        let ghost sent = sent_view(r);
        assert(routed(old(self).router(), self.router(), a0, channel_id, c0, priority, sent));
        assert(agent_of(old(self).sessions().sessions(), session_id@)->0 == a0);
        assert((params.content->0)@ == c0);
        assert(priority == priority_or_normal(params.priority));
        let result = match r {
            Ok(msg) => Ok(
                Reply::Result {
                    request_id,
                    outcome: Outcome::MessageSent { message_id: msg.id, timestamp: msg.timestamp },
                },
            ),
            Err(e) => Err(e),
        };
        assert(match sent {
            Ok(m) => result matches Ok(
                Reply::Result { request_id, outcome: Outcome::MessageSent { message_id, timestamp } },
            ) && request_id@ == reply_id(*request) && message_id == m.id && timestamp == m.timestamp,
            Err(e) => fails_with(result, e),
        });
        result
    }

    /// The answer to a `submit` request.
    fn handle_submit(&mut self, session_id: &str, request: &McpRequest, params: &RequestParams, now: i64) -> (r:
        Result<Reply, String>)
        requires
            old(self).wf(),
            request.method is Submit,
        ensures
            final(self).wf(),
            answers(
                agent_of(old(self).sessions().sessions(), session_id@),
                old(self).router(),
                final(self).router(),
                old(self).documents(),
                *request,
                *params,
                now,
                r,
            ),
            final(self).config() == old(self).config(),
            final(self).sessions() == old(self).sessions(),
            final(self).permissions() == old(self).permissions(),
            final(self).documents() == old(self).documents(),
            final(self).running() == old(self).running(),
    {
        let agent_id = match self.agent_for(session_id) {
            Some(a) => a,
            None => {
                return Err(string_of("Agent not registered"));
            },
        };
        let channel_id = match params.channel_id {
            Some(c) => c,
            None => {
                return Err(string_of("Missing channelId"));
            },
        };
        let summary = match &params.summary {
            Some(s) => s,
            None => {
                return Err(string_of("Missing summary"));
            },
        };
        // Send summary to general chat
        let mut content = string_of("\u{1F4CB} Submission from ");
        content.append(agent_id.as_str());
        content.append(": ");
        content.append(summary.as_str());
        let request_id = reply_id_of(request);
        let ghost a0 = agent_id@;
        let ghost c0 = content@;
        assert(agent_of(old(self).sessions().sessions(), session_id@)->0 == a0);
        assert(c0 == submission_text(
            agent_of(old(self).sessions().sessions(), session_id@)->0,
            (params.summary->0)@,
        ));
        let r = self.send_as(agent_id, channel_id, content, MessagePriority::Normal);
        let ghost sent = sent_view(r);
        assert(routed(old(self).router(), self.router(), a0, channel_id, c0, MessagePriority::Normal, sent));
        Ok(Reply::Result { request_id, outcome: Outcome::Submitted })
    }

    /// The answer to a `getDocument` request.
    fn handle_get_document(&self, request: &McpRequest, params: &RequestParams, now: i64) -> (r: Result<
        Reply,
        String,
    >)
        requires
            self.wf(),
            request.method is GetDocument,
        ensures
            answers(
                agent_of(self.sessions().sessions(), Seq::empty()),
                self.router(),
                self.router(),
                self.documents(),
                *request,
                *params,
                now,
                r,
            ),
    {
        let doc_id = match params.document_id {
            Some(d) => d,
            None => {
                return Err(string_of("Missing documentId"));
            },
        };
        let metadata = match self.document_storage.get_metadata(doc_id) {
            Ok(m) => m,
            Err(_) => {
                let mut e = string_of("Document ");
                let t = id_to_string(doc_id);
                e.append(t.as_str());
                e.append(" not found");
                return Err(e);
            },
        };
        let version = match self.document_storage.get_latest_version(doc_id) {
            Ok(v) => v,
            Err(_) => {
                let mut e = string_of("No versions found for document ");
                let t = id_to_string(doc_id);
                e.append(t.as_str());
                return Err(e);
            },
        };
        let request_id = reply_id_of(request);
        Ok(
            Reply::Result {
                request_id,
                outcome: Outcome::Document {
                    metadata,
                    content: version.content,
                    version: version.info.version_number,
                },
            },
        )
    }

    /// The answer to a `requestPermission` request: the request is
    /// acknowledged as pending, for the user to decide.
    fn handle_permission_request(&self, session_id: &str, request: &McpRequest, params: &RequestParams, now: i64) -> (r:
        Result<Reply, String>)
        requires
            self.wf(),
            request.method is RequestPermission,
        ensures
            answers(
                agent_of(self.sessions().sessions(), session_id@),
                self.router(),
                self.router(),
                self.documents(),
                *request,
                *params,
                now,
                r,
            ),
    {
        let agent_id = match self.agent_for(session_id) {
            Some(a) => a,
            None => {
                return Err(string_of("Agent not registered"));
            },
        };
        let scope = match &params.scope {
            Some(s) => s.clone(),
            None => {
                return Err(string_of("Missing scope"));
            },
        };
        let request_id = reply_id_of(request);
        Ok(Reply::Result { request_id, outcome: Outcome::PermissionPending { agent_id, scope } })
    }

    /// The answer to a `vote` request: the vote is acknowledged.
    fn handle_vote(&self, session_id: &str, request: &McpRequest, params: &RequestParams, now: i64) -> (r: Result<
        Reply,
        String,
    >)
        requires
            self.wf(),
            request.method is Vote,
        ensures
            answers(
                agent_of(self.sessions().sessions(), session_id@),
                self.router(),
                self.router(),
                self.documents(),
                *request,
                *params,
                now,
                r,
            ),
    {
        let agent_id = match self.agent_for(session_id) {
            Some(a) => a,
            None => {
                return Err(string_of("Agent not registered"));
            },
        };
        let message_id = match &params.message_id {
            Some(m) => m.clone(),
            None => {
                return Err(string_of("Missing messageId"));
            },
        };
        let vote_type = match &params.vote_type {
            Some(v) => v.clone(),
            None => {
                return Err(string_of("Missing voteType"));
            },
        };
        let request_id = reply_id_of(request);
        Ok(
            Reply::Result {
                request_id,
                outcome: Outcome::VoteRecorded {
                    voted_message: message_id,
                    vote_type,
                    voter_id: agent_id,
                },
            },
        )
    }

    /// The answer to a `listDocuments` request: the documents matching the
    /// query, or all active documents without one.
    fn handle_list_documents(&self, request: &McpRequest, params: &RequestParams, now: i64) -> (r: Result<
        Reply,
        String,
    >)
        requires
            self.wf(),
            request.method is ListDocuments,
        ensures
            answers(
                agent_of(self.sessions().sessions(), Seq::empty()),
                self.router(),
                self.router(),
                self.documents(),
                *request,
                *params,
                now,
                r,
            ),
    {
        let documents = match &params.query {
            Some(q) => self.document_storage.search_documents(q.as_str()),
            None => self.document_storage.list_documents(),
        };
        let request_id = reply_id_of(request);
        Ok(Reply::Result { request_id, outcome: Outcome::Documents { documents } })
    }

    /// Process an authenticated MCP request
    ///
    /// The request goes to the handler of its method, as `answers` states.
    /// Only sending a message or submitting work changes the router, and
    /// nothing else changes.
    pub fn process_request(
        &mut self,
        session_id: &str,
        request: &McpRequest,
        params: &RequestParams,
        now: i64,
    ) -> (r: Result<Reply, String>)
        requires
            old(self).wf(),
        ensures
            final(self).wf(),
            answers(
                agent_of(old(self).sessions().sessions(), session_id@),
                old(self).router(),
                final(self).router(),
                old(self).documents(),
                *request,
                *params,
                now,
                r,
            ),
            final(self).config() == old(self).config(),
            final(self).sessions() == old(self).sessions(),
            final(self).permissions() == old(self).permissions(),
            final(self).documents() == old(self).documents(),
            final(self).running() == old(self).running(),
    {
        let request_id = reply_id_of(request);
        match &request.method {
            McpMethod::SendMessage => self.handle_send_message(session_id, request, params, now),
            McpMethod::Submit => self.handle_submit(session_id, request, params, now),
            McpMethod::GetDocument => self.handle_get_document(request, params, now),
            McpMethod::RequestPermission => self.handle_permission_request(session_id, request, params, now),
            McpMethod::Vote => self.handle_vote(session_id, request, params, now),
            McpMethod::ListDocuments => self.handle_list_documents(request, params, now),
            McpMethod::Ping => Ok(
                Reply::Result { request_id, outcome: Outcome::Pong { timestamp: now } },
            ),
            _ => {
                let mut message = string_of("Method ");
                let name = method_name(&request.method);
                message.append(name.as_str());
                message.append(" not implemented");
                Ok(Reply::Error { request_id, code: McpError::METHOD_NOT_FOUND, message })
            },
        }
    }
}

impl McpServer {
    /// Process incoming WebSocket messages: what the connection does with
    /// one thing that came in on it.
    ///
    /// An unparsable frame is answered with a parse error; a ping with its
    /// pong; a close or a transport failure ends the connection; other
    /// frames are ignored. A message first marks activity on the session at
    /// time `now`.
    /// Until the handshake is complete it goes through `handshake_step`;
    /// after, a request is processed as `answers` states (an error there
    /// ends the connection) and a response is ignored.
    pub fn step(&mut self, conn: &mut Connection, session_id: &str, event: Inbound, now: i64) -> (r:
        Step)
        requires
            old(self).wf(),
        ensures
            final(self).wf(),
            final(self).config() == old(self).config(),
            final(self).permissions() == old(self).permissions(),
            final(self).documents() == old(self).documents(),
            final(self).running() == old(self).running(),
            match event {
                Inbound::Unparsable(e) => {
                    &&& final(self).sessions() == old(self).sessions()
                    &&& final(self).router() == old(self).router()
                    &&& *final(conn) == *old(conn)
                    &&& r matches Step::Send(rep) && is_error_reply(
                        rep,
                        Seq::empty(),
                        McpError::PARSE_ERROR,
                        "Invalid JSON: "@ + e@,
                    )
                },
                Inbound::Message { message, params, hello, response } => {
                    &&& touched(
                        old(self).sessions().sessions(),
                        final(self).sessions().sessions(),
                        session_id@,
                        now,
                    )
                    &&& if old(conn).handshake is Authenticated {
                        &&& *final(conn) == *old(conn)
                        &&& match message.payload {
                            McpPayload::Request(req) => exists|res: Result<Reply, String>|
                                {
                                    &&& #[trigger] answers(
                                        agent_of(old(self).sessions().sessions(), session_id@),
                                        old(self).router(),
                                        final(self).router(),
                                        old(self).documents(),
                                        req,
                                        params,
                                        now,
                                        res,
                                    )
                                    &&& match res {
                                        Ok(rep) => r == Step::Send(rep),
                                        Err(e) => r == Step::Fail(e),
                                    }
                                },
                            McpPayload::Response(_) => r is Continue && final(self).router()
                                == old(self).router(),
                        }
                    } else {
                        &&& final(self).router() == old(self).router()
                        &&& handshake_step(*old(conn), *final(conn), message, hello, response, r)
                    }
                },
                Inbound::Ping(t) => {
                    &&& final(self).sessions() == old(self).sessions()
                    &&& final(self).router() == old(self).router()
                    &&& *final(conn) == *old(conn)
                    &&& r matches Step::SendText(x) && x@ == t@
                },
                Inbound::Closed => {
                    &&& final(self).sessions() == old(self).sessions()
                    &&& final(self).router() == old(self).router()
                    &&& *final(conn) == *old(conn)
                    &&& r is Stop
                },
                Inbound::Failed(e) => {
                    &&& final(self).sessions() == old(self).sessions()
                    &&& final(self).router() == old(self).router()
                    &&& *final(conn) == *old(conn)
                    &&& r matches Step::Fail(x) && x@ == e@
                },
                Inbound::Other => {
                    &&& final(self).sessions() == old(self).sessions()
                    &&& final(self).router() == old(self).router()
                    &&& *final(conn) == *old(conn)
                    &&& r is Continue
                },
            },
    {
        match event {
            Inbound::Unparsable(e) => {
                let mut message = string_of("Invalid JSON: ");
                message.append(e.as_str());
                Step::Send(
                    Reply::Error { request_id: String::new(), code: McpError::PARSE_ERROR, message },
                )
            },
            Inbound::Ping(t) => Step::SendText(t),
            Inbound::Closed => Step::Stop,
            Inbound::Failed(e) => Step::Fail(e),
            Inbound::Other => Step::Continue,
            Inbound::Message { message, params, hello, response } => {
                // Update session activity
                let ghost s0 = self.sessions().sessions();
                let _ = self.session_manager.touch_session_at(session_id, now);
                let ghost s1 = self.sessions().sessions();
                assert(agent_of(s1, session_id@) == agent_of(s0, session_id@));
                if conn.handshake.is_authenticated() {
                    match &message.payload {
                        McpPayload::Request(request) => {
                            let res = self.process_request(session_id, request, &params, now);
                            match res {
                                Ok(reply) => Step::Send(reply),
                                Err(e) => Step::Fail(e),
                            }
                        },
                        McpPayload::Response(_) => Step::Continue,
                    }
                } else {
                    self.handshake(conn, &message, hello, response)
                }
            },
        }
    }

    /// One message while the handshake is not complete.
    fn handshake(
        &self,
        conn: &mut Connection,
        message: &McpMessage,
        hello: Result<ClientHello, String>,
        response: Result<ClientResponse, String>,
    ) -> (r: Step)
        ensures
            handshake_step(*old(conn), *final(conn), *message, hello, response, r),
    {
        let request = match &message.payload {
            McpPayload::Request(request) => request,
            McpPayload::Response(_) => {
                return Step::Continue;
            },
        };
        let is_initialize = match &request.method {
            McpMethod::Initialize => true,
            _ => false,
        };
        if !is_initialize {
            // Must initialize first
            return Step::Send(
                Reply::Error {
                    request_id: message.id.clone(),
                    code: McpError::INVALID_REQUEST,
                    message: string_of("Must initialize connection first"),
                },
            );
        }
        let request_id = reply_id_of(request);
        let pending = match &conn.handshake {
            HandshakeState::ChallengeSent => true,
            _ => false,
        };
        if pending {
            // The client answers the challenge
            let answer = match response {
                Ok(a) => a,
                Err(e) => {
                    let mut m = string_of("Invalid challenge response: ");
                    m.append(e.as_str());
                    return Step::Fail(m);
                },
            };
            let expected = match &conn.challenge_id {
                Some(c) => c.clone(),
                None => String::new(),
            };
            return match conn.handshake.receive_response(&answer, expected.as_str()) {
                Ok(result) => {
                    if result.success {
                        let session_token = match result.session_token {
                            Some(t) => t,
                            None => String::new(),
                        };
                        Step::Send(
                            Reply::Result { request_id, outcome: Outcome::Authenticated { session_token } },
                        )
                    } else {
                        Step::SendThenFail(
                            Reply::Error {
                                request_id,
                                code: McpError::INVALID_REQUEST,
                                message: string_of("Challenge ID mismatch"),
                            },
                            string_of("Handshake failed"),
                        )
                    }
                },
                Err(e) => Step::SendThenFail(
                    Reply::Error { request_id, code: McpError::INVALID_REQUEST, message: e },
                    string_of("Handshake failed"),
                ),
            };
        }
        let hello = match hello {
            Ok(h) => h,
            Err(e) => {
                let mut m = string_of("Invalid hello: ");
                m.append(e.as_str());
                return Step::Fail(m);
            },
        };
        match conn.handshake.receive_hello(&hello) {
            Ok(challenge) => {
                conn.challenge_id = Some(challenge.challenge_id.clone());
                let auth_required = conn.require_auth && hello.auth_token.is_none();
                if !auth_required {
                    // No answer is needed: the handshake completes at once.
                    let answer = ClientResponse {
                        challenge_id: challenge.challenge_id.clone(),
                        response_data: String::new(),
                    };
                    let _ = conn.handshake.receive_response(&answer, challenge.challenge_id.as_str());
                }
                Step::Send(
                    Reply::Result { request_id, outcome: Outcome::Challenge { challenge, auth_required } },
                )
            },
            Err(e) => Step::SendThenFail(
                Reply::Error { request_id, code: McpError::INVALID_REQUEST, message: e },
                string_of("Handshake failed"),
            ),
        }
    }
}

/// The identifier that a reply to the request carries.
fn reply_id_of(request: &McpRequest) -> (r: String)
    ensures
        r@ == reply_id(*request),
{
    match &request.request_id {
        Some(id) => id.clone(),
        None => String::new(),
    }
}

/// The name under which `{:?}` shows a method.
fn method_name(m: &McpMethod) -> (r: String)
    ensures
        r@ == method_debug(*m),
{
    match m {
        McpMethod::Initialize => string_of("Initialize"),
        McpMethod::SendMessage => string_of("SendMessage"),
        McpMethod::RequestPermission => string_of("RequestPermission"),
        McpMethod::Submit => string_of("Submit"),
        McpMethod::Vote => string_of("Vote"),
        McpMethod::RequestCounterProposal => string_of("RequestCounterProposal"),
        McpMethod::StateVoteReason => string_of("StateVoteReason"),
        McpMethod::OpenPrivateChannel => string_of("OpenPrivateChannel"),
        McpMethod::ClosePrivateChannel => string_of("ClosePrivateChannel"),
        McpMethod::GetDocument => string_of("GetDocument"),
        McpMethod::ListDocuments => string_of("ListDocuments"),
        McpMethod::Ping => string_of("Ping"),
        McpMethod::Custom(s) => {
            let mut r = string_of("Custom(");
            let q = debug_text(s.as_str());
            r.append(q.as_str());
            r.append(")");
            r
        },
    }
}

/// A connection becomes authenticated through `step` only by the
/// handshake: an accepted hello when the client need not answer the
/// challenge, or an answer naming the issued challenge.
pub proof fn lemma_handshake_step_authenticates(
    cb: Connection,
    ca: Connection,
    message: McpMessage,
    hello: Result<ClientHello, String>,
    response: Result<ClientResponse, String>,
    r: Step,
)
    requires
        handshake_step(cb, ca, message, hello, response, r),
        !(cb.handshake is Authenticated),
        ca.handshake is Authenticated,
    ensures
        message.payload matches McpPayload::Request(req) && req.method is Initialize,
        cb.handshake is Init ==> (hello matches Ok(h) && supported_version(h.version@)
            && !must_answer(cb, h)),
        cb.handshake is ChallengeSent ==> (response matches Ok(resp) && resp.challenge_id@
            == expected_challenge(cb)),
        cb.handshake is Init || cb.handshake is ChallengeSent,
{
}

/// After an accepted hello from a client that need not answer the
/// challenge, the connection is authenticated, so the requests that follow
/// reach their handlers.
pub proof fn lemma_hello_without_answer_authenticates(
    cb: Connection,
    ca: Connection,
    message: McpMessage,
    h: ClientHello,
    response: Result<ClientResponse, String>,
    r: Step,
)
    requires
        handshake_step(cb, ca, message, Ok(h), response, r),
        message.payload matches McpPayload::Request(req) && req.method is Initialize,
        cb.handshake is Init,
        supported_version(h.version@),
        !must_answer(cb, h),
    ensures
        ca.handshake is Authenticated,
{
}

/// The connection limit holds in every state: a well-formed server, which
/// every operation keeps well formed, never holds more sessions than its
/// configured maximum of connections.
pub proof fn lemma_connection_limit(server: McpServer)
    requires
        server.wf(),
    ensures
        server.sessions().sessions().len() <= server.config().max_connections,
        server.sessions().session_views().len() <= server.config().max_connections,
{
    server.sessions().lemma_wf();
    lemma_to_map_len(server.sessions().session_views(), session_key(), session_val());
}

/// A `getDocument` request is answered with the document's latest
/// version: for a document whose versions are numbered, the reply holds
/// its metadata, the content of its last version, and that version's
/// number, which is the document's current version.
pub proof fn lemma_get_document_answers_latest(
    agent: Option<Seq<char>>,
    rb: MessageRouter,
    ra: MessageRouter,
    docs: DocumentStorage,
    req: McpRequest,
    p: RequestParams,
    now: i64,
    r: Result<Reply, String>,
    id: u128,
)
    requires
        answers(agent, rb, ra, docs, req, p, now, r),
        req.method is GetDocument,
        p.document_id == Some(id),
        docs.wf(),
        versions_numbered(docs, id),
    ensures
        r matches Ok(Reply::Result { outcome: Outcome::Document { metadata, content, version }, .. })
            && {
            &&& metadata@ == docs.documents()[id]
            &&& version == metadata@.current_version
            &&& version == docs.versions_of(id).len()
            &&& content@ == docs.versions_of(id).last().content@
            &&& docs.versions_of(id).last().info.version_number == version
        },
{
    docs.lemma_versions_start_at_one(id);
    assert(docs.versions().contains_key(id));
}

} // verus!

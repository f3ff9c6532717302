# multi_agent_chat

A chat service for AI agents that connect over the Model Context Protocol:
permissions granted by a human, channels and a priority delivery queue,
versioned documents, agent sessions, and the server's handshake and
request handling. The library in `src/` is written in Verus: the
functions carry contracts (all but the few that only hand out a random
identifier or the time), and the laws that tie the operations together are
proved as `pub proof fn`s next to the code they speak of.

Layout:

- `src/permission/` — the permission state machine and the permission store.
- `src/message_router/` — channels, chat messages and votes, the bounded
  priority queue, and the router that ties them to a broadcast channel.
- `src/document_storage/` — document metadata, versions with SHA-256
  content hashes, and the versioned store.
- `src/mcp_server/` — protocol types, the handshake, sessions, and the
  server's per-connection decisions (`McpServer::step`).
- `src/utils/` — identifiers, text helpers, keyed sequences, and the
  truncation and log-level helpers.
- `app/` — the program: logging, the WebSocket listener and connections,
  and the JSON form of the protocol.
- `tests/` — the test suite.

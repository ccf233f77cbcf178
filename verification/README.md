# loop_bridge

The rules of a chat bridge: an HTTP, Server-Sent Events and WebSocket front end
to an agent's harness. What the bridge decides, parses, orders, encodes and
answers is a Verus library; sockets, files, processes and the harness are
ordinary Rust around it.

| Where | What |
|---|---|
| `src/dotenv.rs` | the settings that a `.env` file makes |
| `src/startup.rs` | provider, session, origins and port |
| `src/paths.rs`, `src/files.rs` | containment of paths, listings and previews |
| `src/rag.rs`, `src/encoding.rs` | requests to a retrieval service, its replies, percent-encoding |
| `src/documents.rs`, `src/tools.rs` | documents on disk and the tools that a model is offered |
| `src/events.rs` | turns, their events and each listener's stream |
| `src/terminal.rs` | the terminal in the browser, as a state machine |
| `src/json.rs`, `src/api.rs`, `src/text.rs` | JSON values, error replies, text |
| `app/` | the process: routes, I/O, and the harness (`loop-agent`, `loop-app-core`) |
| `tests/` | the library on concrete values |

Each public function states in its `ensures` what it returns. Proof functions
named `law_...` state what holds of the library as a whole. What is believed
without proof stands in functions marked `external_body`, each with a comment
on the outside function it calls.

# pmcp

The verified core of a Model Context Protocol SDK, written in Verus.

`src/` holds the library. Verus checks every function in it against its
contract; a few calls into std and outside crates are trusted wrappers whose
contracts are believed, and the cancellation token, whose flag is shared by
all its clones, has no contract on the flag's value:

- `text` — string views, trimming, JSON string quoting, decimal text, and the
  calls into std, `serde_json` and `regex` that the parsers rely on.
- `error` — the error type, its codes and its texts.
- `server` — input validation with elicitation hints, path validation,
  authentication contexts and scope checks, prompts, resources, tools, the
  server core (initialization state, tool and prompt registries, and what
  each request is answered or handed to), and the client bookkeeping of the
  WebSocket server.
- `shared` — the SSE, HTTP-header, Base64 and JSON-structure parsers, the
  middleware decisions (priority order, one pass of a message through a
  chain as a state machine, token bucket, circuit breaker, counters),
  cancellation tokens, the buffered SSE transport's policies and
  the browser HTTP transport's session state.
- `wasi` — the WASI runner's decisions: reading a request body, the
  fallback id, routing, and the response and error bodies.

Time, the file system, sockets and async tasks stay outside the library:
`app/` holds that runtime (CPU feature detection, file-system path
resolution, the async middleware traits and chains, the async handler traits
that drive the server core and the WASI runner, the WebSocket server and the
SSE transport),
calling the library for every decision.

`tests/` exercises the library on concrete values.

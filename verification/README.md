# zero_buddy

The chat backend of the Zero Buddy assistant: it answers questions about the
Zero Labs projects from fixed FAQ rules, an answer cache, a small knowledge
base (with an optional web fallback) and an OpenAI-compatible model.

## Layout

- `src/` — the library, verified with Verus. Every decision the service
  makes lives here with its contract:
  - `text` — string primitives (trimming, searching, splitting, numbers);
  - `pattern` — the `regex` crate behind trusted wrappers;
  - `faq` — FAQ rules and the matching of a query against them;
  - `cache` — the exact layer of the answer cache;
  - `ratelimit` — per-client request limits (per minute and per day);
  - `rag`, `knowledge` — tokenizing, keyword overlap, picking and
    formatting documents;
  - `web` — HTML to text and the bounded web-fallback context;
  - `config` — defaults, environment overrides, topic scope;
  - `chat`, `prompt` — the steps of answering a request and the messages
    sent to the model;
  - `sse`, `stream` — reading the model's event stream and sending answers
    as a stream;
  - `response` — the `{ code, message, body }` envelope.
- `app/` — the HTTP server (axum), the model client (reqwest), file
  loading and saving, and the similarity ranking, which uses floats.
- `tests/` — tests run against the compiled library.

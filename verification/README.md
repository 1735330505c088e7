# responses-api-proxy

A small proxy that takes requests of the OpenAI Responses API at `POST /v1/responses` and forwards
them to an upstream, which speaks the Responses API or the Chat Completions API. For the latter it
translates the requests, the answers and the answer streams.

- `src/` is the library, verified with Verus:
  - `json`, `codec`: JSON documents, and reading and writing them with `serde_json`
  - `request`, `response`, `stream`: the translations, with `sse` for the framing of streams
  - `headers`, `config`, `proxy`: which headers pass, how the proxy is set up, and what it does with
    a request and an answer
  - `laws`: what holds across these functions
- `tests/` runs the library with the crates it is built on.
- `app/` is the server around it: command line, sockets and the HTTP client.

The token counts of a usage report are added up as `i64`. The translations ask for counts whose sum
fits; their `checked_` forms return `None` for any other.

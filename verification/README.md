# inbox_ui

A small web UI for an inbox actor system, as two actors: an acceptor that
owns the listen socket and spawns one handler per connection, and a handler
that parses one HTTP request, checks HTTP Basic credentials, routes it,
reads from or sends to the inbox API, and answers with a server-rendered
HTML page.

## Layout

- `src/` — the verified library (Verus):
  - `text.rs` — sequences of characters: search, split, trim, ASCII case,
    decimal numbers, and the few std conversions the rest needs.
  - `request.rs` — percent coding, form fields, and the HTTP request parser.
  - `render.rs` — HTML escaping, the page shell, and response framing.
  - `auth.rs` — the Basic credential check (base64 through the `base64` crate).
  - `handler.rs` — handler state, start-up decisions, dispatch and routing,
    and the laws that tie the pages' links to the routes they open.
  - `write_api.rs`, `api_reads.rs` — framing of calls to the inbox API, the
    receive loop's decisions, response parsing, and the read path.
  - `views/` — the four screens and the compose submission.
  - `acceptor.rs` — the acceptor's decisions.
  - `store_reads.rs` — the direct-store read path, not yet wired.
- `app/` — the actors' runtime glue: host imports, socket and store calls,
  JSON through serde, and the loops that run the library's decisions.
- `tests/` — tests of the library on concrete requests and pages.

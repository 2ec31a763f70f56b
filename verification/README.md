# rubberdux

A host for agent apps: a board of apps with a worker each, the messages between them, a gateway
that shows the board, and a Telegram surface.

- `src/` is the library, verified with Verus. `app` holds the board, the identity of an app, the
  merging of conversations, the inboxes of peers and the life of workers; `host` the broker of
  messages, the outbox, surfaces, child machines and the start of the host; `gateway` the routes and
  streams; `channel` and `markdown` the texts that go to and come from Telegram; `guardrail`,
  `hardened_prompts`, `frontmatter`, `jsonl`, `json_object` and `cli` what these need.
- `tests/` runs the library.
- `app/` is the program: processes, sockets, files, clocks and the crates that reach them.

The public proof functions in `src/` state what holds of several operations together.

`takecell` is listed in `Cargo.toml` for its version alone: `teloxide` needs it, and the releases
after 0.1.1 ask for a newer compiler than this project builds with.

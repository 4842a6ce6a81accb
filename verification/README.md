# architect

The decisions of the architect crates as a library with contracts, proved by
[Verus](https://github.com/verus-lang/verus).

- `src/auth`, `src/auth_ui` — deadlines and percent-encoding; the account,
  sign-in and organization pages, each as a function from what a browser sent to
  what is asked of the identity engine, and from the engine's reply to where the
  browser goes or what it is shown.
- `src/crdt` — reading and writing fields of a Loro map.
- `src/launcher` — matching items against a query, and the palette's state.
- `src/story_parity` — pictures of two renderers side by side.
- `src/telemetry` — what a process reports and exports.
- `src/xtask` — release tags, dependency bumps, snapshots and scaffolding.
- `src/text.rs`, `src/ids.rs` — texts and identifiers, for all of these.

`app/` runs it all: the command line, HTTP, files, git, the launcher window and
telemetry. `tests/` runs the library on concrete values.

A function states what it returns for every input it takes. Facts that relate
several functions are public proof functions whose names begin with `law_`. What
is taken on trust of another crate stands in functions marked
`#[verifier::external_body]`, each with a comment that says what is claimed.

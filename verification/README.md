# ikigai_fn

A library of reusable ikigai function endpoints — `toUpper`, `reverseList`,
`split`, `wrap`, `greet`, `echo`, `compose` and `conditional` — whose text logic
is written in Verus and proved against its contracts.

## Layout

- `src/` — the verified library.
  - `functions.rs`: the bodies of the six pure functions, with the laws that
    `reverseList` is its own inverse and that `split` yields one line per field.
  - `markers.rs`: the `$a{…}` scanner (`scan`, `find_marker_end`) over the UTF-8
    bytes of a shape, specified by `scan_from` / `marker_close`.
  - `request.rs`: marker bodies into requests (`parse_marker`, `parse_query`,
    `unquote`).
  - `compose.rs`: the steps of `compose` — checking `src`, reading the shape,
    planning a level, settling a resolved marker, reassembling — and the laws on
    what a shape's text becomes.
  - `conditional.rs`: the steps of `conditional` — checking `if`, reading the
    condition as a boolean, choosing and checking the branch.
  - `catalog.rs`: what each endpoint declares of itself, and where the library
    mounts it.
  - `iri.rs`, `text.rs`, `chars.rs`, `bytes.rs`, `error.rs`: IRI checking,
    trimming/splitting/joining, string building, UTF-8 stepping, errors.
- `app/` — the ikigai-core plumbing: endpoints reading their arguments off an
  invocation, sourcing resources through the kernel between the library's steps,
  and the mountable `space()`.
- `tests/` — the library run on concrete values.

# brxon

An embeddable content blocker for Gecko. Each request is reduced to a domain and
looked up, with its parent domains, in a Bloom filter. The filter ships with the
browser, signed with Ed25519, and is kept current by signed deltas that are
exclusive-ored onto it. An update that is refused takes the filter back a version
and freezes updates until a complete filter with a good signature arrives;
requests are looked up in that version meanwhile.

- `src/` is the library, verified with Verus. `src/laws.rs` states what holds of
  the parts taken together.
- `app/` is ordinary Rust around it: the program that builds a filter from block
  lists, the network, the JSON forms, and the C interface to Gecko.
- `tests/` runs the library with the real cryptography.

The filter is embedded at build time. Run here, the tool writes
`initial_filter.bin`; the product is then built with `--cfg brxon_filter`, which
takes that file in. No file is read at run time.

Hashing, signatures, hexadecimal and base64 come from other crates. What the
proofs take for granted about them stands at the functions marked
`external_body`, each with a comment that says so.

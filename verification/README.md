# mpeg_syntax_dump

Renders MPEG specification syntax tables (element blocks, fields with bit
widths and descriptors, conditionals, loops, switches, hex dumps) as plain
text, ANSI-colored text, or a compact `name: value` form.

Layout:

- `src/numfmt.rs` – decimal and hexadecimal digit strings.
- `src/types.rs` – values and field descriptions.
- `src/sink.rs` – `ByteSink`, where renderers put their bytes (`Vec<u8>` is one).
- `src/write.rs` – `SyntaxWrite`, the renderer interface, with its block-nesting contract
  and `described`, the sequence of syntax items handed to a renderer so far.
- `src/describe.rs` – `SyntaxDescribe`, implemented by producers.
- `src/render/` – shared formatting helpers and the three renderers; each
  renderer method states the exact line it appends, and the plain and ANSI
  renderers state their whole output as the text of everything described
  (`plain_text`, `ansi_text`). `strip.rs` proves that removing the ANSI escape
  codes from the colored output gives the plain output, line by line and for
  whole descriptions.
- `app/` – an `io::Write` adapter and the `Display`/`Error` impls.

# mmlx

MXDRV MML parsing, MDX compilation, and the models behind two byte viewers, written in
Verus: the public functions state what they return in their contracts, and Verus proves
it.

## Layout

- `src/mdx/` parses MML source (`parse.rs`, with `mml.rs` holding the syntax tree) and
  compiles it to MDX (`compile.rs`); `lowering.rs` states as specifications what each
  channel compiles to, and `compat.rs` normalises MXDRV16y track tables.
- `src/mdx_model/` is the MDX data model: commands and their bytes, tones, documents and
  the file layout.
- `src/cli.rs` is what the `mmlx` command computes between reading and writing files.
- `src/sourcemap/` maps tree nodes to byte ranges; `src/debugger/` and `src/viewer/` hold
  the viewers' state: tree nodes, children loaded on demand, background messages, tree
  selection and the hex view.
- `src/input.rs` unpacks gzip input (through `flate2`), `src/columns.rs` pads text to
  terminal columns (through `unicode-width`), `src/samples.rs` narrows WAV samples to
  12 bits, and `src/stream.rs` holds the status codes of chunked streaming.
- `app/` is the `mmlx` command line: reading and writing its files, and console logging.
- `tests/` runs the library on concrete inputs.

Calls into outside crates go through a few trusted wrappers marked
`#[verifier::external_body]`; their doc comments say what is assumed of each.

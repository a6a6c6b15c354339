# zd

A stream slicer and hexdumper: it reads one or more inputs as a byte stream,
edits the stream (cut, pad and clip, patch), slices it (fixed width, pattern
search, walking length fields, guide records), filters the slices (regular
expressions, inversion, extension, merging), and writes them out in binary or
as a hexdump.

The library in `src/` is written in Verus, and every function in it is
verified against its `requires` / `ensures` contract.

- `eval/` — integer expressions: lexing, parsing to reverse Polish order,
  canonical form, evaluation, and the number parsers built on them.
- `byte/` — byte streams: raw input, text records, concatenation, zipping,
  cutting, clipping, patching. Each stream records the bytes consumed from it
  (`taken()`), and its laws say what it has made in terms of the bytes it took
  from its inputs.
- `segment/` — slice streams over a byte stream, and the slice filters.
- `drain/` — writing slices out, in binary or as hexadecimal lines.
- `optimizer/`, `params.rs`, `pipeline.rs` — fusing command-line options into
  stage parameters, and the order of the stages.
- `spawn.rs` — building the stages of a pipeline over its inputs; its
  contract says which stage reads which, in the order the options name them.

`app/` holds the command-line program: argument parsing, opening the inputs,
and writing what the drain yields. `tests/` holds the tests.

# flosion

The verified core of a modular sound-graph synthesiser, written in Verus.

- `src/` is the library. Verus proves the contracts of its functions, except
  for a few small wrappers around the standard library (the clock, character
  classes, parsing a natural number), whose contracts are trusted and say no
  more than the standard library documents. It covers the identifiers and
  their generator, the description of a sound graph with its cycle and state
  checks, the partition of a processor's state table and the tables
  themselves, the states of static and dynamic processors, key ranges,
  diagnostics, object arguments and their parsing, the selection state,
  top-level modes and keyboard navigation of the graph editor, and the syntax
  trees, paths and cursor of the expression layout.
- `tests/` runs the library on concrete values.
- `app/` holds what stays in plain Rust: samples, audio chunks and
  resampling, which work on floating-point numbers, and the conversion of
  number arguments to `f64`.

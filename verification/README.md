# hexbait

A library for examining binary data: statistics of byte pairs (bigrams) and single bytes over
windows of the data, caches and trees that combine such statistics, metrics encoded for display,
a small language that describes binary formats and an interpreter for it, and the state behind
a hex view (scrolling, selections, marked locations). The library is verified with Verus: its
functions carry `requires`/`ensures` contracts that Verus proves.

Layout:

- `src/window.rs`: windows of the data and their alignment.
- `src/data.rs`: the data sources that statistics and parsing read from.
- `src/statistics.rs` and `src/statistics/`: bigram and flat statistics, downsampled statistics,
  the regions they cover, the statistics handler with its caches, the statistics tree with its
  garbage collection, metric encoding and bin sizes, the request order of the background work,
  and the integer parts of classification.
- `src/parsing.rs` and `src/parsing/`: the format description language, its semantics as a
  specification, the interpreter proved against it, and the built-in format descriptions.
- `src/gui/`: the state of the hex view, selections, signature display and marked locations.
- `app/`: a command line program that prints statistics of a file and parses it as one of the
  built-in formats; it holds the floating point metrics.
- `tests/`: tests of the library.

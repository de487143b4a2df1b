# Nirdosha

A small systems language, written in Verus: executable Rust whose behaviour is stated
in contracts and proved.

- `src/` is the library. Every function in it is verified against its contract. What
  it takes on trust from other crates stands in a few small functions marked as such,
  each with a comment that says what is believed of which outside function.
- `app/` is the command-line program around it: files, sockets, threads, processes,
  databases, HTTP, and arithmetic on floating-point numbers, which the library holds
  by their bits.
- `tests/` runs the library.

The proof functions that are public are the laws of the library: no value is used
after it was moved, a run closes every scope that it opened, a run without type errors
does no more than its inferred effects and keeps every variable to its declared type, a
proved contract holds of every input on which no number overflows and a counterexample
is one, a gated function is called only for those who may call it, a message arrives as
it was sent, and others.

# simi

The core of the Simi scripting language as a verified library: lexing, the standard-library
natives, operators, scopes, pattern matching, module loading and
package metadata checks. Verus proves every function in `src/` against its contract.
Parsing and evaluating programs are not part of this library: the command-line program lexes a
source and reports that evaluation is not available. Lists, maps and scopes live in index-based
arenas (`heap`, `environment`) that are never collected, so that aliasing between values is a
matter of equal indices that contracts can state.

## Layout

- `src/` — the library.
  - `lexer`, `tokens`, `syntax`: the lossless lexer (every character in exactly one lexeme),
    the strict lexer that agrees with it, token kinds, and token spellings.
  - `origins`, `ast`, `rebase`, `local_imports`: the syntax tree, how its spans are mapped back
    to the spans the tokens arrived with, and the literal package-local `require` calls it makes.
  - `value`, `heap`, `keys`, `render`, `float_bits`, `float_literal`, `decimal`, `text`:
    runtime values, the store of lists and maps, equality and map keys, canonical rendering,
    exact reasoning about binary64 bit patterns and decimal literals.
  - `operations`, `indexing`, `pattern`, `environment`, `iteration`, `evaluation`: the
    evaluation rules for operators, indexing and assignment, pattern matching, scopes, the
    iterator protocol and the ways evaluation can stop.
  - `native/`: the `std/*` natives for bytes, integers, lists, maps, numbers, strings, UTF-8
    and UTF-16; the bit-level part of `std/float` (formats, special values, byte order,
    classification of decoded bits) and the computed part of `std/io` (the text written, the
    line read, the value raised on a stream failure).
  - `module`, `engine`, `package`, `package_tree`, `cli`, `span`, `error`: modules and the
    loading of source modules, package names and paths, a package root's sources in canonical
    path order with its digest inputs, command-line commands and error reports.
- `tests/` — tests run against the compiled library.
- `app/` — the command-line program: argument parsing, file access, the reads and writes of
  `std/io`, and the floating-point steps of `std/float` (narrowing, widening, rendering).

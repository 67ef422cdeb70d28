# argtiny

A small command-line argument parser, written in Verus.

- Required positional arguments, matched in the order they are added.
- Optional arguments with a long form (`--name`), an optional short form
  (`-n`) and a default value; `Boolean` ones are flags.
- `--` ends option parsing.

Layout:

- `src/values.rs`: argument types, parsed values and conversion to `i64`,
  `String` and `bool`.
- `src/decimal.rs`: reading a decimal `i64`.
- `src/args.rs`: argument declarations and the table of parsed values.
- `src/parser.rs`: the parser, the mathematical meaning of a parse
  (`spec_parse`) and the error type.
- `src/laws.rs`: proved properties of parsing.
- `app/lib.rs`: the `arg!` macro, checked constructors, parsing from an
  iterator, and an error type with `Display`.

Collections: the table of parsed values is a `Vec` of (name, value) entries
searched from the newest, and the long and short forms are found by searching
the optional declarations from the last one, rather than through `HashMap`s
keyed by `String`, whose lookups Verus cannot yet reason about. In both cases
the later of two equal names wins, as with a `HashMap` insert.

# yyaml

A YAML 1.2 loader whose parsing logic is written in Verus and proved against its
contracts.

## Layout

- `src/` — the verified library.
  - `lexer/`: positions, Unicode character classes, escapes and a token lexer.
  - `scanner/`: the character scanner of the event parser (tokens with marks,
    indentation, flow levels, directives, tags, anchors, block and flow scalars).
  - `parser/`: the event state machine (`state_machine`, `node_parser`, `block`),
    the fast path for simple documents (`fast_path`), the document loader
    (`loader`), the grammar productions and the block and flow parsers over
    lexer tokens, and documents and streams as wholes (`documents`).
  - `parsing/`: indentation levels and their checks.
  - `linked_hash_map.rs`: the insertion-ordered map that YAML mappings use.
  - `yaml.rs`, `emitter.rs`, `deserialize.rs`, `debug_render.rs`: the value type,
    its text output, the choices a deserializer makes from a value, and the
    `Debug`-style renderings the parser puts into messages.
- `tests/` — executable tests of the library.
- `app/` — the parts that cannot be verified: the `serde` deserializer, `Display`
  implementations, and reading floats.

Public functions state their results in `ensures`. The event scanner states each
token as a function of the input, the position and the flow level (`scanned_token`),
except tags, directives and byte order marks. The event parser states what follows
from each token it reads, that every error is one the scanner reported, one of its own
named rules, or a step that stalled, and that the loader's document is the value a run
of a fresh machine over the text returned; the document is not stated as a function of
the text, and no contract says on which texts a run succeeds. Laws that relate several
functions are public proof functions next to them.

# json_schema_to_zod

Turn a JSON Schema value into Zod schema source code. The transform is proved
by Verus against a mathematical model of the output; three standard-library
and `serde_json` calls (string quoting, upper-casing a character, appending a
character) are trusted through stated contracts rather than proved.

The transform reads a JSON Schema and emits a string of TypeScript or
JavaScript that builds an equivalent Zod schema. It does not validate data.

## Layout

- `src/json.rs` — the JSON value the transform reads (`JsonValue`), its model
  (`Json`), lookups and the object edits the parsers apply.
- `src/text.rs` — JSON string quoting and the compact rendering of values
  (`JSON.stringify`).
- `src/model.rs` — what each parser emits, as spec functions of the schema
  node, the reference state and the override hook.
- `src/parsers.rs`, `src/parse_schema.rs` — the parsers and the recursive
  dispatcher, each proved equal to its model.
- `src/predicates.rs`, `src/jsdocs.rs`, `src/util.rs`, `src/types.rs` — type
  guards, JSDoc rendering, helpers, options and reference state.
- `src/lib.rs` — `json_schema_to_zod`: module wrapping, JSDoc and type export.
- `src/cli.rs` — the command line's parameter table, argument parsing, help
  text and option selection.
- `src/laws.rs` — properties of the transform as a whole.
- `app/main.rs` — the binary: process arguments, files, stdin, printing, and
  reading numbers.

## Zod versions

Output targets Zod v4 by default. Set `zod_version` to `ZodVersion::V3` for v3
idioms. The version changes only `z.record` arity and the `superRefine` error
path and issue shape.

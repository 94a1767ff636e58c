# piqel

A PartiQL query engine for semi-structured data, written in Verus: the
behaviour of each function is stated in its `requires`/`ensures` contract and
proved.

## Layout

- `src/value.rs` — the data model (`PqlValue`, objects with ordered, distinct
  keys, decimal floats), its mathematical model, and selection by paths.
  Objects are ordered lists of entries rather than a map of another crate:
  such a map, declared to the verifier, cannot hold the recursive value
  type.
- `src/pqlir_parser.rs` — the parser of the PartiQL value notation.
- `src/parser.rs` — the parser of queries (`SELECT`, `FROM`, `LEFT JOIN`,
  `WHERE`, `ORDER BY`, `LIMIT`) and of paths and arithmetic expressions.
- `src/sql/` — paths (`selector`), expressions (`expr`, `eval`), sources and
  projections (`field`), the alias environment (`env`, `bindings`,
  `bingings`), and filtering (`filter`).
- `src/planner/` — query plans: binding sources (`drain`), the `WHERE` step
  (`filter`), projection into rows (`project`), and `ORDER BY`/`LIMIT`
  (`order`).
- `src/engine.rs` — running a query written as text.
- `src/vector.rs` — columns of values combined element by element, and
  negation.
- `src/lang.rs`, `src/models.rs`, `src/text.rs`, `src/regex_support.rs` —
  format names, small models, text helpers, and regular expressions.
- `app/main.rs` — the `pq` command: reads JSON, TOML, YAML or XML, runs a
  query, writes the result.
- `tests/` — tests of the library.

## What is proved, besides the contracts

- Object read-after-write (`value::lemma_get_insert_same`,
  `value::lemma_get_insert_other`).
- Every value is valid: its objects have distinct keys at every depth
  (`value::PqlValue::check_valid`).
- Filtering a valid value is idempotent
  (`sql::filter::lemma_restrict_idempotent`).
- A path of plain keys is determined by its text
  (`sql::selector::lemma_path_text_roundtrip`).
- Expanding an expanded path changes nothing
  (`sql::env::lemma_expansion_idempotent`).
- The alias of a path names a path with the same text, when aliases are
  distinct (`sql::bingings::lemma_alias_roundtrip`); the path of an alias
  leads back to the alias, when the aliased paths have distinct texts
  (`sql::bingings::lemma_path_roundtrip`).
- The cartesian product of cells has as many rows as the product of their
  lengths (`planner::project::lemma_index_product_len`).
- A format's name reads back as that format
  (`engine::lemma_lang_name_roundtrip`).
- `ORDER BY` returns the keyed rows sorted and as a permutation
  (`planner::order::lemma_order_rows`), floats ordered by their decimal
  value; `LIMIT` returns the rows of its window that exist
  (`planner::order::lemma_limit_rows`).
- A `WHERE` that keeps nothing gives an empty result; a `LIKE` pattern
  reads `%` as any run of characters and `_` as any one character.

Arithmetic on floats is not computed by the library: it reports such
expressions as unsupported.

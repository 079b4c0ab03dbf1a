# mir_analyzer (verified core)

The verified part of a static analyzer for PHP, written in Verus.

* `src/php_version.rs` — PHP versions: parsing, ordering, the cache byte,
  and `@since`/`@removed` gating.
* `src/docblock/` — PHPDoc comments: tag bodies (`@param`, `@return`,
  `@template`, `@method`, type imports, ...), depth-aware scanning of type
  text, validation of type annotations, the one-level reading of a type
  expression (`type_syntax`, `generic_syntax`: unions, shapes, callables,
  conditionals, generics, keywords), the reading of a type text into a
  type tree (`parse_type`: shapes read into their entries, `key-of` and
  `value-of` resolved against array types; callables and conditionals kept
  as their one-level parts), `int-mask` expansion, and the
  tag-by-tag reading of a whole docblock (`DocblockParser::parse`).
* `src/type_hint.rs` — what a declared type hint (keyword, class name,
  `?T`, union, intersection) stands for.
* `src/condition.rs` — how a branch condition's `!`, `&&`, `||` and
  parentheses decide what is narrowed.
* `src/parser.rs` — finding the docblock before a declaration, source text
  of a span.
* `src/narrowing.rs` — what an integer comparison proves about a value.
* `src/type_narrowing.rs` — how `===`, `!==`, `<`, boolean and string
  comparisons narrow a type, atom by atom.
* `src/leaf_narrowing.rs` — what a condition on a value proves: null
  checks, `instanceof` and `||` chains of it (against class facts handed
  in), the `is_*()`, `ctype_*()` and `method_exists()` checks, integer
  comparisons and literal identity, combined through `!`, `&&`, `||`.
* `src/parse_cache.rs` — a bounded FIFO cache of parse results.
* `src/pass1_cache.rs` — the per-file store of first-pass snapshots.
* `src/reverse_deps.rs` — the reverse dependency graph between files.
* `src/trait_constraints.rs` — unmet `@psalm-require-*` requirements of a
  used trait.
* `src/project.rs` — the file walk's rule and the dead-code issue kinds.
* `src/analysis_result.rs` — counting issues and finding the symbol at an
  offset.
* `src/reference_key.rs`, `src/perf_fixture.rs` — small supporting types.
* `src/text.rs` — character-level string helpers shared by the above.

`app/` holds what stays outside verification: the file-system walk and
probes, the error type with `Display`, and conversions from the PHP parser
crates' types.

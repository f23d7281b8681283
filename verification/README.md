# i_lang

The front end of a small indentation-sensitive functional language, written
in Verus: every stage is an executable function whose result is stated exactly
over a mathematical model and proved.

- `lex`: bytes to tokens, with `Newline`, `Indent` and `Dedent` for layout
  (`lex_spec`; `lex/laws.rs` proves the layout, span, line-continuation and
  bracket laws).
- `parse`: tokens to syntax trees, by a recursive-descent grammar stated as
  spec functions in `parse/grammar.rs`.
- `ast/print.rs` and `pretty.rs`: the S-expression form of a tree and the
  source form of a file.
- `resolve`: top-level names (variants define constructors), local scopes
  (lambda parameters, match arms, block bindings, `self` in methods),
  constructor and record names in patterns, the type names of annotations,
  fields and variant payloads, and the `use` graph of a project;
  `resolve/laws.rs` proves that the cycle search misses no cycle.
- `check`: type inference with unification (`check/unify.rs`), in phases:
  - impl declarations are registered (an unknown trait, a second impl of a
    trait for one type, and missing or unknown methods are reported);
  - declared types are registered with their lowered bodies, and each
    variant's constructor gets a scheme built from its payload
    (`check/declare.rs`);
  - each top-level value gets a type variable, so that a value may use one
    declared after it;
  - methods are checked with `self` of their type and registered
    (`check/methods.rs`);
  - each value is checked, a lambda against its annotation, and then
    generalised over the variables no other binding holds; trait
    obligations on variables become the scheme's constraints, wait, or are
    reported ambiguous (`check/general.rs`).

  Operators are typed through the operator traits against the impls;
  matches on sum types are checked for coverage (`check/exhaust.rs`).
  `check/laws.rs` states what substitutions, unification and impl
  registration keep.

`assoc.rs` holds the association map that stands where a hash map would, and
`text.rs` the few calls into the standard library that the proofs take on
trust.

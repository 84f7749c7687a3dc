# language_parser

A small compiler pipeline, verified with Verus: a lexer, a recursive
descent parser, a type checker, a generator of three-address code (TAC) and
an interpreter for that code.

```
lp> let x = 2 + 3 * 4; return x;
→ 14
```

The language has `let` (with an optional type), assignment, `return`,
blocks, `while` and `if`/`else`, integer, float, string and boolean
literals, arithmetic, comparisons and `&&`/`||`.

## Layout

- `src/lib.rs` — `compile` and `compile_and_run`, their specifications, and
  the laws that relate the whole pipeline to direct evaluation.
- `src/phases/` — `lexer`, `parser`, `semantic` (type checking), `codegen`;
  `code_shape` proves that generated labels are defined once and jumps
  resolve; `evaluation` defines direct execution of programs and proves that
  running the generated code agrees with it.
- `src/interpreter.rs` — the TAC machine, specified step by step.
- `src/symbol_table.rs`, `src/assoc.rs` — scoped symbol table over
  association lists.
- `src/token.rs`, `src/ast.rs`, `src/tac.rs`, `src/error.rs`, `src/text.rs` —
  data types, their views, and text rendering.
- `app/main.rs` — the interactive prompt.
- `tests/` — scenario tests.

Every executable function states its result exactly in terms of spec
functions over the views of its arguments.

## Design choices

- **Float literals.** The verified library holds no floating-point numbers,
  so a float literal is kept as the decimal text it was written with
  (`Token::Float(String)`, `Expr::FloatLit(String)`). Two things follow.
  In generated code its value is the integer its leading digits write,
  saturated at `i64::MAX`; converting through `f64` would round first, so
  `0.99999999999999999` would give 1 there and 0 here, and integer parts
  of 2^53 and above can differ. In syntax-error messages the token shows
  its text as written (`Float(1.50)`), where `f64`'s `Debug` would print its
  shortest form (`Float(1.5)`).
- **Arithmetic.** The interpreter's `+`, `-` and `*` wrap around on overflow,
  `i64::MIN / -1` gives `i64::MIN` and `i64::MIN % -1` gives 0; division and
  remainder by zero give 0. Plain `i64` operators would panic on overflow in
  a debug build and wrap in a release build; the library fixes one defined
  result so that every run is specified and never panics.
- **Bounded runs.** `Interpreter::run` executes at most `MAX_STEPS`
  (2^64 − 1) instructions, so that its loop provably ends; a program that
  runs longer gives no value.
- **Source length.** `compile` and `compile_and_run` take sources of at most
  `MAX_SOURCE_LEN` characters, a bound no real input reaches; the prompt
  checks it.
- **Maps keyed by names.** The symbol table's scopes and the interpreter's
  memory are `assoc::NameMap`, a vector of (name, value) pairs whose view is
  a `Map` in which later entries win. vstd's specification of `HashMap` with
  `String` keys lets Verus prove next to nothing about lookups (its key
  model needs keys whose equality and hashing Verus can see), so the exact
  contracts of lookup, declaration and memory access could not be proved
  over it; over the vector they are.

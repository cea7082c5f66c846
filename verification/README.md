# Writ, verified

The toolchain of Writ, a small language whose safety rests on two static
checkers (capabilities: *what may this code do?*; contracts: *is the answer
right?*), written in Verus: each stage states what it computes in `requires` /
`ensures` over spec functions, and Verus proves the code meets it.

Pipeline: source → `lexer` → `parser` → AST → checkers (`resolve`, `types`,
`effects`, `authority`, `capabilities`, `taint`) → `lower` (linking and
contract desugaring) → `interp` (tree-walking evaluator) or `codegen` (C text),
with `smt` / `verify` for optional static proof of contracts and `driver`
wiring the passes together.

Layout:

- `src/` — the verified library. The spec side of each stage sits beside it:
  `grammar` (the grammar the parser follows), `typing` (the typing rules),
  `semantics` (evaluation), `ty`, `calls`, `ops`, `env`, `value`.
- `tests/` — tests of the library on concrete programs.
- `app/` — the command-line driver (`check`, `run`, `build`, `verify`): file
  reading, printing, the external C compiler and SMT solver. Which module
  files to read next is decided by the library (`driver::imports_to_load`).

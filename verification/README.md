# xiyi_compiler

The verified middle of a compiler for the Xiyi language: parsing of types, literals,
function headers and models, the rules of the type checker, and the passes over the
mid-level representation (MIR). Every function of `src/` carries a contract that Verus
proves.

## Layout

- `src/ast.rs`, `src/expr.rs`, `src/item.rs`, `src/mir.rs`: the data types. Each has a
  ghost model, whose name ends in `V`, reached through `deep_view`.
- `src/syntactic/`: the parser. A contract gives the value that is read and the place
  after it, as a function of the tokens, the scopes and the place before.
- `src/semantic/`: the type checker's rules: equality of types, privacy labels, exact
  rationals, methods, functions, blocks, and the order in which a program is checked.

  How expressions and statements are parsed, checked and evaluated is supplied by the
  caller, as functions that are handed the parser, the checker or the builder and hand
  it back. A contract then says which supplied functions are called, on what and in
  which order, and what is made of their results.
- `src/intrinsic.rs`, `src/intrinsic_check.rs`, `src/const_eval.rs`: built-in functions
  and constants, the types of their calls, and constant integer arguments.
- `src/builder.rs`, `src/guide.rs`: the state of the MIR builder, and places.
- `src/calc.rs`, `src/fold.rs`, `src/simplify.rs`: constant folding and propagation.
  `src/float.rs` and `src/float_text.rs` compute with floats on their bit patterns.
- `src/cfg.rs`, `src/control.rs`: clean-up of the control-flow graph.
- `src/liveness.rs`, `src/init.rs`, `src/borrow.rs`: the borrow checker.
- `src/mangle.rs`, `src/concrete.rs`, `src/monomorphic.rs`: instances of generic items.
- `src/run.rs`, `src/machine.rs`: what it means to run a body.
- `src/*_laws.rs`: what holds of the passes as a whole, such as that a simplified body
  runs as the body did. `src/control_stable.rs`: a simplified body is left as it is.
  `src/simplify_back.rs`: what an optimised body yields, the body yields.
- `app/`: ordinary Rust around the library: floats, files, and adapters that supply the
  parser and the checker of expressions.
- `tests/`: tests on concrete values.

## What is taken on trust

Two facts of the standard library: what `String::push` does (`src/text.rs`), and that
the debug text of a string depends on the string alone (`src/debug.rs`).

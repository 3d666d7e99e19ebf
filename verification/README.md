# ipe_core

The core of the Intent Policy Engine: a small policy language (lexer, parser, type
checker), a compiler from policies to stack bytecode, the bytecode interpreter, a
plan for native code generation, adaptive tiering, versioned policy snapshots, and
stores of approvals and relationships with scopes and expirations.

The library under `src/` is written in Verus. Each public function states what it
returns or changes in terms of mathematical models (`Seq`, `Map`, spec functions
over the syntax trees and the bytecode), and the public proof functions
state properties that relate several operations (what an update leaves in a
snapshot, what a grant or revocation does to later checks, scope isolation, the
shape of generated code).

Layout:

- `src/parser/`: tokens, lexer, the grammar as spec functions, and the parser
  proved against it.
- `src/ast/`: policy syntax trees and the type checker.
- `src/compiler.rs`, `src/bytecode.rs`, `src/interpreter.rs`: code generation,
  instructions and values, evaluation; `src/code_size.rs`: a bound on compiled code
  size, checked before compiling.
- `src/jit.rs`, `src/tiering.rs`: the native-code plan and the tiering rules.
- `src/store.rs`, `src/index.rs`: policy snapshots, updates and indexes.
- `src/approval.rs`, `src/relationship.rs`, `src/rar.rs`: approvals,
  relationships (with a breadth-first chain search) and the evaluation context.
- `src/kv.rs`, `src/attrs.rs`, `src/text.rs`, `src/clock.rs`: sorted key-value
  storage, attribute maps, text helpers and the clock.
- `app/`: the HTTP service, the threaded policy data store, serialization,
  the AST visitor and code emission with Cranelift.
- `tests/`: the test suite, run against the compiled library.

# semantics

Semantic checking for the Tyu language, written in Verus: every function in
`src/` carries a contract that Verus proves.

- `types`, `tokens`, `ast`, `lit`, `numbers`, `parse`: type atoms, spans,
  tokens, declarations, and the signature / type-expression parsers.
- `error`: the diagnostics (`TcError`) with their numbers and spans.
- `effects`, `context`: effect and capability sets, stack bounds, and the
  context-frame stack that folds what the enclosing scopes grant and forbid.
- `db`, `mmio`, `regmap`, `mmiodb`: the resource, nominal, iso and MMIO
  databases built from a module, register-map validation and MMIO place
  resolution.
- `typeops`, `value`, `borrow`, `names`, `builtins`, `output`, `trace`:
  stack values and their types, signature application, the borrow ledger,
  token-level name and place reading, the builtin word table and trace text.
- `stackcheck`, `wordcheck`: the stack-effect checker for word bodies,
  quotations, scoped blocks and the control words, and the stack-check
  listing of a module.
- `irtypes`, `scopes`, `arena`: what the lowering to IR needs of types,
  places and quotation signatures, the borrow-scope bookkeeping, and the
  bounded word arena.  The lowering itself (choosing the IR instructions
  for a word) is not part of this library.

`tests/` exercises the library on concrete inputs.

# chasm_amine

A compiler from the Chasm intermediate representation to Amine assembly,
written in Verus. Every function carries a contract over mathematical views
(strings as `Seq<char>`, bodies as `Seq`s) and is proved.

Layout of `src/`:

- `chasm.rs`, `amine.rs`: the source and target instruction types and their views.
- `allocation.rs`: where each variable lives (`determine_allocations`) and the
  frame layout (`find_offsets`).
- `vars.rs`: the scopes of names during compilation.
- `optimize_chasm.rs`: simplification of Chasm code before compiling it.
- `optimize_amine.rs`, `optimize_amine/rule.rs`: the peephole pass over Amine code.
- `codegen.rs`: compilation of instructions and sections.
- `lib.rs`: `compile_chasm_to_amine`, the whole program.

The `law_*` proof functions state properties of the library as a whole, such
as the idempotence of both optimizers.

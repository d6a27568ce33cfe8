# pinocchio

Entrypoints and allocators for Solana programs, verified with Verus.

- `src/` is the library: the deserialization of a program's input
  (`entrypoint`, `entrypoint::inline`), the program heap (`allocator`), the
  codes that the runtime is given (`error`), and the description of the input
  as the loader builds it, with the laws that hold of it (`serialized`).
- `app/` is for the raw pointers that the runtime passes: the entrypoint macros,
  the global allocators and the panic handlers. It turns pointers into slices
  for the library and its results into the types of the account crates, and is
  not verified itself.
- `tests/` runs the library on inputs and heaps of known contents.

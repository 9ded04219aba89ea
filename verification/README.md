# sloth

Front-end data structures and passes of the Sloth compiler, verified with
Verus.

- `src/` is the verified library: source locations, the abstract syntax of
  the Sloth and Ein languages and of the core intermediate form, their
  bottom-up transformations, the type environments of modules, type
  resolution and extraction, the desugaring of function-typed arguments,
  the qualification of top-level names, module interface paths and the
  planning of command builds. The public proof functions state the laws
  that relate several calls.
- What the linker answers when a command is built is up to the `Linker`
  that the caller supplies; the library states which object files it is
  handed.
- The compilation of modules to the intermediate representation of the
  `ssf` crate is not part of this crate: the versions of `ssf` that can be
  had lack the declarations and thunk definitions that it produces.
- `tests/` runs the library on concrete values.
- `app/` holds what the library cannot: serialisation, operating-system
  paths, external commands, archives and code generation through LLVM.

# capnpc_embedded

Compile Cap'n Proto schemas from a build script with an embedded, in-process
schema compiler (a WebAssembly build of `capnp`, run by the `wasmi`
interpreter), and hand the resulting `CodeGeneratorRequest` to `capnpc`.

Layout:

- `src/` — the verified library (Verus):
  - `command.rs`: the `CompileCommand` builder and its abstract view;
  - `path.rs`: the host path grammar (Unix, Windows with its prefixes) and the
    rewriting of host paths into the compiler's single POSIX root, with the
    laws it obeys (absolute; depends only on the components after the prefix;
    identity on canonical paths; idempotent on Unix, and on Windows for paths
    whose components hold no `/` that splits them further; no `\` on
    Windows);
  - `host.rs`: the preopened root and path resolution (`join`, `abs`), with
    the laws of resolution (absolute paths ignore the working directory,
    resolving twice changes nothing, joining a plain name extends the guest
    path by that name);
  - `runner.rs`: the compiler's command line, the staging location of the
    standard schemas, and the meaning of a finished run;
  - `error.rs`: the error type and its messages.
- `app/` — the host side: filesystem and environment access, the `wasmi`
  engine, temporary directories, and `capnpc` code generation.
- `tests/` — tests of the library.

The compiler module (`assets/capnp.wasm`) and the standard schemas
(`assets/capnp-include/`) are build artifacts that `app/` embeds.

# yarrow_core

The core of the Yarrow language toolchain as a Verus-verified library: the
parser and its syntax tree, diagnostics (spans, batches, rendering, the
error-code catalogue), physical types with their layouts and container codes,
the declaration passes of the compiler, the interpreter's operators and
tables, target-triple selection, link arguments, and the bookkeeping of a
walk over `require` edges. Verus checks every function in `src/` against
its `requires` / `ensures`; calls into `target-lexicon`, `cranelift-codegen`
and a few `std` functions sit behind small trusted wrappers whose doc
comments say what is assumed of them.

Layout:

- `src/` — the verified library.
  - `parser/` — recursive descent over tokens, literal decoding, the AST.
  - `diagnostics/` — spans, source files, batches with an error cap,
    annotated rendering, code explanations.
  - `compiler/` — types and layouts, declarations, lowering helpers, errors,
    module loading and `require` sites.
  - `interpreter/` — runtime value kinds, operators, stack shuffles, the
    registry of declared types, and the machine state.
  - `target.rs`, `link.rs`, `runtime.rs`, `entry.rs` — ahead-of-time target
    choice and the linker command lines.
  - `session.rs`, `project.rs`, `analysis.rs` — session options, multi-root
    projects, and the indexes kept after a check.
- `tests/` — ordinary Rust tests run against the compiled library.
- `app/` — the unverified shell around the library.

Not in this crate: the tokenizer, code generation through Cranelift's
function builder and JIT, and evaluation against the runtime's heap; they
live with the toolchain's other crates.

# vaab_vm

The virtual machine of the Vaab language, written in Verus: the values a
program works on, the instruction set, the machine that runs one
instruction after another, the scheduler that shares the machine among
tasks and channels, and the pieces of the standard library the machine
leans on (text, JSON, logging, bearer tokens, the store overlay, the query
rules of the embedded store). The functions of `src/` carry contracts
that Verus proves, except a few small functions marked
`#[verifier::external_body]` that call `serde_json`, `hmac`, `hex` or a
function of `std` that Verus has no specification for; their contracts are
believed, not proved, and each says in its doc comment what it claims.

## Layout

- `src/` — the verified library, one module per part of the machine.
- `tests/` — tests run against the compiled library.
- `app/` — ordinary Rust around the library: the run loop, threads, files,
  the environment, HTTP, SQLite and redb, SQL text built with `sea-query`,
  floating-point work, and the Cranelift side of the native code tier.

## What is not here

- The compiler from source text to bytecode. It reads the syntax tree and
  the checker's results, which come from the language's own parser and
  type-checker crates; those are not part of this repository, so programs
  are given to the machine as bytecode (`Program`).
- The native tier's machine code. Which bodies may be compiled
  (`jit::is_eligible`) and what each becomes (`jit::native_plan`: one block
  per instruction control reaches, each a list of whole-number steps and an
  exit) are decided in the library; handing that plan to Cranelift and
  calling the result goes through `unsafe`, and stays in `app/`.
- Floating-point arithmetic. The library hands it out as a request and
  takes the answer back; `app/` computes it.

## Notes on the design

- Maps keep their entries in the order they were first inserted, as
  `indexmap` does; the library holds them as a `Vec` of entries with its
  own key search (`value::table_insert`, `value::find_key`), because the
  map's keys are values whose hashing `indexmap` would need an impl of
  `Hash` written by hand for.
- JSON is read and written with `serde_json` from the library (`json::
  decode_record`, `json::encode`); which JSON a value stands for, and which
  record a JSON object makes, are the library's own verified functions.

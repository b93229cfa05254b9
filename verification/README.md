# agent_doctor

Guardrails for coding agents working on TypeScript repositories, written in
Verus. The functions in `src/` carry contracts that Verus proves, except the
few marked `#[verifier::external_body]` that call the parser (oxc),
`serde_json` or std: their contracts are trusted, and their doc comments say
what each claims of the call it makes.

## Layout

- `src/` — the verified library.
  - `merge/` — semantic three-way merge of a module's top-level items
    (`items.rs` splits a file into keyed items, `mod.rs` merges them,
    `laws.rs` states what the merge guarantees as a whole).
  - `ledger/` — the task ledger: dependency scheduling, cycle detection
    (`laws.rs`: lookups after updates, schedulability, progress).
  - `text.rs` — byte offset to line/column and code-frame lines.
  - `diagnostics.rs`, `config.rs` — findings, rule metadata and the
    per-workspace overrides of `agent-doctor.toml`.
  - `file_length.rs`, `tsconfig.rs`, `ts_directives.rs`, `design_system.rs`,
    `react.rs`, `single_use.rs` — the project-level checks.
  - `init.rs` — design-system detection and the generated config.
  - `mcp.rs` — how the MCP adapter decodes each message line and which
    reply it owes.
  - `syntax.rs`, `json.rs` — the trusted calls into the TypeScript parser
    (oxc) and `serde_json`, with what is promised of their results.
  - `strings.rs`, `sorted.rs` — string helpers and byte-wise string order.
- `tests/` — tests of the library's public functions.
- `app/` — the `agent-doctor` program: argument handling, file and process
  I/O, TOML/JSON decoding, prompts, and the MCP stdio transport.

# adrproof

Architecture decision records (ADRs) with machine-checkable rules, checked
against a project's facts, with evidence whose currency is tracked.

The library under `src/` is written in Verus and verified. A few small functions
in it call outside code (SHA-256, Ed25519, Base64, UTF-8 decoding, `Debug`
quoting, JSON string literals); their contracts are trusted rather than proved, and each says so in its
doc comment. `app/` is the command line around the library (file and process
I/O, JSON, the Z3 and Quint processes).

Layout of `src/`:

- `text`, `keyed`, `sorting`: character sequences, key-ordered vectors, stable sort.
- `adr`, `document`: the ADR model, ADR documents (front matter and `adrlogic`
  blocks) and the rule expression parser; `adr_of` states what a document holds.
- `typecheck`, `effective`, `lowering`, `smt`: the effective specification, its
  typing, its lowering to the project model and the SMT-LIB problem.
- `cargo`, `roots`, `loading`, `assembly`: workspace facts, logical input
  identities (and that they resolve back), the closed-world facts and the assembled project model.
- `check`, `solver`, `evidence`, `readback`: checks, solver output, evidence and
  its currency; `readback` proves that recorded evidence reads back.
- `query`, `graph`, `diagnosis`, `policy`, `scenario`: reports over the model,
  impact across every kind of dependency, and the judgement of scenario runs.
- `native_test`, `correspondence`, `quint`, `model_stats`, `model_bindings`: evidence
  providers; `model_bindings` checks a model's `pure val` declarations against the
  configured constants and bounds.
- `external`: the external fact provider protocol: judging a finished provider
  process, its response header, declared inputs and response body.
- `inventory`, `gate`: the requirement inventory and the release gate.
- `snapshot`: pinned fact snapshots and the conditions under which they are accepted.
- `bundle`: signed evidence bundles.
- `edge_text`: facts about the JSON text that orders graph edges.
- `sql_migrations`: the migration series of a PostgreSQL project: the order of the
  migration files, the effective schema they leave behind as data, the facts that
  schema yields, what a child table inherits, and how `DO` blocks are classified.

Not part of the library: reading the migrations' SQL (it goes through a
PostgreSQL parser that could not be built, so nothing fills the effective schema
from SQL text here), formalization reviews, and the preparation commands of the
inventory and of release checks.

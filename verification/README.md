# nutmeg

Grust's graph algorithms over named, in-memory graphs: Arrow edge and node
rows are staged under a name, kept in a canonical order, and read back through
any algorithm Grust registers, under one memory budget. The library is
written in Verus; its contracts are proved.

## Layout

- `src/` — the verified library.
  - `registry.rs`: the registry of graphs, reads and output schemas.
  - `store.rs`: staged graphs, writes a batch at a time, listing, dropping.
  - `order.rs`, `sizes.rs`, `nodes.rs`: canonical order, the memory bounds
    admitted before a sort or a derivation, and nodes derived from edges.
  - `layout.rs`, `columns.rs`: how input columns map to the structural
    layout, and the Grust or GDS names of output columns.
  - `runs.rs`, `reads.rs`, `budget.rs`, `limits.rs`: projections, kernel
    runs, the read log, admissions against the budget, per-read limits.
  - `calls.rs`, `options.rs`, `catalog.rs`, `source.rs`, `tables.rs`: call
    configurations, the algorithm catalogue, data source plans and the
    table functions' logic.
  - `frame.rs`: every call into Arrow, each one a small wrapper whose
    contract is trusted; `text.rs`, `error.rs`: text and errors.
- `app/` — DataFusion providers, plans and streams around the library, the
  process-wide registry and the environment it reads.
- `tests/` — the library's tests.

Calls into Arrow, Grust and serde_json stand behind wrappers marked
`#[verifier::external_body]`; each says in its doc comment which function it
calls and what its contract claims of it.

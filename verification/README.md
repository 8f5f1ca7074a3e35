# adoc_core

The domain core of a documentation-governance tool for Knowledge Objects
(claims, decisions, policies, constraints, agent instructions), written in
Verus: each function's behaviour is stated in `requires` / `ensures` and
proved.

## Layout

- `src/`: the verified library.
  - `graph.rs`, `identifiers.rs`, `logical_path.rs`, `rel_path.rs`: the
    graph artifact model and its identifier grammars.
  - the change-assessment module: object diffs, the field-level
    projection of a change, the proof obligations and sign-off owners a
    change requires, impact analysis.
  - `managed/`, `managed_state.rs`: workspace-qualified identities,
    imports, reconciliation decisions, and the append-only managed state
    event log with its audit sink and replay.
  - `obligation.rs`, `obligation_record.rs`: obligations, their ledger,
    waivers and policy classification.
  - `managed_field_provenance.rs`, `managed_field_declassification.rs`,
    `proposal.rs`, `patch.rs`, `project_config.rs`, `migration.rs`: the
    validated documents and requests of the tool.
  - `retrieval/`: tokenization, the lexical index, record filters, and the
    pinning and merging of ranked results.
  - `sorted.rs`, `sorted_map.rs`, `string_set.rs`, `text.rs`: ordered
    collections and string helpers with their proofs.
  - `calendar.rs`: calendar dates and timestamps, parsed by chrono.
- `tests/`: ordinary Rust tests against the compiled library.
- `app/`: the unverified shell: YAML and JSON reading and writing through
  serde, and the floating-point ranking of search results.

Laws that relate several functions stand as public proof functions named
`lemma_*` beside the functions they speak of.

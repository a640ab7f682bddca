# ferrodoc

Deterministic document-conversion core, written in Verus. The library states its
behaviour in `requires`/`ensures` contracts over mathematical models (`Seq`, `Set`,
`Map`, views of each type) and proves them.

Layout:

- `src/` — the verified library: identities and digests, quantities, capabilities and
  devices, the document IR and its validation, evidence deltas and document states,
  the engine contract and blob registry, the resource scheduler, the candidate planner,
  enrichment planning (scopes, coverage, plan combinations and their Pareto frontier),
  PDF admission and text-derived page hints, rendering, the router, experiment ledgers,
  model manifests and installs, and the doctor report.
- `tests/` — executable tests against the compiled library.
- `app/` — the command-line program around the library: argument and environment
  reading, JSON wire types, file I/O, and the floating-point parts (geometry, training
  objectives, storage summaries).

SHA-256 comes from `sha2` and hexadecimal coding from `hex`, each behind a small trusted
wrapper whose contract names what the library relies on.

# lean_multisig_bindings

The verified core of the lean-multisig language bindings and of the
lean-multisig / Lighthouse BLS comparison benchmarks, written in Verus.

- `src/` — the library, proved with Verus:
  - `claim_context` — the `LMCG` claim-context codec, with encode/decode round-trip laws;
  - `bindings` — argument checks of the Python, Node.js and C bindings, status codes and
    the last-error slot, short hexadecimal renderings, aggregation-error classes;
  - `config`, `paths`, `diagnostics` — the comparison runner's command line, report-path
    collisions and error messages, with the law that accepted settings keep their limits;
  - `batch` — calibration, batching, normalization and paired sampling of timings;
  - `summary`, `report` — sample medians and report export;
  - `fixtures` — deterministic key material and fixture plans.
- `tests/` — tests of the library.
- `app/` — the runner's `main`, file and clock I/O, floating-point report columns, and the
  FFI, napi and pyo3 glue around the signature libraries.

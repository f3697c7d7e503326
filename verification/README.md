# vantage

A knowledge-runtime kernel written in Verus: executable Rust whose behaviour
is stated in `requires`/`ensures` contracts and proved.

## Layout

- `src/` — the verified library.
  - `base`, `tx`, `runtime`: identifiers, mutations and receipts; batches
    compiled to dependency graphs; the temporal resource index with staged,
    atomic commits and the epoch lifecycle.
  - `pek`, `trust`, `node`: proof-gated admission, certificates, trust
    policies and revocation, and a serving node's epoch step.
  - `prn`: elections of the next epoch and meta-elections over bundles.
  - `types`: the structural engine — commutativity tables and resolvers,
    canonical forms and their hashes, scopes and symbol interning,
    incremental rebuilds and caches, node identities, the unified graph and
    the drift between two of its snapshots.
  - `vfp`: federation views, alignment of nodes and its closure, federation
    states, prediction claims and the capital ledger.
  - `client`, `metrics`, `benchmark`: the client interface, reality metrics
    and the benchmark tallies.
  - `clock`, `text`: the trusted clock calls and verified string helpers.
  - `laws`: properties that span several operations.
- `tests/` — tests of the library on concrete values.
- `app/` — the daemon and what cannot be verified here: I/O, serde copies of
  the library's types, and the parts computed with floating point.

Outside calls (SHA-256, XXH3, `{:?}` rendering, the clocks) sit behind small
trusted wrappers whose contracts say what the call gives; everything else in
`src/` is proved.

# pastey_physical

A verified library for the decisions a Pastey Host makes about physical
action authority, natural-language plan lowering, native-v2 product plans,
peer capability facts, object references and scoped network brokerage.

- `src/` is the library, written in Verus: every function has a
  `requires`/`ensures` contract and is proved against it. Laws that relate
  several operations stand as public proof functions beside them.
  - `natural_v2`: lowering a candidate plan into a Composer request and its review.
  - `native_v2`, `native_v2_product`: the product protocol's identities and
    the requester's product ledger (revisions, attempts, barriers, steps).
  - `network`, `network_broker`: network scopes and destinations, and the
    broker's grant ledger.
  - `physical`: review scopes, the Core service (reviews, approvals, roots,
    grant bases), the audit ledger, the enrollment registry, the durable
    control facts and the live control lanes. Stored audit rows and registry
    facts are audited by `PhysicalLedgerV1::restore`,
    `PhysicalBindingRegistryV1::restore` and `ControlLedgerV1::restore`
    before they become state again.
  - `json`: a JSON value type and its canonical encoding (sorted keys,
    integers only).
  - `peer_capabilities`, `object_refs`, `identity`, `hashing`, `encode`,
    `text`, `values`: supporting types and checks.
- `tests/` runs the library with its outside crates linked.
- `app/` is ordinary Rust around the library: JSON wire forms, the system
  clock, the system resolver and sockets.

# freenet_todo

A shared todo list for Freenet: tasks and completion toggles signed with
Ed25519, kept in a state that replicas merge; private per-task notes kept by
a delegate in its secret store; and a browser client that signs what its
user adds.

## Layout

- `src/` — the verified library (Verus).
  - `todo.rs`: signed tasks and toggles, the bytes their authors sign,
    signature checks, `TodoState::validate` and `TodoState::merge`. An
    entry counts only under the id it was signed for; two tasks under one
    id are decided by signature, two toggles by timestamp, then signature.
  - `laws.rs`: the signed messages tell entries apart, and the merge laws
    (commutativity, associativity, idempotence, identity, re-delivery,
    validity preserved, nothing forgotten, only signed entries admitted).
  - `contract.rs`: validating a state, folding updates into it, summaries
    and deltas, over already-decoded payloads; deltas commute, and one
    delta round brings a peer up to date.
  - `delegate.rs`: note keys per web app, listing notes, and the mapping of
    requests to secret-store operations and of the store's replies to
    responses; against a store that keeps what it is given, a saved note or
    identity is read back.
  - `client.rs`: the WebSocket address, key files, the signing identity,
    the signed deltas the client sends, and what it does with each reply of
    the notes delegate.
  - `text.rs`: decimal and hexadecimal text, UTF-8 decoding.
  - `crypto.rs`, `base58.rs`: the calls into `ed25519-dalek` and `bs58`.
- `app/` — the Freenet entry points (contract, delegate, wasm client) and
  the JSON encodings; beyond routing host messages to the page, no decision
  is made there.
- `tests/` — tests of the library on concrete values.

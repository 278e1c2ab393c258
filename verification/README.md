# dare

A small account-based blockchain written in Verus.

- `src/` is the verified library: hex and decimal encodings (`text`), the
  SHA-256 and Ed25519 primitives behind trusted wrappers (`crypto`), Merkle
  roots (`merkle`), transactions and wallets, blocks, the balance ledger and
  key registry (`ledger`), the chain itself (`blockchain`), node messages and
  the handling of a received message (`message`, `network`), and the plain
  form in which a chain is saved and read back (`storage`).
- Balances and public keys are kept in association lists in which no key
  occurs twice, each mirrored by a ghost `Map`, rather than in `HashMap`s.
  vstd's `HashMap` specifications describe lookups and inserts only for key
  types that satisfy `obeys_key_model`, which vstd establishes for integer and
  `bool` keys but not for `String`; it could only be assumed, which this crate
  does not do. The lists are verified against their maps directly.
- `tests/` exercises the library with the real `sha2` and `ed25519-dalek`.
- `app/` is the demo program: TCP nodes on tokio, JSON wire copies of the
  message types, and saving/loading the chain to `chain.json`.

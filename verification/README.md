# seer

The verified core of the Seer protocol node extension, written in Verus.

- `src/token.rs` — the Seer token ledger (balances, allowances, total
  supply) with its state model and the laws it keeps; amounts are 256-bit
  (`src/amount.rs`, arithmetic through `alloy_primitives::U256`) and
  accounts are 160-bit addresses (`src/address.rs`).
- `src/db.rs`, `src/label_codec.rs` — the label database over a
  `trie_rs` trie, and its byte format.
- `src/capabilities.rs`, `src/heuristics.rs`, `src/nodes.rs`,
  `src/exex.rs` — what the capabilities, heuristics and node providers
  compute before they talk to the network.
- `src/primitives/`, `src/config.rs` — trading primitives and node
  configuration.
- `app/` — the node extension itself: reth plumbing, HTTP reporting,
  serde shapes and the shared, locked token.

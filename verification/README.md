# blockchain

A proof-of-work ledger (currency RTC) verified with Verus: SHA-256 block and
transaction hashes, Ed25519 signatures, balances, a mempool and chain
validation.

Amounts are `i64` counts of hundredths of a coin (`5000` is 50 RTC). The text
that goes into hashes writes them as the coin value (`50`, `0.5`), and the JSON
of a block's transactions writes them the way `serde_json` writes a float
(`50.0`).

- `src/` — the verified library:
  - `text.rs` decimal, hex, JSON-string and amount encodings;
  - `primitives.rs` the trusted calls into `sha2`, `hex`, `ed25519-dalek`,
    `rand`, `chrono` and `String::push`;
  - `transaction.rs`, `block.rs`, `merkle.rs`, `mining.rs`, `wallet.rs`;
  - `address_map.rs` the address-keyed maps of balances and public keys;
  - `blockchain.rs` the chain, mempool, transfers, mining and validation;
  - `report.rs`, `diagram.rs` the printed description of a chain and the
    Merkle tree drawing, as lines of bytes.
- `tests/` — tests run against the compiled library.
- `app/` — the demonstration program (wallets, transfers, mining, an attack),
  which prints what the library computes.

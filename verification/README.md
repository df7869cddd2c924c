# tidebound

Verified core of the Tidebound overworld contracts, written in Verus.

- `src/terrain.rs` — one octave of fixed-point Perlin noise (grid cell, corner
  weights, SHA3-picked gradients) and the averaged, scaled terrain height.
- `src/perlin.rs` — the Perlin noise contract: stores computed heights by point.
- `src/tidebound.rs` — the overworld contract: player registry and world seeds
  (`Sha256(account || name) XOR randomness`).
- `src/store.rs` — contract storage as aligned key/value columns, with its map view.
- `src/arith.rs` — saturating arithmetic with exact contracts.
- `src/digest.rs` — the SHA3-256 and SHA2-256 calls (trusted wrappers).
- `src/laws.rs` — properties relating several operations.
- `app/lib.rs` — the chain-facing edge: message caller, beacon reply, SCALE copies.

# transmuter

A verified core for a transmuter contract, written in Verus.

- `src/` is the library. `contract.rs` holds the two-denomination contract
  (instantiate, supply for shares, one-to-one transmute, admin change,
  withdrawal, queries) over `transmuter_pool.rs` and `shares.rs`.
  `swap.rs` holds the swaps against the multi-asset pool of `asset_pool.rs`,
  including minting and burning the alloyed asset (`alloyed_asset/`).
  `math.rs` converts amounts between normalization factors on top of
  cosmwasm-std's 256-bit `Uint128` multiplication.
- Rate limiters are not modelled: the crate holds no limiter state and
  computes no limits. Each pool-changing swap returns a `LimiterStep`
  (check and record the weights, skip when the pool is empty, or reset and
  deregister after a forced exit of corrupted assets). The limiters, which
  `app/` takes in through its `RateLimiters` trait, take that step, and
  `Transmuter::settle_limits` settles the swap with their outcome: a refused
  limit check undoes the swap with the limiter's error.
- `tests/` runs the library on concrete values.
- `app/` is the contract glue: storage, address validation, bank queries,
  and turning the library's plain responses into chain messages.

Every state change of the library is stated exactly in its contract; a
refused operation changes nothing. The laws (`law_*` proof functions and the
`wf` clause kept by every contract operation) state what holds across
operations: shares always add up to the pool's value, a transmutation is one
to one, rounding never favors the swapper, and what joins a pool can leave it
again.

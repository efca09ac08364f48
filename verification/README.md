# unipos

The UniPoS staking contracts for CosmWasm, with their logic written in Verus
and proved against its contracts.

A provider backs stakes with a security deposit; stakers' principal and
rewards unlock by installments over a lock period; a share core holds stakes
and divides them among shareholders, recycling rewards that were not granted
in time. A second pair of contracts on the same idea — a collateral pool with
a beneficiary, and a holder registry — is provided as well.

## Layout

- `src/` — the verified library.
  - `math` — 256-bit intermediate products (`mul_div`), on `cosmwasm_std::Uint256`.
  - `stakecore/` — stake core: configuration and vesting arithmetic (`types`),
    state transitions with the accounting invariant (`contract`), queries (`msg`).
  - `sharecore/` — share core: share arithmetic (`types`), state transitions
    that keep the held funds equal to what the shares hold (`contract`), the
    stake core's replies (`replay`), queries (`msg`), and the
    range checks a caller makes before an operation (`checks`).
  - `collateral`, `collateral_pool` — the collateral pool; `holder`,
    `holder_pool` — the holder registry.
  - `access_control`, `ownership`, `universal_token`, `vector`, `assoc_map`, `key_order`, `vesting`,
    `json`, `env`, `errors` — the building blocks they share.
- `tests/` — tests of the library on concrete values.
- `app/` — the CosmWasm entry points: they load the state from contract
  storage, query what an operation needs, call the library, and store the
  result.

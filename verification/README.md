# stellar_contracts

Verified state machines for a suite of ledger contracts, written in Verus.

Each contract is a plain value type. Its methods take the caller, the ledger
time (or sequence) and any externally obtained data as arguments, return the
outcome, and leave the state unchanged when they fail. What happens around a
call (signature checks, token and NFT transfers, events, persistence) is the
host's part; each module's documentation says which amounts the host moves.

Modules under `src/`:

- `amm_pool` — constant-product pool with dynamic fees and swap quotes.
- `charity_tracker` — campaigns, donations and milestone releases.
- `identity_registry` — self-sovereign identities with verification and
  revocation.
- `insurance_oracle` — risk data submissions and a median price aggregator.
- `nft_fractional` — a fractionalized NFT vault with a buyout auction.
- `options_protocol` — option writing, margin and fixed-point Black–Scholes.
- `parametric_insurance` — crop insurance paid out on satellite readings.
- `perpetuals` — vAMM mark price and an eight-hour funding rate.
- `price_feed_adapter` — a fixed-list price feed.
- `reputation_system` — bounded reputation scores and endorsements.
- `royalty` — royalty trees and pull-based claims.
- `sports_betting` — parimutuel markets with oracle-voted results.
- `stablecoin` — a rebasing stablecoin with a peg stability module.
- `staking_derivatives` — liquid staking shares with an unbonding queue.
- `subscription` — recurring billing pulls.
- `upgradeable` — timelocked code upgrades (two schemes).
- `yield_farming` — auto-compounding positions and a multi-pool optimizer.

Shared helpers: `fixed` (Rust's integer rounding and saturation stated over
mathematical integers, and an exact `floor(a * b / d)` with a 256-bit
intermediate), `ledger` (sums of balance tables), `bytes` (text as bytes).

The tests under `tests/` run the library on concrete scenarios.

# callora

Verified core of the Callora payment contracts: a prepaid **vault** that
API callers deposit USDC into and that deducts usage charges, a
**settlement** ledger that credits those charges to a global pool or to
per-developer, per-token balances and pays developers out, and a
**revenue pool** from which an admin distributes USDC to developers.

## Layout

- `src/` — the library, verified with Verus. Each contract is a plain
  state machine: addresses are `u64` identifiers, strings and ids are byte
  strings, and every operation states in its contract exactly which check
  refuses it and what it changes.
  - `vault.rs`, `vault_funds.rs`, `vault_offerings.rs` — configuration and
    roles; deposits, deducts (with request-id idempotency), batches and
    withdrawals; offering metadata and prices.
  - `settlement.rs`, `settlement_withdraw.rs`, `settlement_views.rs`,
    `settlement_migrate.rs`, `settlement_totals.rs` — payments, roles and
    caps; withdrawals and balance migrations; paged and cursor views;
    storage-layout migration; what the ledger holds in a token.
  - `revenue_pool.rs` — roles, pause, distribution checks, batch chunking.
  - `snapshot.rs`, `text.rs`, `lexorder.rs`, `bytes.rs`, `errors.rs` —
    state diffs, input validation and price parsing, byte-string order,
    byte-keyed collections, stable error codes.
  - `laws.rs` — properties that span several operations.
- `app/` — the Soroban contracts around the core: authentication, storage,
  token transfers and events. Each entry point loads the stored state into
  the core's model, asks the core for the outcome and carries it out.
- `tests/` — behaviour of the library on concrete values.

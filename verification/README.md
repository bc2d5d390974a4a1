# autoshare

A verified model of the AutoShare payment-group contract.

- `src/` is the library, verified with Verus. `Ledger` holds the contract's
  persistent entries (administrator, pause flag, list of all groups, and per
  group its details and member list); `autoshare_logic` holds the contract's
  operations on it, each with a contract that equals the outcome stated in
  `model` over the ledger's abstract view; `laws` proves what holds across
  operations (the consistency invariant, read-after-write, the pause
  protocol, failures changing nothing).
- `app/` runs the operations on a Soroban host: it reads the entries an
  operation needs from persistent storage into a `Ledger`, checks the
  caller's authorization, calls the library, writes the entries back and
  publishes events.
- `tests/` exercises the library on concrete values.

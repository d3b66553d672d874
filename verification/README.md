# tholos

A bonded assertion and dispute oracle for Soroban, with its decision logic
verified by Verus.

- `src/` is the verified library. `v1` is the committee-resolved contract
  (assertions, challenge window, disputes decided by a strict majority of a
  committee copied onto each dispute, and the committee's own rotation by
  vote). `v2` is the stake-weighted contract (policy pinned per assertion,
  registration with an anti-sniping extension, commit/reveal counted by
  stake). `consumer` is an integrating contract that asserts as itself.
  `hex` holds the helpers the commitment tool uses. Every entry point is a
  method on a state value that checks its inputs in the contract's order,
  changes nothing when it refuses, records the events it publishes and
  returns the token transfers the host must make.
- `app/` is the Soroban host side: storage, signatures, the ledger clock,
  hashing, token transfers, event publication, and the command-line helper
  that computes a vote commitment.
- `tests/` exercises the library on concrete values.

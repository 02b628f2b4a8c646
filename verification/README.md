# ttl_vault

A time-locked inheritance vault ("dead man's switch") for the Stellar network,
together with a small claim verifier, written in Verus.

An owner locks tokens in a vault and must check in before a deadline
(`last_check_in + check_in_interval`). If the deadline passes, anyone may
trigger the release, which pays the balance to the beneficiary or splits it
among several beneficiaries by basis points.

## Layout

- `src/` is the verified library. `registry.rs` holds `TtlVaultContract`, the
  whole contract state as plain values, and every contract operation as a
  method whose contract is stated over the model in `model.rs`. Each operation
  reports the authorizations and token transfers the host has to perform, the
  events to publish and its result (`types.rs`). `index.rs` and `release.rs`
  hold the owner/beneficiary indexes, pagination and the payout split;
  `storage_ttl.rs` the storage TTL formula; `zk_verifier.rs` the claim
  verifier; `laws.rs` the properties that span operations, proved.
- `app/` is the Soroban contract around the library: it loads and stores the
  state, performs the host calls an operation reports, publishes its events and
  maps its errors to contract errors.
- `tests/` runs the library on concrete values.

The library holds its collections (the beneficiary split, the owner and
beneficiary lists, the items of a batch deposit) in std `Vec`s, and the two
id lists as sequences of (address, vault id) records: a Soroban `Vec` is a
handle into the host environment and exists only inside a contract
invocation. `app/` converts between the two at the storage boundary.

# chronolock

Time-locked NFT collections and the CRNL token ledger that goes with them,
written as a Verus library whose behaviour is proved against its contracts.

## Layout

- `src/` — the verified library.
  - `stable.rs`: the tables in stable memory (`ic-stable-structures`), named
    by what they hold; `codec.rs`, `tables.rs`, `account.rs`, `text.rs`,
    `hexnum.rs`: the byte encodings, accounts, decimal/hex/principal text.
  - `ledger.rs`, `ledger_laws.rs`: the ICRC-1/ICRC-2 ledger (pools, fees,
    referrals, vesting, transactions) and what holds across its operations.
  - `pool_ledger.rs`, `pool_dummy.rs`, `pool_laws.rs`: the first ledger, its
    dummy-data generator as a step function, and its laws.
  - `registry*.rs`, `identity.rs`, `access.rs`: the collection with
    authentication, chunked media, access rules and vetKD requests;
    `registry_laws.rs` its laws.
  - `classic.rs`, `classic_laws.rs`: the first collection.
  - `mock.rs`: the stand-in vetKD service and the greeting.
  - `ledger_restore.rs`, `pool_restore.rs`, `registry_restore.rs`,
    `classic_restore.rs`: keeping each canister across an upgrade — its
    settings saved as one record beside its tables, and on restart the tables
    reopened, checked, and the record read back.
- `tests/` — scenario tests of the canisters' behaviour, and an
  example for each law.
- `app/` — the canisters' endpoints: state, caller, clock, randomness and the
  calls to other canisters, around the library.

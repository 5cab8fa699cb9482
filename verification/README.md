# midnight_ledger

Core rules of the Midnight ledger, written in Verus and proved against their
contracts.

The library keeps the values that the rules read as plain data: hashes,
addresses and nonces are 32-byte values, times are seconds, and maps are
vectors of entries with distinct keys viewed as `Map`s. Hashes that only a
cryptographic library computes (intent hashes, DUST nonces, commitments) are
passed in by the caller.

## Modules

- `compact_int` – the compact integer encoding, with its round trip.
- `hash`, `keyed`, `counting` – identifiers with a decidable equality, keyed
  collections with map views, and multiset comparisons on vectors.
- `utxo` – the unshielded UTXO set and the application of unshielded offers.
- `replay` – replay protection and time-to-live checks.
- `dust`, `dust_registration` – DUST generation: output values over time,
  generation records, offers and registrations.
- `ledger` – NIGHT supply accounting, system transactions and reward claims.
- `intent` – the parts of a standard transaction that its checks read.
- `effects`, `balance`, `disjoint`, `sequencing`, `well_formed` – the
  structural checks of a standard transaction: claimed effects, balances,
  disjoint offers, the ordering of contract calls, and their composition.
- `intent_checks` – the checks of an intent: ordered and unique offer
  inputs and outputs, their signatures in a sealed transaction (given
  whether each verifies), and the window, registrations and fee allowances
  of its DUST actions.
- `dust_fees` – the fee stage of a guaranteed section: DUST spends, then
  registrations.
- `state_value` – the logarithmic size of an on-chain state value.
- `contract_state`, `maintenance`, `transaction` – contract operations and
  their versioned keys, maintenance updates (their checks and their
  application), hashing of transactions, and transaction-level settings.
- `section` – applying the guaranteed section or a fallible segment of a
  standard transaction to the ledger: replay protection, unshielded offers
  and DUST generation, then the fee stage.
- `actions` – applying contract actions to the states of contracts: calls
  (their transcripts' effects on the contract's balance), deployments and
  maintenance updates.
- `dust_wallet` – a wallet's local DUST state: replaying ledger events and
  spending DUST.
- `vm` – the on-chain virtual machine: its values, its instructions, the
  record of what has been read of the initial stack, one step of execution
  and a run of a program. The serialized sizes of the
  topmost values and the roots of Merkle trees, which outside libraries
  compute, are given to each step.

Public functions state in `ensures` what they return or change, over spec
functions and views; the laws that relate several functions are public
proof functions (`lemma_*`). The tests under
`tests/` run the compiled library on concrete values.

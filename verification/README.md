# midnight_ledger

A Verus-verified library for the Midnight ledger's data model:

- **The binary format** (`codec`, `primitives`, `containers`, `tuples`,
  `strings`, `tags`, `entry`, `compact`, `util`): versioned, network-tagged
  encodings with a recursion limit. Every encoder and decoder is specified
  over byte sequences, and `entry` proves that decoding an encoding gives the
  value back, that sizes are exact, and that wrong networks and trailing bytes
  are refused.
- **Hashes, keys and coins** (`hash`, `signatures`, `coin`, `transfer`,
  `contract`): SHA-256 commitments, BIP 340 Schnorr keys and signatures,
  coin commitments and nullifiers, and contract token types.
- **Contract state** (`keymap`, `state`, `maintenance`, `contract_state`,
  `vm`, `context`): state values with their bounded Merkle trees, entry points
  and verifier keys, deployed contracts, maintenance committees and signed
  maintenance updates, the virtual machine's stack values and result modes, and
  the context of a contract query.
- **The ledger** (`ledger`): parameters, and the privileged system
  transactions that mint native tokens, fill the treasury and pay out of it,
  with proofs that minting draws exactly on the unminted supply, that payouts
  debit the treasury and create one coin each, and that no commitment is lost.
- **Checks and maintenance** (`malformed`, `semantics`): why a transaction is
  malformed or invalid, the checks of a contract's deployed state and of a
  maintenance update's signatures, and what a transaction section does to the
  ledger's contracts and treasury: deployments, recorded call results,
  maintenance updates and credited imbalances, with proofs that a correctly
  signed update is accepted, that an applied update cannot be replayed, and
  that imbalances never debit the treasury.
- **Applying transactions** (`section`): a section's coin-layer outcome,
  contract actions (those of contracts outside the context's whitelist are
  skipped) and imbalances; a standard transaction's guaranteed and fallible
  sections, mint claims, and batches of transactions applied independently,
  all or nothing, or until the first failure, with a proof that a failed
  transaction leaves the ledger unchanged and a partly successful one keeps its
  guaranteed section.
- **Claims** (`claims`): the check that a section's contract calls claim
  exactly the coins and calls they may: contract nullifiers and received coins
  against the section's offer, spent coins against the coins it creates, and
  calls to other contracts by order and lifetime, with the section's balance.
- **Call graphs** (`partition`): the graph of which call claims which, the
  check that it is a forest, with its roots, and how many sections of each call
  go into a transaction's guaranteed part, by the budget of each tree of calls.

`app/` holds what faces the outside world: readers and writers, human-readable
error messages, hex formatting, logger setup and splittable random number
generators.

# fedimint_amm

A constant-product market between the units of a Fedimint federation, written
in Verus: every function of the library states what it returns or changes, and
Verus proves it.

| Directory | What it holds |
| --- | --- |
| `src/` | The library. `math` is the curve; `server` the guardians' ledger; `client` the orders, their progress and their recovery from the seed; `keeper` the price keeper's decisions. |
| `tests/` | Tests on concrete values, one file for each area. |
| `app/` | The price keeper as a program: flags, the price feed, the wallet, the loop. |

## What is proved

- **The books balance.** What an output consumes is exactly what the ledger owes
  more, and what an input provides exactly what it owes less, in every unit.
  A refused item leaves the ledger as it was.
- **The curve never loses.** The product of the reserves never falls in a swap; a
  round trip, and a deposit followed by a withdrawal, never pays out more than
  went in; nobody's share is diluted by others coming or going.
- **A quote is what settles.** Quotes and settlement go through one function, and
  a swap ordered from a quote settles at it as long as the pool is what was
  quoted.
- **Keys are proved.** An output that does not prove possession of the key it
  names is refused, whatever the ledger holds.
- **The balance sheet is right.** The audit sums to minus all that is owed, and
  so moves by exactly the amounts of every item that is processed.
- **Everything is found again.** A caller that follows the cursors of a recovery
  endpoint is never refused and sees every row exactly once, even while rows it
  has seen go away. A walk keeps exactly what belongs to the seed, and every
  balance it finds is claimed, found gone, or reported.
- **A balance is never given up.** Once the first transaction of a swap is
  accepted, no event ends the swap before its balance has been claimed.
- **Fees stay in their band**, and a faulty minority of guardians cannot push a
  pool's fee below the honest votes, nor above them while enough honest guardians
  have voted.
- **The keeper never overshoots.** A trade respects every limit the operator set,
  and never carries the price past the reference.

The proofs are named `law_...` and stand in `math_laws`, `server::laws`,
`server::recovery_laws`, `client::laws`, `keeper::policy_laws`, and next to the definitions they speak of.

## What is taken on trust

Functions marked `#[verifier::external_body]` call other crates: Fedimint's
integer encoding, key derivation, backoff and threshold, SHA-256, secp256k1
keys and Schnorr signatures, and random numbers. The comment above each says
what is assumed of it.

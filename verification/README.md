# oracle-pool

Prize pool and draw settlement, with its rules proved in
[Verus](https://github.com/verus-lang/verus). One instance per pool.

## How a round works

1. A round is opened with the SHA-256 of a secret, and a time at which it
   closes.
2. Each mint records an entry: so many tickets, so much money, and entropy from
   the minter. Free entries, earned elsewhere, bring tickets and entropy only.
3. Once the round has closed, anyone who knows the secret draws it and takes a
   share for the trouble. When the secret is overdue anyone may settle it
   without: the commitment stands in for the secret.

```
entropy = fold sha256(acc || minter || entry_entropy) over the round's entries
result  = sha256(secret || entropy || round_id)
index   = u128(result[0..16]) % total_entries
```

That is the first place. Place `p` after it is read in the same way from
`seed_p = sha256(seed_{p-1} || p)`, with `seed_0 = sha256(result || 0)`.

Tickets are the round's entries in id order, each repeated as often as it has
tickets. Winners are distinct by minter. A round with too few tickets or too
small a pot is skipped and consumes nothing; its entries belong to the next.

## Layout

- `src/state.rs`, `src/msg.rs`, `src/error.rs`: what the pool keeps, what it is
  asked and answers, and why it refuses, each with the value its contracts
  speak of.
- `src/table.rs`, `src/bytes.rs`, `src/text.rs`: rows under ids, big-endian
  numbers, decimal text.
- `src/digest.rs`: what is taken on trust from `sha2` and `cosmwasm-std`.
- `src/draw.rs`: which entries a round covers, and which tickets win.
- `src/rules.rs`: what settling a round does, as a function of the pool.
- `src/settle.rs`: drawing, skipping and rolling over.
- `src/entries.rs`, `src/rounds.rs`, `src/config.rs`: recording, opening,
  configuring.
- `src/contract.rs`: `instantiate`, `migrate`, `execute`, `query`.
- `src/query.rs`: what the pool tells.
- `src/ask.rs`: what has to be asked of the chain before a call.
- `src/validity.rs`: whether what was loaded is a pool.
- `src/laws/`: what holds of the pool as a whole.
- `app/`: storage, chain queries and JSON.

A call is a function from the pool, the chain's answers and a message to the
pool that it leaves and a response, or to an error that leaves the pool as it
was. Times are in nanoseconds. What only the chain can tell, the block time, the
balance, whether an address is valid and who owns a token, comes in as plain
values.

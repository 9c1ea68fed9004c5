# Prediction hub

Decentralised prediction markets: moderators create markets, users stake a
token on a choice, a moderator resolves the market, and the winners claim
their shares of the pool.

The library (`src/`) holds the rules, verified with Verus. A call works on an
`Env`: the contract's ledger entries, the ledger clock, and the list of what the
call asks of the host (authorisations, token transfers, storage, events). A
call either succeeds or is refused with a `HubError`; a refused call leaves the
entries as they were.

- `types`, `events`, `error`, `table`, `env`: the data
- `access`, `money`: who may do what; fees and shares
- `setup`, `markets`, `betting`, `settlement`, `admin`, `queries`: the calls
- `laws`: what holds of the protocol as a whole
  - `shares`: fees and shares of a pool
  - `authority`: who can change what, and when nobody can
  - `books`: how the entries agree with each other in every state
  - `solvency`: the contract holds what it owes
  - `claims`: what bettors get
  - `markets`: creation, stakes, listings, removal
  - `storage`: the requests of a call carry over everything it changes
  - `notices`: the events that tell of the calls
  - `history`: what holds after any sequence of calls
  - `records`: what the entries tell of the calls that were made

`app/` is the Soroban contract around the library: it reads the entries that a
call needs from the ledger and serves the requests of the call in order.
`tests/` runs the library against a token with balances and allowances.

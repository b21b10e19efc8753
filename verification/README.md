# quorum_credit

A lending protocol in which people vouch for a borrower with a stake. The borrower takes a loan
against the stakes; a repaid loan returns them with a yield, and a default slashes them. An
insurance pool takes a fee on every loan and a fifth of every slash.

The library under `src/` is plain Rust with contracts, verified by Verus. It touches no host: an
operation works on a `Ledger`, which holds what the contract has on record, and leaves behind the
list of what the host has to do (`HostCall`: ask for an authorization, move tokens, publish an
event). Addresses are handles; equal handles stand for equal addresses.

An operation ends in one of four ways (`Outcome`):

- `Done`: it ran to its end, and the contract names the ledger that it leaves;
- `Refused(e)`: it comes back with the error `e`, and nothing on record has changed;
- `Abort(e)`: it aborts with the error `e`, and nothing on record has changed;
- `Trap`: it aborts without an error, because there is no configuration or a number does not fit
  its type.

The functions named `try_...` take every input and say how they ended; the others ask in
`requires` that they come back.

| module | what it holds |
| --- | --- |
| `types` | records, errors, events, constants |
| `arith` | division towards zero, checked steps, sums |
| `ledger` | the ledger, its view, lookups, the admins' quorum |
| `shares` | splitting amounts over the vouches behind a borrower |
| `admission` | the checks before a loan and before a payment |
| `insurance` | the pool |
| `contract` | the entry points, at one configured yield |
| `loan` | loans whose yields follow the age of each vouch and the borrower's history |
| `laws` | what holds after any run of operations |
| `conservation` | what the payouts add up to, and how far rates and fees reach |

`app/` is the contract on a Soroban network. It loads the ledger from the host's storage, runs one
operation, does what the ledger asks for and writes it back.

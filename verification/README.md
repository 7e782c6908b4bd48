# Money pot

A money pot is opened by an account for a receiver. Anyone may contribute to
it; a contribution is locked in the contributor's account (the lock holds
the total the account has put into pots not yet paid out) until its pot pays
out. The pot pays all contributions out to the receiver either as soon as
they reach its target amount, or once its end block has come, when a
scheduled call does it. An account may have only so many pots open at once;
pots already paid out do not count.

The library is verified with Verus. Every call is stated as a function from
the pallet's state (`state::State`) to the next state or an error; a refused
dispatched call leaves the state as it was. `transfer_contributions` called on
its own, outside a dispatched call, keeps what its steps did before one failed.

- `src/types.rs`: pots, end types, origins, events, errors, the constants.
- `src/scale.rs`: the SCALE encoding of a pot, its Blake2-256 hash (through
  `frame_support`'s `BlakeTwo256`) and the name of its scheduled payout
  (through `parity-scale-codec`).
- `src/assoc.rs`: finite maps kept as vectors with distinct keys.
- `src/balances.rs`: the lockable currency that holds the contributions.
- `src/scheduler.rs`: the agenda of payouts due on later blocks.
- `src/state.rs`: the state as mathematical values and each call's effect.
- `src/pallet.rs`: the storage and the calls, proved against `state.rs`.
- `src/genesis.rs`: the genesis configuration.
- `src/laws.rs`: what holds across calls: payouts move each contribution to
  the receiver, every lock keeps covering what its account has in open pots,
  the storage stays consistent, pots are never lost and a closed pot stays
  closed.
- `app/lib.rs`: the SCALE codec and type information derived for the pot
  types, with conversions to and from the library's.

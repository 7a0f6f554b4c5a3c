# Token curated registry

A registry whose members are chosen by stake: listings are proposed, challenged and voted on with
deposits. The rules are written and proved in [Verus](https://github.com/verus-lang/verus).

- `src/types.rs`, `src/numbers.rs`: the records, the requests and their answers, and what the
  registry needs to know of accounts, block numbers and balances.
- `src/state.rs`: the registry as a mathematical value, and what each request makes of it.
- `src/storage_map.rs`, `src/module.rs`: the registry as it runs. Its functions are proved to do
  what `src/state.rs` says.
- `src/soundness.rs`, `src/transitions.rs`, `src/finalization.rs`, `src/laws.rs`,
  `src/announcements.rs`, `src/deposits.rs`, `src/locality.rs`: what follows, for all requests and
  all blocks. The sums they need are in `src/tallies.rs`.
- `src/runs.rs`: what holds over any number of requests and blocks.
- `app/`: the registry in a FRAME runtime, with chain storage, currency and events.

Two functions are trusted, not proved: `checked_add_u32` and `checked_add_u64` in `src/numbers.rs`.
They call `sp_runtime`'s `CheckedAdd`, and their contracts say that a sum is given exactly where it
fits. All other functions of `src/` are proved.

The registry reserves, releases and takes no money itself. A request that needs a deposit has two
steps: one names the deposit, the other carries the request out and is told whether the deposit was
reserved. At the end of a block the registry lists what is to be announced, released and taken.

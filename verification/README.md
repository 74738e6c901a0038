# chain_notes

Bookkeeping of a notebook wallet that keeps its notes on chain: notebooks and
their coins, the spending wallet of an account, contacts, and the decisions
behind composing, confirming, signing, sweeping and importing.

- `src/` is the library. Verus proves the contract of every function in it
  but for the calls that leave the crate, whose contracts are trusted: those
  into `hex` stand in `hexcodec.rs`, and those of a few string functions of
  std in `text.rs`.
- `tests/` runs the library on concrete values.
- `app/` is the device app around it: screens, files, key derivation and
  floating point prices.

The library never derives a key, builds a transaction or touches a file. It
takes the sizes, fees, scripts and addresses that the app computes as plain
values, and says what follows from them.

| Module | What it holds |
| --- | --- |
| `notebooks`, `spending`, `state` | the stored records and their invariants |
| `coins`, `funding`, `change` | which coins pay, and where change goes |
| `recipients`, `contacts` | whom a note goes to |
| `compose`, `confirm`, `sign` | from a draft to a signed note |
| `sweep` | emptying or consolidating the wallet |
| `merge`, `import` | taking over what a sync bundle reports |
| `psbt` | transactions of another wallet |
| `note_view`, `labels`, `settings`, `storage` | what is shown and where it is kept |
| `text`, `hexcodec`, `ordering`, `lists`, `seqs` | the groundwork |

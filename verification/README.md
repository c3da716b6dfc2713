# CryptoCraft

A proof-of-work coin for a local network: a solo miner, a pool server, a pool miner and a wallet.

- `src/` is the library. It holds the rules: blocks, rewards and difficulty, the search for nonces,
  the pool's protocol, accounts, transfers, syncing, and what the screens show. The functions
  carry contracts that Verus proves, and the proof functions whose names begin with `law_` state what
  holds across functions. Two kinds of function are not proved. Those whose comments begin with
  "Trusted:" call into other crates; their contracts are believed as they stand. And nothing is
  claimed of what `seconds_since_epoch`, `now_secs` and `now_ts` return, which is the clock's.
- `app/` is the program around it: terminal, sockets, files, threads and the SQLite database.
- `tests/` runs the library on concrete values.

Amounts are double-precision numbers. The library carries their bits, compares them exactly and
knows every reward exactly, and writes them out to four places; sums and quotients of them are made
in `app/` and handed in.

# rend

A verified core for a programmable transactional key-value store: the rend contract
language, its bytecode, and the rules of the service that runs it. Everything under
`src/` is checked by Verus.

## Layout

The language:

- `ast`, `token`, `error`: syntax trees, positions, errors.
- `modifier`, `copies`: expansion of modifiers, and copies of trees.
- `affine`, `moves`: values that are not copyable, and where they have been moved.
- `effects`: what each function may do to state.
- `builder`, `codegen`, `compile`, `bc`, `repeat`: lowering to register bytecode, which
  depends on the source alone.
- `optimize`, `programs`: reads of state that can go out together become one batch.
- `artifact`, `codec`, `typecodec`, `opcodes`: compiled modules as bytes.
- `value`, `entries`, `bigint`, `binary64`, `json`, `readback`, `ops`, `defaults`:
  run-time values and what can be computed on them.
- `machine`, `interp`, `steady`, `run`: the interpreter. A program runs against a list
  of replies; where one is missing, the run names the request and is repeated with the
  reply. `steady` proves that this is one run told in parts.
- `engine`, `host`, `tables`: linking modules, transactions and queries.

The store and the service:

- `hashing`, `storage`, `gc`: cell keys, namespaces, commits, garbage.
- `auth`, `hexes`, `numbers`: signed requests, addresses, nonces.
- `server`, `wire`: settings, counters, errors, replies, retries, group commit.
- `bench`: options and requests of the load generator.

`app/` holds the load generator and the HTTP, WebSocket and RocksDB code around the
library. The service takes a front end and a machine for the language as a trait.

## What is proved

Public functions have contracts on their results. Beyond that:

- decoding an encoded artifact gives it back, and decoding part of one, or more than
  one, fails; the same modules have one artifact and one hash, however often compiled;
- reading the canonical text of a parsed JSON value, its floats finite, gives it back;
- reading the binary form of a JSON composite gives it back, and its size is told
  whatever follows it;
- effect classes are the least that fit the calls, and cover what they reach;
- no path through an admitted function uses a value that it has moved;
- no modifier and no placeholder is left after expansion;
- optimizing keeps what the functions of a module do on any machine that keeps to what is
  said of the instructions, reads pass only what they may, and optimizing twice is
  optimizing once;
- equality of values is an equivalence, and setting a key of a dict leaves the others alone;
- a run that has come to its end is changed neither by more fuel nor by more replies;
- linked calls resolve;
- a wallet's own requests are admitted; an admitted request is signed by the organisation
  that its path names, and is not admitted again;
- cells of different namespaces never share a database key;
- a commit whose reads have changed is refused, and a batch is settled in order;
- a request is executed at most five times.

What is trusted are the calls into `num-bigint`, `num-traits`, `indexmap`, `hex`,
`tiny-keccak`, `secp256k1` and `rand`, and a few functions of the standard library.
Each stands in a wrapper whose comment says what is believed of it.

# PumpkinScript

PumpkinScript is a minimalistic concatenative, stack-based language inspired by Forth. It
operates a low-level database "virtual machine": programs manipulate, record and retrieve
byte arrays.

`src/` is the language as a verified Verus library:

* `binparser` — the binary form of programs
* `env` — the stack and the heap that a program runs with
* `vm` — the interpreter, `scheduler` — the scheduling of programs
* `storage` — what a program asks of the store
* `model` — the meaning of programs, `runs` — that of scheduling: the contracts speak of them
* `laws` — what holds of the library as a whole

`app/` runs the interpreter on an LMDB database, in a thread of its own. The library never
touches the database: it says what is to be asked of it, and takes the answer.

Two crates are called from the library, behind contracts that are not proved: `snowflake`
(whether two ids are the same, in `ids`) and `num-bigint` (the bytes of a number, in
`numbers`). So is the standard library's formatter (in `formatting`).

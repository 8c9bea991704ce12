# rust_labs

A collection of small Rust programs whose logic is written and proved in
Verus, with the parts that need I/O, threads, floating point or a GUI kept in
a thin ordinary-Rust front end.

## Layout

- `src/` — the verified library.
  - `db/` — an in-memory database: the tokenizer of its command language
    (`tokens`), table schemas (`schema`), the grammar of its commands and
    literals (`commands`), tables kept in key order and the database of tables
    (`table`), running a command line against the database (`run`), and the
    laws that tie inserts, deletes and reads together (`laws`).
  - `game/` — the rules of a turn-based hex-map empire game: resources,
    provinces and their buildings, armies and battles, empires, war and peace,
    turns, the map and its paths, the computer players, the decisions behind
    the panels, and picking provinces with the cursor.
  - `expr` — symbolic expressions: printing, substitution, derivatives.
  - `program` — a small language of statements and expressions run against a
    context of named values.
  - `lists`, `primes`, `numbers`, `units`, `borders`, `pointers`, `machines`,
    `transform`, `text` — list utilities, a prime sieve, powers and the Collatz
    check, units of measure, border tables for finding a terminator in a byte
    stream, heap-or-stack values, state machines, and text helpers.
- `tests/` — tests of the library.
- `app/` — the programs: the database shell (`rudb`), a TCP directory server,
  and small programs on powers, units, expressions, statements, closures,
  pointers, shapes and state machines. The first argument names the program.

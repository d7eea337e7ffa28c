# protohackers_rs

Verified core logic of five small network services, with the network code
around it kept apart.

- `src/` is the library, verified with Verus:
  - `means_to_an_end`: a price history (`Db`) with mean queries, the nine-byte
    request frames, and a whole session over a byte stream.
  - `budget_chat`: names (`username`), the lines sent to participants
    (`message`), the room and who hears what (`room`), and the state machine
    of one connection (`session`).
  - `prime_time`: the whole-number part of the primality test.
  - `unusual_db`: the key/value store answered over datagrams.
- `tests/` runs the library on concrete values.
- `app/` holds the servers: sockets, framing, JSON, threads of tasks, and the
  floating-point part of the primality test. The first argument of the
  program names the service to run.

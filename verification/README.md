# hwarang

Server-side rules of an action role-playing game, written in Verus and proved
against their contracts.

## Layout

- `src/` — the verified library.
  - `level`, `experience`, `vitals`, `character`, `regeneration`: progression
    (several levels crossed in one pass), bounded gauges, characters.
  - `damage`, `engagement`: bounded multiplicative mitigation, range and
    cadence of attacks.
  - `position`, `movement`, `grid`: distances, server-side check of claimed
    moves, the interest grid.
  - `ai`: creature perception, aggression and leash.
  - `catalog`, `equipment`, `inventory`: items.
  - `codec`, `protocol`, `session`: binary frames and the connection state
    machine.
  - `account`, `storage`: credentials, password hashing (Argon2, behind
    trusted wrappers), the saved form of a character, the verdict of a login.
  - `world`: the registry of entities present, who perceives whom (exact and
    symmetric at all times), moves, attacks, deaths and respawns, each request
    returning the notices it owes to each connection.
- `tests/` — tests on concrete values, run against the compiled library.
- `app/` — the program around the library: the TCP server loop, the SQLite
  store, and the shared world behind a lock, posting notices on channels.

The laws of the library are public proof functions, next to the functions
they speak of.

# matrix_room

The decisions behind the operations that joined, invited and left Matrix rooms
share, verified with Verus.

- `src/` is the library. It does no I/O. `common` holds the operations of a room;
  each says what has to be done first, and the outcome of that work is handed to
  what follows. `messages`, `members` and `devices` hold the operations that go
  back and forth more than once, with the laws that hold of all their runs.
  `identifiers` tells from which events `ruma` would read an identifier that is too
  long for it, and `text` finds the places in a JSON text where it reads one.
  `identifiers`, `json`, `tag` and `locks` hold what is taken on trust from `ruma`,
  `serde_json` and the standard library.
- `app/` carries the operations out, over a `Backend` that has the connection to
  the homeserver, the stores and the keys.
- `tests/` runs the library against the real `ruma` and `serde_json`.

# akagi_native

The logic behind a mahjong assistant's built-in bot, verified with Verus: turning
mjai game logs into behavior-cloning samples, laying those out in shards for a
trainer, talking to a remote inference server, and the user's settings.

- `src/` is the library. Every function states what it returns in its `ensures`;
  the public proof functions named `law_..` state what holds across functions.
  What other crates compute (the rules engine, JSON, gzip) comes through items
  whose contracts are trusted; each says in its comment what it claims.
- `tests/` runs the library, with those crates linked.
- `app/` is the extractor program, the HTTP client and the config-file formats
  around the library: I/O, serialisation and floating point.

A game log is replayed event by event. Before a player's choice is applied, what
the player sees is recorded with the id of the choice. After a discard, whoever
could call it waits; those who turn out to claim nothing are recorded as having
passed, also when several players win on one discard.

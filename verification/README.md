# cookie_actor

A pool of session cookies that many concurrent requests share. The pool hands cookies out in
turn, keeps a conversation with the cookie that served it last, never lets more requests use a
cookie than the configuration allows, lays cookies to rest that ran into a limit, gives up those
that are of no use, and starts usage windows anew when they are over.

- `src/` is the pool. Every operation is proved against the model in `src/pool.rs` and
  `src/message.rs`; `src/laws.rs` states what holds of the pool as a whole.
  - `cookie.rs`, `error.rs`, `config.rs`: the records, errors and settings
  - `keyed.rs`: sequences of records that are told apart by their cookie
  - `slots.rs`: how many requests use each cookie
  - `affinity.rs`, `clock.rs`: the cache (`moka`) and the clock (`chrono`), whose contracts are
    taken on trust
  - `actor.rs`: the operations
  - `request.rs`: when to ask a busy pool again
- `app/` runs the pool as an actor and publishes what it saves.
- `tests/` runs the pool on concrete values.

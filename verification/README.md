# Rust Network System

Networking building blocks whose behaviour is stated in contracts and proved with Verus.

- `src/` is the library. It decides and keeps count: message framing and queues, the
  state of clients, servers and sessions, caches, connection pools, load balancing,
  circuit breakers, rate limits, graceful shutdown, tracing, TLS configuration and
  message processing. Nothing in it waits, or touches a socket or a file.
- `app/` runs the library on tokio. It opens sockets and files, waits, and tells the
  library what happened.
- `tests/` runs the library on concrete values.

An operation that would wait is split in steps. The caller asks the library what is due,
does it, and reports the outcome, which the library turns into a result:

```rust
let limit = client.connect()?;            // open a connection within this time
let keep_alive = client.dialed(outcome)?; // say what came of it
```

Functions that read a clock have a sibling that takes the time (`get` and `get_at`). The
sibling's contract is exact; the other says that the result is that of some time.

Calls into other crates stand behind small functions whose contracts are believed, not
proved. Each says in its comment which function it calls and what it claims of it.

# doq

DNS over QUIC (DoQ, [RFC 9250](https://datatracker.ietf.org/doc/html/rfc9250))
in verified Rust: the framing of DNS messages, the per-stream transport protocol
for clients and servers, and a server driver that hands queries to a consumer
and takes its responses back.

- `src/` is the library. It is verified with
  [Verus](https://github.com/verus-lang/verus), but for the calls into other
  crates in `outside`, whose contracts are taken for granted.
  - `wire`: error codes and the 2-octet length prefix.
  - `transport`: what DoQ reads of a QUIC connection and asks of it, as plain
    values.
  - `connection`: the synchronous, IO-less protocol object.
  - `driver`, `responder`, `waiting`: the server driver, and what it and its
    consumer tell each other.
  - `model`, `driver_model`: the state of a connection and of a driver, and what
    each operation makes of it, as mathematical values. The contracts of the
    executable functions are stated over these.
  - `laws`: what holds of the library as a whole: that framed messages read
    back, that how bytes arrive does not matter, that queries and responses
    reach the peer as they were sent, what any number of calls tell of a stream,
    what every operation keeps, how protocol errors end a connection, how
    much a driver holds, and that it forgets no query.
  - `outside`: what is taken for granted of `bytes`, `futures`, `futures-util`,
    `tokio`, `tokio-stream` and the standard library.
- `app/` is what surrounds the library: the operations that it needs of a QUIC
  connection, as a trait, and what keeps the library in step with one; the
  asynchronous waiting of the driver and of its consumers; and the standard
  error and I/O traits.
- `tests/` runs two endpoints against each other.

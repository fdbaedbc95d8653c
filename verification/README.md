# oxo_pingora_edge

The public edge of Oxo, an application server for Rack: TLS and HTTP in front, a fleet of
workers behind, and in between the rules that decide what passes, where it goes and what the
operator is told.

- `src/` holds those rules as a Verus library. Each rule states what it decides in its
  contract, and the laws that span functions (slots come back, pins stay level, a request
  that was delivered is not sent twice) stand beside them as public proof functions.
- `app/` is the edge around the rules: sockets, files, the proxy framework and the clock. It
  hands the library plain values and carries out what comes back.
- `tests/` runs the library on concrete values.

Started requests, held slots and idle connections are values with an explicit end. `app/`
ties that end to the life of a Rust value, so a request that is cancelled gives back what it
holds.

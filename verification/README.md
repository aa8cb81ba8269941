# cfnat

A Cloudflare IP latency prober and TCP load balancer. Candidate addresses
come from a list of addresses and CIDR blocks; each is probed over HTTP, the
good ones are kept in a primary queue and a backup queue, and client
connections are forwarded to them, with health checks, eviction of the
worst primaries and sticky slots that keep a client's traffic on a few
backends for a while.

## Layout

- `src/` is the library, verified with Verus. Every function there carries
  a contract over mathematical models (sequences, integers, views of the
  library's types), and the laws that relate several operations are proof
  functions (`law_*`).
  - `text`, `net`: character-level helpers, and IP and socket addresses with
    the standard text grammar.
  - `ip`: CIDR blocks and the address pool that samples them.
  - `backend`, `balancer`, `upkeep`, `order`, `sticky`: the balancer's state,
    its selection, its upkeep (warming, eviction, isolation, health
    decisions, cleanup, refill), the backup ordering and the sticky slots.
  - `httping`, `hyper`: the prober's decisions and the probe URL.
  - `service`, `args`, `api`, `log`, `forward`, `pool`, `session`, `config`:
    settings and their sources (command line, API requests), the service's
    start and stop rules, the status report, the log buffer, the
    forwarder's port choice, the concurrency limit, client affinity and the
    tuning constants.
- `app/` is the program around it: the async runtime, sockets, the HTTP
  client, the HTTP API, clocks, randomness, and the real-number arithmetic
  (moving averages, scores, limits), which the library receives as bit
  patterns, order keys and comparison results.
- `tests/` runs the library on concrete values.

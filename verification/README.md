# proxy

A TCP relay whose decisions and bookkeeping are verified with Verus.

- `src/` is the verified library:
  - `bounded_queue`: a FIFO queue that keeps the newest `capacity` items.
  - `config`, `validate`, `validate_laws`: the relay configuration, its
    validation (port conflicts, overlaps, privileged ports) and the proof
    that validation accepts exactly the well-formed configurations.
  - `health_prober`: the recent traffic records of each instance.
  - `relay`: the per-connection context and the step function of the relay
    loop.
  - `server`: the judgement of a server start.
  - `ui`: the step function of the dashboard loop.
  - `text`: decimal notation.
- `app/` is the program around it: the configuration file, the clock,
  sockets and threads, the web endpoints and the terminal dashboard.
- `tests/` exercises the library.

The prober keeps its records in a vector of (name, queue) pairs with
distinct names rather than in a `HashMap<String, _>`: vstd's contracts for
`HashMap` hold only for key types that obey its key model, which it
establishes for integers and booleans but not for `String`, so with
`String` keys not even the size after one insert can be proved.

# dns-protocol-bench

A DNS latency bench with a verified kernel. It compares plain DNS, DNS over TLS,
DNS over HTTPS (HTTP/2 and HTTP/3) and DNS over QUIC by one and the same rule of
measurement:

- one target after the other, one query at a time;
- every query, connecting included, within one timeout;
- queries to warm up first, which are not timed;
- the same domains in the same order for every target;
- answers without an address are counted apart;
- a target that failed to warm up is warned of, since its numbers are too high;
- a connection is dropped on any error;
- a target that has never answered is given up after eight failures in a row.

Two programs come of it. `dns-protocol-bench` compares the protocols on one
server; `providers` compares public DNS providers by every protocol they offer,
and checks whether they are honest about names that do not exist.

## Layout

- `src/` is the kernel, written in Verus. Its functions carry contracts, and
  the properties that span functions stand beside them as proof functions. It
  reads no clock, file or socket.
- `app/` is what surrounds it: networking, files, the terminal, and everything
  that is floating point. The program runs as `providers` if it is called by
  that name.
- `tests/` holds the tests of the kernel.

Latencies are whole nanoseconds in the kernel. Milliseconds with one decimal are
made at the edge and handed in as texts.

HTTP/3 is unstable in reqwest; building `app/` takes
`RUSTFLAGS='--cfg reqwest_unstable'`.

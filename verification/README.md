# ipv_proxy

Exposes service instances registered in a Consul catalog on a public IPv4
address: a service tagged `ipv_proxy.expose` gets, for each of its instances, a
forwarding handler that either relays TCP connections itself (the manual
backend) or installs a static NAT64 binding in a jool instance.

Layout:

- `src/` — the verified library.
  - `text.rs`, `net.rs`: addresses as plain values and their text forms
    (dotted decimal, RFC 5952).
  - `config.rs`: which catalog services are exposed, the services built from
    their instances, and the agent's URLs.
  - `handlers.rs`: the running handlers and the plan that each refresh of the
    configuration applies, with the proof that a refresh converges.
  - `forward/`: the backends — `jool.rs` builds the `jool` command lines,
    `manual.rs` the listening address, `relay.rs` the per-connection state
    machine with the proof that bytes are delivered in order.
- `app/` — the program: command line, HTTP, processes, sockets and the
  async loops that feed events to the library.
- `tests/` — tests of the library.

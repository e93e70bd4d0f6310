# p2p_transport

The decision logic of a libp2p-based peer-to-peer transport, verified with Verus.

- `src/` is the verified library:
  - `peer`, `address`: peers and addresses held as the byte encodings of libp2p's `PeerId`
    and `Multiaddr`, with parsing and address composition done by libp2p behind wrappers.
  - `text`: whitespace-separated words and unsigned decimal numbers.
  - `behaviour::whitelist`: the whitelist that keeps libp2p's allow list in step with the
    registered node set, and the parsing of whitelist files.
  - `cli`: boot nodes, transport arguments and the arguments of a local test network.
  - `builder`: QUIC settings from the environment, the transport builder and the ordered plan
    of actions by which a swarm is started.
  - `transport`: the known topics and the queue of messages whose publication is retried.
- `app/` is the unverified plumbing around it: command-line parsing, reading key and whitelist
  files, the environment, building the libp2p swarm and the async event loop.
- `tests/` exercises the library with the real libp2p crates.

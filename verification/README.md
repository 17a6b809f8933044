# mpc_node

A node for threshold cryptography over a libp2p network: distributed key generation
(plain and asynchronous, with Feldman commitments), FROST-style signing rounds, a
hash-based random function for consensus proposals, and command routing.

## Layout

- `src/` is the library, verified with Verus. Field elements of BLS12-381's scalar
  field and points of G1 are modelled by their integer values (a point by its discrete
  logarithm), and every protocol step states what it does to the node's state and
  what it sends back.
  - `field.rs`, `curve.rs`: the scalar field and the group G1, over `bls12_381`.
  - `poly.rs`: polynomial evaluation and Lagrange interpolation at zero, with the
    proofs that interpolation recovers the constant term.
  - `strmap.rs`: string-keyed maps as entry lists with distinct keys.
  - `adkg.rs`, `dkg.rs`: the two key generation protocols.
  - `signing.rs`, `frost.rs`: the signing round and the FROST signer.
  - `consensus.rs`, `commands.rs`: random-function outputs, state, command routing.
  - `types.rs`: messages, requests and responses, and the byte-level decoders.
  - `network.rs`: the network layer's decisions (responses, peer tables, routing of
    gossip and of outgoing messages).
- `app/` is the executable: the libp2p swarm, serde encodings of the messages, and
  the event loops, which hand every decision to the library.
- `tests/` runs the library on concrete values.

## Not included

- The blockchain client (a websocket provider and wallet over `ethers`: connect, read
  the block number, send a transaction) is not part of this crate; it holds no logic
  beyond the calls, and its dependency tree is not built here.
- The separate taproot tool (building and broadcasting a bitcoin transaction with
  `bitcoin` and `ureq`) and the ping client binary are not part of this crate either.

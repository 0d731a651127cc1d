# darwinia_bridge

Records of the Darwinia bridge's relayer game, and the Ethash proof record
that the Ethereum relay reads, verified with Verus.

- `src/relayer_game.rs`: `TcHeaderStatus`, `RefTcHeader` and `Proposal`, their
  defaults, clones and accessors, and the SCALE encoding of the records that
  have no type parameters, with proofs that decoding gives back what encoding
  wrote and that an encoding determines its record.
- `src/double_node.rs`: `DoubleNodeWithMerkleProof` and its SCALE encoding, with
  the same two proofs.
- `src/scale.rs`: the SCALE encoding of the plain values the records are made
  of (bytes, `u32`, fixed arrays, compact lengths), the calls into
  `parity-scale-codec` that write and read them, and the facts that make a
  compact length readable back.
- `app/lib.rs`: copies of the records that derive the codec's `Encode` and
  `Decode`, with conversions to and from the library's types.

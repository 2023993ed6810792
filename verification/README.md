# ordiknots

Embedding files in Bitcoin transactions, with the byte formats proved in Verus.

Two techniques are supported:

- **Chained OP_RETURN**: a file is split into chunks of at most 40 bytes, one per
  transaction; each transaction spends the continuation output of the one before.
- **P2WSH fake multisig**: the data is written into the fake public keys of a
  1-of-N CHECKMULTISIG witness script, revealed when the P2WSH output is spent.

## Layout

- `src/` is the verified library: chunking and chunk headers, OP_RETURN and
  witness-script encodings and their parsers, the detectors, the reassembly of
  a chain, the amount and fee planning of the encoders, and the small HTML and
  content-type helpers of the gallery. Each public function states its result
  over spec functions; the `laws` modules prove what the encoders and decoders
  promise of each other.
- `src/script.rs` holds the calls into the `bitcoin` script builder, each with
  the contract that its source shows.
- `tests/` runs the library on concrete values.
- `app/` is the command line, the RPC and database plumbing, the indexer and
  the web server, which hand the library plain values.

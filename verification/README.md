# kafka_protocol

The Kafka wire protocol in Verus: message types, their parsers and
encoders, record batches with their checksums, request framing, and the
consumer's walk over fetched batches, each with a contract that Verus proves.

## Layout

- `src/wire.rs` — the mathematics: a schema language (`Schema`), a value
  tree (`Value`), what parsing (`parse_value`) and encoding (`encode_value`)
  mean, and the central law `lemma_parse_encode`: parsing the encoding of a
  well-formed value gives the value back, whatever follows it.
- `src/codec.rs` — the primitive parsers and encoders (integers, strings,
  byte strings, arrays, varints), the `Decode` and `Encode` traits whose
  contracts are stated over `wire.rs`, and `Reservation`, a slot written
  now and filled in later.
- `src/record.rs` — record batches: reading one checks its magic byte and
  CRC-32C; writing one fills in its length and checksum. A batch can be
  read with its records decoded (`RecordBatch<Vec<Record>>`, as a produce
  request holds it) or with its records kept as they came
  (`RecordBatch<RawRecords>`, as a fetch response holds it, since they may
  be compressed); `RecordBatch::records_into` decompresses the records of
  the latter and reads them (`decompressed` and `decode_records` are its
  two steps).
- `src/compression.rs` — the records' bytes of a batch, decompressed by
  their compression code (none, or Snappy through the `snap` crate).
- `src/order.rs` — the byte order of names, as `String` compares them.
- `src/parser/` — one module per message, each with its struct types, parser
  and encoder, and a proof that the type reads back as it is written.
- `src/error.rs`, `src/api_key.rs`, `src/lib.rs` — error codes, API keys,
  acknowledgement settings.
- `src/client.rs` — framing a request and reading the response from a
  buffer; the network I/O is the caller's.
- `src/consumer.rs` — the consumer's settings, its fetch offsets (kept in
  order of topic name), its fetch requests, and the walk over the batches of
  a fetch response.
- `app/lib.rs` — the tokio I/O around the library: connecting, sending a
  framed request, reading the response into the client's buffer, and
  walking a fetch response record by record (`next_records`).
- `tests/` — tests on concrete bytes.

Outside crates are called behind small trusted wrappers whose contracts are
stated in their doc comments: `integer_encoding` for varints, `crc` for
the CRC-32C checksum, and `snap` for Snappy.

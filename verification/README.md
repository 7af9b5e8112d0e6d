# mqtt5bytes

MQTT 5 CONNECT packets read from and written to byte buffers, and the
per-topic in-memory commit logs of a broker, verified with Verus.

## Layout

- `src/buf.rs`: the byte buffers of the `bytes` crate as Verus sees them: the
  contents of a `Bytes` or `BytesMut` as a sequence of bytes, and one trusted
  wrapper per buffer operation that the library uses.
- `src/codec.rs`: errors, protocol, QoS, property identifiers, the
  variable-length remaining length, and length-prefixed bytes and strings.
- `src/properties.rs`: property sections as lists of items, read and written.
- `src/connect_properties.rs`, `src/will_properties.rs`: the two property sets
  of a CONNECT packet.
- `src/connect.rs`: `Connect`, `LastWill` and `Login`: reading, sizing and
  writing.
- `src/packet.rs`: the fixed header and `mqtt_read`.
- `src/scan.rs`: `can_read_packet`, which tells, without decoding, whether
  `mqtt_read` may be called on a stream (reading must not run out of bytes
  inside a field).
- `src/volatile.rs`, `src/data.rs`: a segmented in-memory log per topic.
- `src/roundtrip.rs`, `src/section_roundtrip.rs`, `src/packet_roundtrip.rs`:
  what is written reads back as written, from single values up to a whole
  CONNECT packet (`lemma_connect_write_read`). A whole packet reads back when
  it is of protocol level 5, has a non-empty connection property section, a
  will (if any) with a non-empty will property section, a login (if any) with
  at least one non-empty credential, strings and binary values shorter than
  64 KiB, and a remaining length within the limit; a packet written without a
  property section does not read back.

Each reader is specified by a spec function on byte sequences (`parse_*`), and
each writer by the bytes it appends (`*_bytes`); the executable functions are
proved against them.

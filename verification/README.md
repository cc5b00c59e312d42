# midi_stream

Encodes and decodes MIDI streams, with or without running status, verified with Verus.

- `src/message.rs`: `MidiMessage` (plain values), its mathematical view `SpecMidiMessage`, the
  byte encoding of a message and the decoding of the bytes that follow a status byte.
- `src/data.rs`: the checks of data bytes, channels and 14 bit values, made by `wmidi`
  (trusted wrappers).
- `src/status.rs`: the `MidiStatusCodec` trait and its two implementations, `RepeatedStatus`
  and `RunningStatus`.
- `src/codec.rs`: `MidiCodec`: `byte_size`, `copy_to_slice`, `from_bytes`.
- `src/tokio.rs`: `encode` and `decode` on `tokio_util::bytes::BytesMut`.
- `src/laws.rs`: round trips of single messages and of streams, decoding from too few bytes or
  from chunks, and what decoding reads.
- `app/lib.rs`: conversions from and to `wmidi::MidiMessage`, and the `tokio_util::codec`
  `Encoder`/`Decoder` impls.

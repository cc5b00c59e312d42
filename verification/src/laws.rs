//! What holds of encoding and decoding together: a message that one codec encodes, a codec in
//! the same state decodes back, whatever bytes follow it; a stream of messages comes back whole,
//! with no byte left; a decode attempt on too few bytes asks for more and spoils nothing; bytes
//! that arrive in chunks decode as they would all at once; and decoding reads no byte past the
//! message it decodes.

use vstd::prelude::*;
use crate::message::{
    is_sysex_end, parse_message, u14_high, u14_low, u14_of, ParseError,
    SpecMidiMessage,
};
use crate::status::{spec_status_class, MidiStatusCodec, RepeatedStatus, RunningStatus, StatusClass};
use crate::codec::{decode_with, encode_with, encoder_next, MidiCodec};

verus! {

/// The bytes that the status codec `e` writes for `msgs`, one message after the other.
pub open spec fn encode_stream<S: MidiStatusCodec>(e: S, msgs: Seq<SpecMidiMessage>) -> Seq<u8>
    decreases msgs.len(),
{
    if msgs.len() == 0 {
        Seq::empty()
    } else {
        encode_with(e, msgs[0]) + encode_stream(encoder_next(e, msgs[0]), msgs.drop_first())
    }
}

/// Where decoding a buffer message by message stops: the state of the decoding side, the bytes
/// left, the messages decoded, and whether it stopped at an error other than too few bytes.
pub struct Drained<S> {
    pub state: S,
    pub rest: Seq<u8>,
    pub messages: Seq<SpecMidiMessage>,
    pub failed: bool,
}

impl<S> Drained<S> {
    /// Every byte was decoded, and no error stopped the decoding.
    pub open spec fn clean(self) -> bool {
        self.rest.len() == 0 && !self.failed
    }
}

/// Decodes messages from the start of `buf` with the status codec `d`, one after the other,
/// as `decode` does when it is called until it returns `Ok(None)` or an error: each message
/// takes its bytes off the buffer; too few bytes end the decoding with the buffer kept (and the
/// state that the attempt left); another error ends it as failed.
pub open spec fn drain<S: MidiStatusCodec>(d: S, buf: Seq<u8>) -> Drained<S>
    decreases buf.len(),
{
    match decode_with(d, buf) {
        Ok((m, n)) => if 0 < n <= buf.len() {
            let r = drain(d.spec_decode_state(buf), buf.skip(n));
            Drained { state: r.state, rest: r.rest, messages: seq![m] + r.messages, failed: r.failed }
        } else {
            Drained { state: d.spec_decode_state(buf), rest: buf, messages: Seq::empty(), failed: true }
        },
        Err(e) => Drained {
            state: d.spec_decode_state(buf),
            rest: buf,
            messages: Seq::empty(),
            failed: !e.spec_is_incomplete(),
        },
    }
}

/// Decodes bytes that arrive in `chunks`: each chunk is appended to the bytes kept, which are
/// then drained; a failure ends it.
pub open spec fn feed<S: MidiStatusCodec>(d: S, buf: Seq<u8>, chunks: Seq<Seq<u8>>) -> Drained<S>
    decreases chunks.len(),
{
    if chunks.len() == 0 {
        Drained { state: d, rest: buf, messages: Seq::empty(), failed: false }
    } else {
        let r = drain(d, buf + chunks[0]);
        if r.failed {
            r
        } else {
            let r2 = feed(r.state, r.rest, chunks.drop_first());
            Drained { state: r2.state, rest: r2.rest, messages: r.messages + r2.messages, failed: r2.failed }
        }
    }
}

/// A message that a codec can encode and decode back: its fields in range and, for a reserved
/// message, a reserved status byte.
pub open spec fn encodable(m: SpecMidiMessage) -> bool {
    m.wf() && m.reserved_ok()
}

/// Every message of `msgs` is encodable.
pub open spec fn all_encodable(msgs: Seq<SpecMidiMessage>) -> bool {
    forall|i: int| 0 <= i < msgs.len() ==> encodable(#[trigger] msgs[i])
}

proof fn lemma_status_bits(m: SpecMidiMessage)
    requires
        encodable(m),
    ensures
        m.status() >= 0x80,
        m.status() & 0xF0 == 0x80 ==> m is NoteOff,
        m.status() & 0xF0 == 0x90 ==> m is NoteOn,
        m.status() & 0xF0 == 0xA0 ==> m is PolyphonicKeyPressure,
        m.status() & 0xF0 == 0xB0 ==> m is ControlChange,
        m.status() & 0xF0 == 0xC0 ==> m is ProgramChange,
        m.status() & 0xF0 == 0xD0 ==> m is ChannelPressure,
        m.status() & 0xF0 == 0xE0 ==> m is PitchBendChange,
        m.status() <= 0xEF <==> (m is NoteOff || m is NoteOn || m is PolyphonicKeyPressure
            || m is ControlChange || m is ProgramChange || m is ChannelPressure
            || m is PitchBendChange),
        match m {
            SpecMidiMessage::NoteOff(c, _, _) => m.status() & 0x0F == c && m.status() & 0xF0 == 0x80,
            SpecMidiMessage::NoteOn(c, _, _) => m.status() & 0x0F == c && m.status() & 0xF0 == 0x90,
            SpecMidiMessage::PolyphonicKeyPressure(c, _, _) => m.status() & 0x0F == c && m.status() & 0xF0 == 0xA0,
            SpecMidiMessage::ControlChange(c, _, _) => m.status() & 0x0F == c && m.status() & 0xF0 == 0xB0,
            SpecMidiMessage::ProgramChange(c, _) => m.status() & 0x0F == c && m.status() & 0xF0 == 0xC0,
            SpecMidiMessage::ChannelPressure(c, _) => m.status() & 0x0F == c && m.status() & 0xF0 == 0xD0,
            SpecMidiMessage::PitchBendChange(c, _) => m.status() & 0x0F == c && m.status() & 0xF0 == 0xE0,
            _ => m.status() & 0xF0 == 0xF0,
        },
{
    assert(forall|c: u8| #![auto] c < 16 ==> {
        &&& (0x80u8 | c) & 0xF0 == 0x80 && (0x80u8 | c) & 0x0F == c
        &&& (0x90u8 | c) & 0xF0 == 0x90 && (0x90u8 | c) & 0x0F == c
        &&& (0xA0u8 | c) & 0xF0 == 0xA0 && (0xA0u8 | c) & 0x0F == c
        &&& (0xB0u8 | c) & 0xF0 == 0xB0 && (0xB0u8 | c) & 0x0F == c
        &&& (0xC0u8 | c) & 0xF0 == 0xC0 && (0xC0u8 | c) & 0x0F == c
        &&& (0xD0u8 | c) & 0xF0 == 0xD0 && (0xD0u8 | c) & 0x0F == c
        &&& (0xE0u8 | c) & 0xF0 == 0xE0 && (0xE0u8 | c) & 0x0F == c
        &&& 0x80u8 <= (0x80u8 | c) <= 0x8F && 0x90u8 <= (0x90u8 | c) <= 0x9F
        &&& 0xA0u8 <= (0xA0u8 | c) <= 0xAF && 0xB0u8 <= (0xB0u8 | c) <= 0xBF
        &&& 0xC0u8 <= (0xC0u8 | c) <= 0xCF && 0xD0u8 <= (0xD0u8 | c) <= 0xDF
        &&& 0xE0u8 <= (0xE0u8 | c) <= 0xEF
    }) by (bit_vector);
    assert(forall|s: u8| #![auto] s >= 0xF0 ==> s & 0xF0 == 0xF0) by (bit_vector);
}

proof fn lemma_u14(v: u16)
    requires
        v < 0x4000,
    ensures
        u14_low(v) < 0x80,
        u14_high(v) < 0x80,
        u14_of(u14_low(v), u14_high(v)) == v,
{
}

/// The data bytes of an encodable message, placed at `start`, decode back to the message.
proof fn lemma_parse_data(m: SpecMidiMessage, raw: Seq<u8>, start: int)
    requires
        encodable(m),
        0 <= start,
        start + m.data_bytes().len() <= raw.len(),
        raw.subrange(start, start + m.data_bytes().len()) == m.data_bytes(),
    ensures
        parse_message(m.status(), raw, start) == Ok::<(SpecMidiMessage, int), ParseError>((m, start + m.data_bytes().len())),
{
    let d = m.data_bytes();
    assert(forall|i: int| 0 <= i < d.len() ==> raw[start + i] == #[trigger] d[i]) by {
        assert forall|i: int| 0 <= i < d.len() implies raw[start + i] == #[trigger] d[i] by {
            assert(raw.subrange(start, start + d.len())[i] == d[i]);
        }
    }
    lemma_status_bits(m);
    if d.len() > 0 {
        assert(raw[start] == d[0]);
    }
    if d.len() > 1 {
        assert(raw[start + 1] == d[1]);
    }
    match m {
        SpecMidiMessage::PitchBendChange(_, v) => {
            lemma_u14(v);
            assert(d[0] == u14_low(v) && d[1] == u14_high(v));
        },
        SpecMidiMessage::SongPositionPointer(v) => {
            lemma_u14(v);
            assert(d[0] == u14_low(v) && d[1] == u14_high(v));
        },
        SpecMidiMessage::SysEx(x) => {
            let k = start + x.len();
            assert(d[x.len() as int] == 0xF7);
            assert forall|j: int| start <= j < k implies #[trigger] raw[j] != 0xF7 by {
                assert(d[j - start] == x[j - start]);
            }
            assert(is_sysex_end(raw, start, k));
            assert forall|e: int| is_sysex_end(raw, start, e) implies e == k by {
                if e < k {
                    assert(d[e - start] == x[e - start]);
                }
            }
            assert(raw.subrange(start, k) =~= x) by {
                assert forall|j: int| 0 <= j < x.len() implies raw.subrange(start, k)[j] == x[j] by {
                    assert(d[j] == x[j]);
                }
            }
        },
        _ => {},

    }
}

/// A proper prefix of the data bytes of an encodable message, placed at `start`, asks for more
/// bytes.
proof fn lemma_parse_data_prefix(m: SpecMidiMessage, raw: Seq<u8>, start: int)
    requires
        encodable(m),
        0 <= start <= raw.len(),
        raw.len() < start + m.data_bytes().len(),
        raw.subrange(start, raw.len() as int) == m.data_bytes().take(raw.len() - start),
    ensures
        parse_message(m.status(), raw, start) matches Err(e) && e.spec_is_incomplete(),
{
    let d = m.data_bytes();
    assert(forall|i: int| 0 <= i < raw.len() - start ==> raw[start + i] == #[trigger] d[i]) by {
        assert forall|i: int| 0 <= i < raw.len() - start implies raw[start + i] == #[trigger] d[i] by {
            assert(raw.subrange(start, raw.len() as int)[i] == d.take(raw.len() - start)[i]);
        }
    }
    lemma_status_bits(m);
    if raw.len() > start {
        assert(raw[start] == d[0]);
    }
    if raw.len() > start + 1 {
        assert(raw[start + 1] == d[1]);
    }
    match m {
        SpecMidiMessage::PitchBendChange(_, v) => {
            lemma_u14(v);
        },
        SpecMidiMessage::SongPositionPointer(v) => {
            lemma_u14(v);
        },
        SpecMidiMessage::SysEx(x) => {
            assert(!exists|e: int| is_sysex_end(raw, start, e)) by {
                if exists|e: int| is_sysex_end(raw, start, e) {
                    let e = choose|e: int| is_sysex_end(raw, start, e);
                    assert(raw[start + (e - start)] == d[e - start]);
                    assert(d[e - start] == x[e - start]);
                }
            }
        },
        _ => {},
    }
}

/// What a running status decodes from bytes that start with `s`, a status byte.
proof fn lemma_running_reads_status(d: RunningStatus, raw: Seq<u8>)
    requires
        raw.len() > 0,
        raw[0] >= 0x80,
    ensures
        d.spec_decode_result(raw) == Ok::<(u8, usize), ParseError>((raw[0], 1usize)),
        d.spec_decode_state(raw) == d.spec_post_encode(raw[0]),
{
}

/// A message that a running status `e` encodes, a running status in the same state decodes
/// back, whatever bytes follow; both sides then hold the same state again.
proof fn lemma_running_roundtrip(e: RunningStatus, m: SpecMidiMessage, rest: Seq<u8>)
    requires
        e.spec_wf(),
        encodable(m),
    ensures
        ({
            let enc = encode_with(e, m);
            let bytes = enc + rest;
            &&& decode_with(e, bytes) == Ok::<(SpecMidiMessage, int), ParseError>((m, enc.len() as int))
            &&& e.spec_decode_state(bytes) == encoder_next(e, m)
            &&& enc.len() > 0
        }),
{
    let enc = encode_with(e, m);
    let bytes = enc + rest;
    let d = m.data_bytes();
    lemma_status_bits(m);
    if e.spec_should_encode_status(m.status()) {
        assert(enc =~= seq![m.status()] + d);
        assert(bytes[0] == m.status());
        lemma_running_reads_status(e, bytes);
        assert(bytes.subrange(1, 1 + d.len() as int) =~= d);
        lemma_parse_data(m, bytes, 1);
    } else {
        assert(enc =~= d);
        assert(d.len() > 0 && d[0] < 0x80) by {
            if m is PitchBendChange {
                lemma_u14(m->PitchBendChange_1);
            }
        }
        assert(bytes[0] == d[0]);
        assert(bytes.subrange(0, d.len() as int) =~= d);
        lemma_parse_data(m, bytes, 0);
    }
}

/// The same for repeated status bytes.
proof fn lemma_repeated_roundtrip(e: RepeatedStatus, m: SpecMidiMessage, rest: Seq<u8>)
    requires
        encodable(m),
    ensures
        ({
            let enc = encode_with(e, m);
            let bytes = enc + rest;
            &&& decode_with(e, bytes) == Ok::<(SpecMidiMessage, int), ParseError>((m, enc.len() as int))
            &&& e.spec_decode_state(bytes) == encoder_next(e, m)
            &&& enc.len() > 0
        }),
{
    let enc = encode_with(e, m);
    let bytes = enc + rest;
    let d = m.data_bytes();
    lemma_status_bits(m);
    assert(enc =~= seq![m.status()] + d);
    assert(bytes[0] == m.status());
    assert(bytes.subrange(1, 1 + d.len() as int) =~= d);
    lemma_parse_data(m, bytes, 1);
}

/// Law: a message that `writer` encodes, a `reader` whose decoding side is in the state of the
/// writer's encoding side decodes back, with the number of bytes written, whatever bytes follow;
/// afterwards the two sides are in the same state again (running status).
pub proof fn law_running_roundtrip(
    writer: MidiCodec<RunningStatus>,
    reader: MidiCodec<RunningStatus>,
    m: SpecMidiMessage,
    rest: Seq<u8>,
)
    requires
        writer.wf(),
        reader.wf(),
        reader.decoder() == writer.encoder(),
        encodable(m),
    ensures
        reader.spec_from_bytes(writer.spec_encoding(m) + rest)
            == Ok::<(SpecMidiMessage, int), ParseError>((m, writer.spec_encoding(m).len() as int)),
        reader.decoder_after(writer.spec_encoding(m) + rest) == writer.encoder_after(m),
{
    lemma_running_roundtrip(writer.encoder(), m, rest);
}

/// Law: a message that `writer` encodes, `reader` decodes back, with the number of bytes
/// written, whatever bytes follow (repeated status bytes).
pub proof fn law_repeated_roundtrip(
    writer: MidiCodec<RepeatedStatus>,
    reader: MidiCodec<RepeatedStatus>,
    m: SpecMidiMessage,
    rest: Seq<u8>,
)
    requires
        encodable(m),
    ensures
        reader.spec_from_bytes(writer.spec_encoding(m) + rest)
            == Ok::<(SpecMidiMessage, int), ParseError>((m, writer.spec_encoding(m).len() as int)),
{
    lemma_repeated_roundtrip(reader.decoder(), m, rest);
}

/// Law: the stream of bytes that `writer` encodes for `msgs` decodes, message by message, to
/// `msgs`, with no byte left over, by a reader whose decoding side starts in the state of the writer's encoding side
/// (running status).
pub proof fn law_running_stream_roundtrip(
    writer: MidiCodec<RunningStatus>,
    reader: MidiCodec<RunningStatus>,
    msgs: Seq<SpecMidiMessage>,
)
    requires
        writer.wf(),
        reader.decoder() == writer.encoder(),
        all_encodable(msgs),
    ensures
        drain(reader.decoder(), encode_stream(writer.encoder(), msgs)).clean(),
        drain(reader.decoder(), encode_stream(writer.encoder(), msgs)).messages == msgs,
{
    lemma_running_stream(writer.encoder(), msgs);
}

proof fn lemma_running_stream(e: RunningStatus, msgs: Seq<SpecMidiMessage>)
    requires
        e.spec_wf(),
        all_encodable(msgs),
    ensures
        drain(e, encode_stream(e, msgs)).clean(),
        drain(e, encode_stream(e, msgs)).messages == msgs,
    decreases msgs.len(),
{
    if msgs.len() == 0 {
        assert(encode_stream(e, msgs).len() == 0);
        assert(encode_stream(e, msgs) =~= Seq::<u8>::empty());
        assert(drain(e, encode_stream(e, msgs)).messages =~= msgs);
    } else {
        let m = msgs[0];
        let tail = msgs.drop_first();
        let e2 = encoder_next(e, m);
        let enc = encode_with(e, m);
        let rest = encode_stream(e2, tail);
        let bytes = enc + rest;
        assert(encodable(msgs[0]));
        assert(all_encodable(tail)) by {
            assert forall|i: int| 0 <= i < tail.len() implies encodable(#[trigger] tail[i]) by {
                assert(tail[i] == msgs[i + 1]);
            }
        }
        lemma_running_roundtrip(e, m, rest);
        assert(e2.spec_wf()) by {
            lemma_status_bits(m);
            RunningStatus::lemma_running(m.status());
            RunningStatus::lemma_running(0);
        }
        lemma_running_stream(e2, tail);
        assert(bytes.skip(enc.len() as int) =~= rest);
        assert(encode_stream(e, msgs) == bytes);
        assert(drain(e, bytes).messages =~= seq![m] + tail);
        assert(seq![m] + tail =~= msgs);
    }
}

/// Law: the stream of bytes that `writer` encodes for `msgs` decodes, message by message, to
/// `msgs`, with no byte left over (repeated status bytes).
pub proof fn law_repeated_stream_roundtrip(
    writer: MidiCodec<RepeatedStatus>,
    reader: MidiCodec<RepeatedStatus>,
    msgs: Seq<SpecMidiMessage>,
)
    requires
        all_encodable(msgs),
    ensures
        drain(reader.decoder(), encode_stream(writer.encoder(), msgs)).clean(),
        drain(reader.decoder(), encode_stream(writer.encoder(), msgs)).messages == msgs,
{
    lemma_repeated_stream(writer.encoder(), msgs);
}

proof fn lemma_repeated_stream(e: RepeatedStatus, msgs: Seq<SpecMidiMessage>)
    requires
        all_encodable(msgs),
    ensures
        drain(e, encode_stream(e, msgs)).clean(),
        drain(e, encode_stream(e, msgs)).messages == msgs,
    decreases msgs.len(),
{
    if msgs.len() == 0 {
        assert(encode_stream(e, msgs) =~= Seq::<u8>::empty());
        assert(drain(e, encode_stream(e, msgs)).messages =~= msgs);
    } else {
        let m = msgs[0];
        let tail = msgs.drop_first();
        let enc = encode_with(e, m);
        let rest = encode_stream(e, tail);
        let bytes = enc + rest;
        assert(encodable(msgs[0]));
        assert(all_encodable(tail)) by {
            assert forall|i: int| 0 <= i < tail.len() implies encodable(#[trigger] tail[i]) by {
                assert(tail[i] == msgs[i + 1]);
            }
        }
        lemma_repeated_roundtrip(e, m, rest);
        lemma_repeated_stream(e, tail);
        assert(bytes.skip(enc.len() as int) =~= rest);
        assert(encode_stream(e, msgs) == bytes);
        assert(drain(e, bytes).messages =~= seq![m] + tail);
        assert(seq![m] + tail =~= msgs);
    }
}

/// Law: a proper prefix of the bytes that `writer` encodes for `m` makes `reader` ask for more
/// bytes (`NoBytes`, `NotEnoughBytes` or `NoSysExEndByte`); after that attempt the reader's
/// decoding side still holds its invariant and decodes the whole encoding, whatever follows it,
/// as it would have without the attempt, ending in the state of the writer's encoding side
/// (running status).
pub proof fn law_running_incomplete(
    writer: MidiCodec<RunningStatus>,
    reader: MidiCodec<RunningStatus>,
    m: SpecMidiMessage,
    k: int,
    rest: Seq<u8>,
)
    requires
        writer.wf(),
        reader.wf(),
        reader.decoder() == writer.encoder(),
        encodable(m),
        0 <= k < writer.spec_encoding(m).len(),
    ensures
        ({
            let enc = writer.spec_encoding(m);
            let p = enc.take(k);
            let after = reader.decoder_after(p);
            &&& (reader.spec_from_bytes(p) matches Err(e) && e.spec_is_incomplete())
            &&& after.spec_wf()
            &&& decode_with(after, enc + rest) == Ok::<(SpecMidiMessage, int), ParseError>((m, enc.len() as int))
            &&& after.spec_decode_state(enc + rest) == writer.encoder_after(m)
        }),
{
    let e = writer.encoder();
    let enc = writer.spec_encoding(m);
    let p = enc.take(k);
    let bytes = enc + rest;
    let d = m.data_bytes();
    let s = m.status();
    lemma_status_bits(m);
    RunningStatus::lemma_running(s);
    RunningStatus::lemma_running(0);
    if k == 0 {
        lemma_running_roundtrip(e, m, rest);
    } else if e.spec_should_encode_status(s) {
        assert(enc =~= seq![s] + d);
        assert(p[0] == s);
        lemma_running_reads_status(e, p);
        assert(p.subrange(1, k) =~= d.take(k - 1));
        lemma_parse_data_prefix(m, p, 1);
        let after = e.spec_post_encode(s);
        assert(bytes[0] == s);
        lemma_running_reads_status(after, bytes);
        assert(bytes.subrange(1, 1 + d.len() as int) =~= d);
        lemma_parse_data(m, bytes, 1);
    } else {
        assert(enc =~= d);
        assert(d.len() > 0 && d[0] < 0x80) by {
            if m is PitchBendChange {
                lemma_u14(m->PitchBendChange_1);
            }
        }
        assert(p[0] == d[0]);
        assert(p.subrange(0, k) =~= d.take(k));
        lemma_parse_data_prefix(m, p, 0);
        assert(reader.decoder_after(p) == e);
        lemma_running_roundtrip(e, m, rest);
    }
}

/// Law: a proper prefix of the bytes that `writer` encodes for `m` makes `reader` ask for more
/// bytes (`NoBytes`, `NotEnoughBytes` or `NoSysExEndByte`), and leaves its decoding side as it
/// was (repeated status bytes).
pub proof fn law_repeated_incomplete(
    writer: MidiCodec<RepeatedStatus>,
    reader: MidiCodec<RepeatedStatus>,
    m: SpecMidiMessage,
    k: int,
)
    requires
        encodable(m),
        0 <= k < writer.spec_encoding(m).len(),
    ensures
        ({
            let p = writer.spec_encoding(m).take(k);
            &&& (reader.spec_from_bytes(p) matches Err(e) && e.spec_is_incomplete())
            &&& reader.decoder_after(p) == reader.decoder()
        }),
{
    let enc = writer.spec_encoding(m);
    let p = enc.take(k);
    let d = m.data_bytes();
    lemma_status_bits(m);
    assert(enc =~= seq![m.status()] + d);
    if k > 0 {
        assert(p[0] == m.status());
        assert(p.subrange(1, k) =~= d.take(k - 1));
        lemma_parse_data_prefix(m, p, 1);
    }
}

/// The first byte of `raw`, or nothing where `raw` is empty.
pub open spec fn first_byte(raw: Seq<u8>) -> Seq<u8> {
    if raw.len() == 0 {
        raw
    } else {
        raw.take(1)
    }
}

/// What the decoding side `d` of a status codec does with `raw`, as the laws on decoding from
/// any bytes rely on it: what it reads and the state it leaves depend on the first byte alone;
/// the state it leaves holds the invariant and reads the same bytes in the same way; no bytes
/// give `NoBytes` and change nothing; a status read is a status byte, at most one byte long,
/// the first byte where it takes one, and a channel voice status where it takes none (running
/// status, before a data byte).
pub open spec fn status_facts<S: MidiStatusCodec>(d: S, raw: Seq<u8>) -> bool {
    let after = d.spec_decode_state(raw);
    &&& d.spec_decode_result(raw) == d.spec_decode_result(first_byte(raw))
    &&& after == d.spec_decode_state(first_byte(raw))
    &&& after.spec_wf()
    &&& after.spec_decode_result(raw) == d.spec_decode_result(raw)
    &&& after.spec_decode_state(raw) == after
    &&& raw.len() == 0 ==> {
        &&& d.spec_decode_result(raw) == Err::<(u8, usize), ParseError>(ParseError::NoBytes)
        &&& after == d
    }
    &&& d.spec_decode_result(raw) matches Ok((s, n)) ==> {
        &&& 0x80 <= s
        &&& n <= 1
        &&& n <= raw.len()
        &&& n == 1 ==> s == raw[0]
        &&& n == 0 ==> s <= 0xEF && raw.len() > 0 && raw[0] < 0x80
    }
}

/// The status codec `S` has `status_facts` in every state that holds its invariant, for all
/// bytes.
#[verifier::opaque]
pub open spec fn reads_status_from_first_byte<S: MidiStatusCodec>() -> bool {
    forall|d: S, raw: Seq<u8>| d.spec_wf() ==> #[trigger] status_facts(d, raw)
}

proof fn use_status_facts<S: MidiStatusCodec>(d: S, raw: Seq<u8>)
    requires
        reads_status_from_first_byte::<S>(),
        d.spec_wf(),
    ensures
        status_facts(d, raw),
{
    reveal(reads_status_from_first_byte);
}

/// Law: both status codecs of the library read their status from the first byte alone, in the
/// sense of `status_facts`.
pub proof fn law_library_status_codecs()
    ensures
        reads_status_from_first_byte::<RepeatedStatus>(),
        reads_status_from_first_byte::<RunningStatus>(),
{
    reveal(reads_status_from_first_byte);
    assert forall|d: RepeatedStatus, raw: Seq<u8>| d.spec_wf() implies #[trigger] status_facts(d, raw) by {
        if raw.len() > 0 {
            assert(first_byte(raw).len() == 1 && first_byte(raw)[0] == raw[0]);
        }
    }
    assert forall|d: RunningStatus, raw: Seq<u8>| d.spec_wf() implies #[trigger] status_facts(d, raw) by {
        RunningStatus::lemma_running(0);
        RunningStatus::lemma_running(d.running());
        if raw.len() > 0 {
            RunningStatus::lemma_running(raw[0]);
            assert(first_byte(raw).len() == 1 && first_byte(raw)[0] == raw[0]);
        }
    }
}

/// A message decoded from `raw` is encodable, takes at least one byte, and its bytes are its
/// encoding: with its status byte where `raw` starts with a status byte, without it (running
/// status) where `raw` starts with a data byte.
proof fn lemma_decoded<S: MidiStatusCodec>(d: S, raw: Seq<u8>)
    requires
        reads_status_from_first_byte::<S>(),
        d.spec_wf(),
    ensures
        decode_with(d, raw) matches Ok((m, n)) ==> {
            &&& encodable(m)
            &&& 1 <= n <= raw.len()
            &&& raw[0] >= 0x80 ==> m.status() == raw[0] && raw.take(n) == m.encoding(true)
            &&& raw[0] < 0x80 ==> raw.take(n) == m.encoding(false)
        },
{
    use_status_facts(d, raw);
    if let Ok((s, sl)) = d.spec_decode_result(raw) {
        crate::message::lemma_parsed_message(s, raw, sl as int);
        if let Ok((m, n)) = decode_with(d, raw) {
            lemma_status_bits(m);
            if sl == 1 {
                assert(raw.take(n) =~= m.encoding(true));
            } else {
                assert(m.data_bytes().len() >= 1);
                assert(raw.take(n) =~= m.encoding(false));
            }
        }
    }
}

/// Decoding reads no byte past the message: any bytes that agree with `raw` on the message's
/// bytes decode to the same message and leave the same state.
proof fn lemma_prefix_independent<S: MidiStatusCodec>(d: S, raw: Seq<u8>, raw2: Seq<u8>)
    requires
        reads_status_from_first_byte::<S>(),
        d.spec_wf(),
        decode_with(d, raw) is Ok,
        raw2.len() >= decode_with(d, raw)->Ok_0.1,
        raw2.take(decode_with(d, raw)->Ok_0.1) == raw.take(decode_with(d, raw)->Ok_0.1),
    ensures
        decode_with(d, raw2) == decode_with(d, raw),
        d.spec_decode_state(raw2) == d.spec_decode_state(raw),
{
    let (m, n) = decode_with(d, raw)->Ok_0;
    lemma_decoded(d, raw);
    use_status_facts(d, raw);
    use_status_facts(d, raw2);
    assert(raw2[0] == raw.take(n)[0]);
    assert(first_byte(raw2) =~= first_byte(raw));
    let (s, sl) = d.spec_decode_result(raw)->Ok_0;
    crate::message::lemma_parsed_message(s, raw, sl as int);
    assert(raw2.subrange(sl as int, n) =~= raw.subrange(sl as int, n)) by {
        assert forall|i: int| 0 <= i < n - sl implies raw2.subrange(sl as int, n)[i] == raw.subrange(sl as int, n)[i] by {
            assert(raw2.take(n)[sl + i] == raw.take(n)[sl + i]);
        }
    }
    lemma_parse_data(m, raw2, sl as int);
}

/// A proper prefix of the bytes of a message that decodes asks for more bytes.
proof fn lemma_short_prefix<S: MidiStatusCodec>(d: S, raw: Seq<u8>, j: int)
    requires
        reads_status_from_first_byte::<S>(),
        d.spec_wf(),
        decode_with(d, raw) is Ok,
        0 <= j < decode_with(d, raw)->Ok_0.1,
    ensures
        decode_with(d, raw.take(j)) matches Err(e) && e.spec_is_incomplete(),
{
    let (m, n) = decode_with(d, raw)->Ok_0;
    lemma_decoded(d, raw);
    let p = raw.take(j);
    use_status_facts(d, raw);
    use_status_facts(d, p);
    if j > 0 {
        assert(first_byte(p) =~= first_byte(raw));
        let (s, sl) = d.spec_decode_result(raw)->Ok_0;
        crate::message::lemma_parsed_message(s, raw, sl as int);
        assert(p.subrange(sl as int, j) =~= m.data_bytes().take(j - sl)) by {
            assert forall|i: int| 0 <= i < j - sl implies p.subrange(sl as int, j)[i] == m.data_bytes().take(j - sl)[i] by {
                assert(raw.subrange(sl as int, n)[i] == m.data_bytes()[i]);
            }
        }
        lemma_parse_data_prefix(m, p, sl as int);
    }
}

/// The state that an attempt on `p` leaves, where `p` is empty or starts with the byte that
/// `raw` starts with, decodes `raw` as the state before it did.
proof fn lemma_retry<S: MidiStatusCodec>(d: S, p: Seq<u8>, raw: Seq<u8>)
    requires
        reads_status_from_first_byte::<S>(),
        d.spec_wf(),
        p.len() == 0 || (raw.len() > 0 && p[0] == raw[0]),
    ensures
        d.spec_decode_state(p).spec_wf(),
        decode_with(d.spec_decode_state(p), raw) == decode_with(d, raw),
        d.spec_decode_state(p).spec_decode_state(raw) == d.spec_decode_state(raw),
{
    use_status_facts(d, p);
    use_status_facts(d, raw);
    if p.len() > 0 {
        assert(first_byte(p) =~= first_byte(raw));
    }
}

/// Draining `x + y` decodes everything: then draining `x` first and, after it, what it leaves
/// with `y`, decodes everything too, into the same messages; and what the first part leaves is
/// a buffer that asks for more bytes.
proof fn lemma_drain_split<S: MidiStatusCodec>(d: S, x: Seq<u8>, y: Seq<u8>)
    requires
        reads_status_from_first_byte::<S>(),
        d.spec_wf(),
        drain(d, x + y).clean(),
    ensures
        ({
            let r = drain(d, x);
            &&& !r.failed
            &&& r.state.spec_wf()
            &&& (decode_with(r.state, r.rest) matches Err(e) && e.spec_is_incomplete())
            &&& drain(r.state, r.rest + y).clean()
            &&& r.messages + drain(r.state, r.rest + y).messages == drain(d, x + y).messages
        }),
    decreases x.len(),
{
    let z = x + y;
    use_status_facts(d, z);
    use_status_facts(d, x);
    match decode_with(d, z) {
        Err(e) => {
            assert(x.len() == 0 && y.len() == 0);
            assert(x =~= z);
            assert(x + y =~= z);
        },
        Ok((m, n)) => {
            lemma_decoded(d, z);
            let d2 = d.spec_decode_state(z);
            if n <= x.len() {
                assert(x.take(n) =~= z.take(n));
                lemma_prefix_independent(d, z, x);
                assert(x.skip(n) + y =~= z.skip(n));
                lemma_drain_split(d2, x.skip(n), y);
                let r = drain(d2, x.skip(n));
                assert(drain(d, x).messages =~= seq![m] + r.messages);
                assert(seq![m] + r.messages + drain(r.state, r.rest + y).messages
                    =~= seq![m] + (r.messages + drain(r.state, r.rest + y).messages));
            } else {
                assert(z.take(x.len() as int) =~= x);
                lemma_short_prefix(d, z, x.len() as int);
                let d1 = d.spec_decode_state(x);
                if x.len() > 0 {
                    assert(x[0] == z[0]);
                }
                lemma_retry(d, x, z);
                lemma_retry(d, x, x);
                assert(x + y =~= z);
                assert(drain(d1, z) == drain(d, z));
                assert(Seq::<SpecMidiMessage>::empty() + drain(d, z).messages =~= drain(d, z).messages);
            }
        },
    }
}

/// Feeding the chunks after a buffer that asks for more bytes decodes the same messages as
/// draining it all at once, where that decodes everything.
proof fn lemma_feed<S: MidiStatusCodec>(d: S, buf: Seq<u8>, chunks: Seq<Seq<u8>>)
    requires
        reads_status_from_first_byte::<S>(),
        d.spec_wf(),
        decode_with(d, buf) matches Err(e) && e.spec_is_incomplete(),
        drain(d, buf + chunks.flatten()).clean(),
    ensures
        feed(d, buf, chunks).clean(),
        feed(d, buf, chunks).messages == drain(d, buf + chunks.flatten()).messages,
    decreases chunks.len(),
{
    if chunks.len() == 0 {
        assert(buf + chunks.flatten() =~= buf);
        assert(feed(d, buf, chunks).messages =~= drain(d, buf).messages);
    } else {
        let x = buf + chunks[0];
        let y = chunks.drop_first().flatten();
        assert(buf + chunks.flatten() =~= x + y);
        lemma_drain_split(d, x, y);
        let r = drain(d, x);
        lemma_feed(r.state, r.rest, chunks.drop_first());
    }
}

/// Law: bytes that arrive in chunks, each appended to what is left and decoded as far as it
/// goes, decode to the same messages as all the bytes at once, with no error and no byte left,
/// wherever decoding all the bytes at once decodes every byte with no error. (Both status
/// codecs of the library qualify: `law_library_status_codecs`.)
pub proof fn law_chunked_decoding<S: MidiStatusCodec>(reader: MidiCodec<S>, chunks: Seq<Seq<u8>>)
    requires
        reads_status_from_first_byte::<S>(),
        reader.wf(),
        drain(reader.decoder(), chunks.flatten()).clean(),
    ensures
        feed(reader.decoder(), Seq::empty(), chunks).clean(),
        feed(reader.decoder(), Seq::empty(), chunks).messages == drain(reader.decoder(), chunks.flatten()).messages,
{
    let d = reader.decoder();
    use_status_facts(d, Seq::empty());
    assert(Seq::<u8>::empty() + chunks.flatten() =~= chunks.flatten());
    lemma_feed(d, Seq::empty(), chunks);
}

/// Law: a message that `codec` decodes from `raw` holds values in range and, if reserved, a
/// reserved status byte; it takes at least one byte; its bytes are its encoding, with the
/// status byte where `raw` starts with one (and that is the message's status byte), without it
/// where `raw` starts with a data byte; and any bytes that agree with `raw` on those bytes
/// decode to the same message and leave the same state.
pub proof fn law_decoded_message<S: MidiStatusCodec>(codec: MidiCodec<S>, raw: Seq<u8>, raw2: Seq<u8>)
    requires
        reads_status_from_first_byte::<S>(),
        codec.wf(),
    ensures
        codec.spec_from_bytes(raw) matches Ok((m, n)) ==> {
            &&& encodable(m)
            &&& 1 <= n <= raw.len()
            &&& raw[0] >= 0x80 ==> m.status() == raw[0] && raw.take(n) == m.encoding(true)
            &&& raw[0] < 0x80 ==> raw.take(n) == m.encoding(false)
            &&& raw2.len() >= n && raw2.take(n) == raw.take(n) ==> {
                &&& codec.spec_from_bytes(raw2) == codec.spec_from_bytes(raw)
                &&& codec.decoder_after(raw2) == codec.decoder_after(raw)
            }
        },
{
    lemma_decoded(codec.decoder(), raw);
    if let Ok((m, n)) = codec.spec_from_bytes(raw) {
        if raw2.len() >= n && raw2.take(n) == raw.take(n) {
            lemma_prefix_independent(codec.decoder(), raw, raw2);
        }
    }
}

/// Law: a codec that has no bytes to decode answers `NoBytes` and keeps its state.
pub proof fn law_empty_input<S: MidiStatusCodec>(codec: MidiCodec<S>)
    requires
        reads_status_from_first_byte::<S>(),
        codec.wf(),
    ensures
        codec.spec_from_bytes(Seq::empty()) == Err::<(SpecMidiMessage, int), ParseError>(ParseError::NoBytes),
        codec.decoder_after(Seq::empty()) == codec.decoder(),
{
    use_status_facts(codec.decoder(), Seq::empty());
}

/// Law: without running status, every message is encoded with its status byte: the encoding is
/// the status byte, then the data bytes (two for notes, key pressure, controllers, pitch bend and
/// song position; one for program change, channel pressure, time code and song select; the data
/// and the end byte for system exclusive data; none otherwise).
pub proof fn law_repeated_writes_every_status(codec: MidiCodec<RepeatedStatus>, m: SpecMidiMessage)
    ensures
        codec.spec_encoding(m) == seq![m.status()] + m.data_bytes(),
        m.data_bytes().len() == match m {
            SpecMidiMessage::NoteOff(..) | SpecMidiMessage::NoteOn(..)
            | SpecMidiMessage::PolyphonicKeyPressure(..) | SpecMidiMessage::ControlChange(..)
            | SpecMidiMessage::PitchBendChange(..) | SpecMidiMessage::SongPositionPointer(..) => 2,
            SpecMidiMessage::ProgramChange(..) | SpecMidiMessage::ChannelPressure(..)
            | SpecMidiMessage::MidiTimeCode(..) | SpecMidiMessage::SongSelect(..) => 1,
            SpecMidiMessage::SysEx(d) => d.len() + 1,
            _ => 0,
        },
{
}

/// Law: a 14 bit value splits into two data bytes that combine back to it, and two data bytes
/// combine into a 14 bit value that splits back into them.
pub proof fn law_u14_split_combine(v: u16, lower: u8, higher: u8)
    ensures
        v < 0x4000 ==> u14_low(v) < 0x80 && u14_high(v) < 0x80 && u14_of(u14_low(v), u14_high(v)) == v,
        lower < 0x80 && higher < 0x80 ==> {
            &&& u14_of(lower, higher) < 0x4000
            &&& u14_low(u14_of(lower, higher)) == lower
            &&& u14_high(u14_of(lower, higher)) == higher
        },
{
    if v < 0x4000 {
        lemma_u14(v);
    }
    if lower < 0x80 && higher < 0x80 {
        crate::message::lemma_u14_of(lower, higher);
    }
}

/// Law: how running status moves. After a channel voice status `s` is written or read, `s` is
/// left out before the next message and any other voice status is written; a system common
/// status (0xF0 to 0xF7) cancels it, so that every voice status is written again; a realtime
/// status or a data byte leaves it as it was; and a status that is not a voice status is
/// always written.
pub proof fn law_running_status_steps(r: RunningStatus, s: u8, v: u8)
    requires
        r.spec_wf(),
    ensures
        spec_status_class(s) == Ok::<StatusClass, ParseError>(StatusClass::Voice) ==> {
            &&& !r.spec_post_encode(s).spec_should_encode_status(s)
            &&& (v != s ==> r.spec_post_encode(s).spec_should_encode_status(v))
            &&& r.spec_decode_state(seq![s]) == r.spec_post_encode(s)
        },
        spec_status_class(s) == Ok::<StatusClass, ParseError>(StatusClass::System) ==> {
            &&& (spec_status_class(v) == Ok::<StatusClass, ParseError>(StatusClass::Voice)
                ==> r.spec_post_encode(s).spec_should_encode_status(v))
            &&& r.spec_decode_state(seq![s]) == r.spec_post_encode(s)
        },
        (spec_status_class(s) == Ok::<StatusClass, ParseError>(StatusClass::RealTime) || s < 0x80) ==> {
            &&& r.spec_post_encode(s) == r
            &&& r.spec_decode_state(seq![s]) == r
        },
        spec_status_class(s) != Ok::<StatusClass, ParseError>(StatusClass::Voice) ==> r.spec_should_encode_status(s),
{
    RunningStatus::lemma_running(s);
    RunningStatus::lemma_running(0);
}

/// Law: which bytes are which. A byte below 0x80 is a data byte; 0x80 to 0xEF are channel voice
/// statuses; 0xF0 to 0xF7 system common statuses; 0xF8 to 0xFF realtime statuses.
pub proof fn law_status_classes(s: u8)
    ensures
        s < 0x80 ==> spec_status_class(s) == Err::<StatusClass, ParseError>(ParseError::UnexpectedDataByte),
        0x80 <= s <= 0xEF ==> spec_status_class(s) == Ok::<StatusClass, ParseError>(StatusClass::Voice),
        0xF0 <= s <= 0xF7 ==> spec_status_class(s) == Ok::<StatusClass, ParseError>(StatusClass::System),
        0xF8 <= s ==> spec_status_class(s) == Ok::<StatusClass, ParseError>(StatusClass::RealTime),
{
}

/// Law (running status, writing): after a channel voice status 0x80 to 0xEF has been written,
/// exactly that status is left out before a following voice message; after a system common
/// status 0xF0 to 0xF7, every voice status is written again; a realtime status 0xF8 to 0xFF
/// leaves the state as it was; and a status of 0xF0 or more is always written.
pub proof fn law_running_status_writing(r: RunningStatus, s: u8, v: u8)
    requires
        r.spec_wf(),
        0x80 <= v <= 0xEF,
    ensures
        0x80 <= s <= 0xEF ==> (r.spec_post_encode(s).spec_should_encode_status(v) <==> v != s),
        0xF0 <= s <= 0xF7 ==> r.spec_post_encode(s).spec_should_encode_status(v),
        0xF8 <= s ==> r.spec_post_encode(s) == r,
        0xF0 <= s ==> r.spec_should_encode_status(s),
{
    RunningStatus::lemma_running(s);
    RunningStatus::lemma_running(0);
}

/// Law (running status, reading): a status byte 0x80 or more is read as the status, taking one
/// byte; after a channel voice status 0x80 to 0xEF, a data byte continues it (status read,
/// taking no byte); after a system common status 0xF0 to 0xF7, a data byte has no status to
/// continue; a realtime status 0xF8 to 0xFF and a data byte leave the state as it was.
pub proof fn law_running_status_reading(r: RunningStatus, s: u8, d: u8, rest: Seq<u8>, more: Seq<u8>)
    requires
        r.spec_wf(),
        d < 0x80,
    ensures
        0x80 <= s ==> r.spec_decode_result(seq![s] + rest) == Ok::<(u8, usize), ParseError>((s, 1usize)),
        0x80 <= s <= 0xEF ==> r.spec_decode_state(seq![s] + rest).spec_decode_result(seq![d] + more)
            == Ok::<(u8, usize), ParseError>((s, 0usize)),
        0xF0 <= s <= 0xF7 ==> r.spec_decode_state(seq![s] + rest).spec_decode_result(seq![d] + more)
            == Err::<(u8, usize), ParseError>(ParseError::UnexpectedDataByte),
        0xF8 <= s ==> r.spec_decode_state(seq![s] + rest) == r,
        r.spec_decode_state(seq![d] + more) == r,
{
    RunningStatus::lemma_running(s);
    RunningStatus::lemma_running(0);
    assert((seq![s] + rest)[0] == s);
    assert((seq![d] + more)[0] == d);
}

/// Law: the bytes of every message, without running status: the status byte (the kind of
/// message in the high four bits and the channel in the low four for channel messages; the
/// fixed status for the others) and then the data bytes in the order of the message's fields
/// (note then velocity or pressure, controller then value; 14 bit values low 7 bits first).
pub proof fn law_encoding_table(
    codec: MidiCodec<RepeatedStatus>,
    c: u8,
    a: u8,
    b: u8,
    v: u16,
    x: Seq<u8>,
    s: u8,
)
    requires
        c < 16,
    ensures
        codec.spec_encoding(SpecMidiMessage::NoteOff(c, a, b)) == seq![(0x80 + c) as u8, a, b],
        codec.spec_encoding(SpecMidiMessage::NoteOn(c, a, b)) == seq![(0x90 + c) as u8, a, b],
        codec.spec_encoding(SpecMidiMessage::PolyphonicKeyPressure(c, a, b)) == seq![(0xA0 + c) as u8, a, b],
        codec.spec_encoding(SpecMidiMessage::ControlChange(c, a, b)) == seq![(0xB0 + c) as u8, a, b],
        codec.spec_encoding(SpecMidiMessage::ProgramChange(c, a)) == seq![(0xC0 + c) as u8, a],
        codec.spec_encoding(SpecMidiMessage::ChannelPressure(c, a)) == seq![(0xD0 + c) as u8, a],
        codec.spec_encoding(SpecMidiMessage::PitchBendChange(c, v))
            == seq![(0xE0 + c) as u8, (v % 128) as u8, (v / 128) as u8],
        codec.spec_encoding(SpecMidiMessage::SysEx(x)) == seq![0xF0u8] + x + seq![0xF7u8],
        codec.spec_encoding(SpecMidiMessage::MidiTimeCode(a)) == seq![0xF1u8, a],
        codec.spec_encoding(SpecMidiMessage::SongPositionPointer(v))
            == seq![0xF2u8, (v % 128) as u8, (v / 128) as u8],
        codec.spec_encoding(SpecMidiMessage::SongSelect(a)) == seq![0xF3u8, a],
        codec.spec_encoding(SpecMidiMessage::Reserved(s)) == seq![s],
        codec.spec_encoding(SpecMidiMessage::TuneRequest) == seq![0xF6u8],
        codec.spec_encoding(SpecMidiMessage::TimingClock) == seq![0xF8u8],
        codec.spec_encoding(SpecMidiMessage::Start) == seq![0xFAu8],
        codec.spec_encoding(SpecMidiMessage::Continue) == seq![0xFBu8],
        codec.spec_encoding(SpecMidiMessage::Stop) == seq![0xFCu8],
        codec.spec_encoding(SpecMidiMessage::ActiveSensing) == seq![0xFEu8],
        codec.spec_encoding(SpecMidiMessage::Reset) == seq![0xFFu8],
{
    assert({
        &&& (0x80u8 | c) == (0x80 + c) as u8 && (0x90u8 | c) == (0x90 + c) as u8
        &&& (0xA0u8 | c) == (0xA0 + c) as u8 && (0xB0u8 | c) == (0xB0 + c) as u8
        &&& (0xC0u8 | c) == (0xC0 + c) as u8 && (0xD0u8 | c) == (0xD0 + c) as u8
        &&& (0xE0u8 | c) == (0xE0 + c) as u8
    }) by (bit_vector)
        requires
            c < 16,
    ;
    assert(codec.spec_encoding(SpecMidiMessage::NoteOff(c, a, b)) =~= seq![(0x80 + c) as u8, a, b]);
    assert(codec.spec_encoding(SpecMidiMessage::NoteOn(c, a, b)) =~= seq![(0x90 + c) as u8, a, b]);
    assert(codec.spec_encoding(SpecMidiMessage::PolyphonicKeyPressure(c, a, b)) =~= seq![(0xA0 + c) as u8, a, b]);
    assert(codec.spec_encoding(SpecMidiMessage::ControlChange(c, a, b)) =~= seq![(0xB0 + c) as u8, a, b]);
    assert(codec.spec_encoding(SpecMidiMessage::ProgramChange(c, a)) =~= seq![(0xC0 + c) as u8, a]);
    assert(codec.spec_encoding(SpecMidiMessage::ChannelPressure(c, a)) =~= seq![(0xD0 + c) as u8, a]);
    assert(codec.spec_encoding(SpecMidiMessage::PitchBendChange(c, v))
        =~= seq![(0xE0 + c) as u8, (v % 128) as u8, (v / 128) as u8]);
    assert(codec.spec_encoding(SpecMidiMessage::SysEx(x)) =~= seq![0xF0u8] + x + seq![0xF7u8]);
    assert(codec.spec_encoding(SpecMidiMessage::MidiTimeCode(a)) =~= seq![0xF1u8, a]);
    assert(codec.spec_encoding(SpecMidiMessage::SongPositionPointer(v))
        =~= seq![0xF2u8, (v % 128) as u8, (v / 128) as u8]);
    assert(codec.spec_encoding(SpecMidiMessage::SongSelect(a)) =~= seq![0xF3u8, a]);
    assert(codec.spec_encoding(SpecMidiMessage::Reserved(s)) =~= seq![s]);
    assert(codec.spec_encoding(SpecMidiMessage::TuneRequest) =~= seq![0xF6u8]);
    assert(codec.spec_encoding(SpecMidiMessage::TimingClock) =~= seq![0xF8u8]);
    assert(codec.spec_encoding(SpecMidiMessage::Start) =~= seq![0xFAu8]);
    assert(codec.spec_encoding(SpecMidiMessage::Continue) =~= seq![0xFBu8]);
    assert(codec.spec_encoding(SpecMidiMessage::Stop) =~= seq![0xFCu8]);
    assert(codec.spec_encoding(SpecMidiMessage::ActiveSensing) =~= seq![0xFEu8]);
    assert(codec.spec_encoding(SpecMidiMessage::Reset) =~= seq![0xFFu8]);
}

/// Law: what the bytes of each message decode to, whatever follows them: the status byte picks
/// the kind of message (and for channel messages the channel, from its low four bits), and the
/// data bytes fill the message's fields in order (note then velocity or pressure, controller
/// then value; 14 bit values low 7 bits first).
pub proof fn law_decoding_table(codec: MidiCodec<RepeatedStatus>, c: u8, a: u8, b: u8, rest: Seq<u8>)
    requires
        c < 16,
        a < 0x80,
        b < 0x80,
    ensures
        codec.spec_from_bytes(seq![(0x80 + c) as u8, a, b] + rest)
            == Ok::<(SpecMidiMessage, int), ParseError>((SpecMidiMessage::NoteOff(c, a, b), 3)),
        codec.spec_from_bytes(seq![(0x90 + c) as u8, a, b] + rest)
            == Ok::<(SpecMidiMessage, int), ParseError>((SpecMidiMessage::NoteOn(c, a, b), 3)),
        codec.spec_from_bytes(seq![(0xA0 + c) as u8, a, b] + rest)
            == Ok::<(SpecMidiMessage, int), ParseError>((SpecMidiMessage::PolyphonicKeyPressure(c, a, b), 3)),
        codec.spec_from_bytes(seq![(0xB0 + c) as u8, a, b] + rest)
            == Ok::<(SpecMidiMessage, int), ParseError>((SpecMidiMessage::ControlChange(c, a, b), 3)),
        codec.spec_from_bytes(seq![(0xC0 + c) as u8, a] + rest)
            == Ok::<(SpecMidiMessage, int), ParseError>((SpecMidiMessage::ProgramChange(c, a), 2)),
        codec.spec_from_bytes(seq![(0xD0 + c) as u8, a] + rest)
            == Ok::<(SpecMidiMessage, int), ParseError>((SpecMidiMessage::ChannelPressure(c, a), 2)),
        codec.spec_from_bytes(seq![(0xE0 + c) as u8, a, b] + rest)
            == Ok::<(SpecMidiMessage, int), ParseError>((SpecMidiMessage::PitchBendChange(c, (a + 128 * b) as u16), 3)),
        codec.spec_from_bytes(seq![0xF1u8, a] + rest)
            == Ok::<(SpecMidiMessage, int), ParseError>((SpecMidiMessage::MidiTimeCode(a), 2)),
        codec.spec_from_bytes(seq![0xF2u8, a, b] + rest)
            == Ok::<(SpecMidiMessage, int), ParseError>((SpecMidiMessage::SongPositionPointer((a + 128 * b) as u16), 3)),
        codec.spec_from_bytes(seq![0xF3u8, a] + rest)
            == Ok::<(SpecMidiMessage, int), ParseError>((SpecMidiMessage::SongSelect(a), 2)),
        codec.spec_from_bytes(seq![0xF6u8] + rest)
            == Ok::<(SpecMidiMessage, int), ParseError>((SpecMidiMessage::TuneRequest, 1)),
        codec.spec_from_bytes(seq![0xF8u8] + rest)
            == Ok::<(SpecMidiMessage, int), ParseError>((SpecMidiMessage::TimingClock, 1)),
        codec.spec_from_bytes(seq![0xFAu8] + rest)
            == Ok::<(SpecMidiMessage, int), ParseError>((SpecMidiMessage::Start, 1)),
        codec.spec_from_bytes(seq![0xFBu8] + rest)
            == Ok::<(SpecMidiMessage, int), ParseError>((SpecMidiMessage::Continue, 1)),
        codec.spec_from_bytes(seq![0xFCu8] + rest)
            == Ok::<(SpecMidiMessage, int), ParseError>((SpecMidiMessage::Stop, 1)),
        codec.spec_from_bytes(seq![0xFEu8] + rest)
            == Ok::<(SpecMidiMessage, int), ParseError>((SpecMidiMessage::ActiveSensing, 1)),
        codec.spec_from_bytes(seq![0xFFu8] + rest)
            == Ok::<(SpecMidiMessage, int), ParseError>((SpecMidiMessage::Reset, 1)),
        codec.spec_from_bytes(seq![0xF7u8] + rest)
            == Err::<(SpecMidiMessage, int), ParseError>(ParseError::UnexpectedEndSysExByte),
{
    let d = codec.decoder();
    let v = (a + 128 * b) as u16;
    crate::message::lemma_u14_of(a, b);
    assert(v == u14_of(a, b));
    law_encoding_table(codec, c, a, b, v, Seq::empty(), 0);
    lemma_repeated_roundtrip(d, SpecMidiMessage::NoteOff(c, a, b), rest);
    lemma_repeated_roundtrip(d, SpecMidiMessage::NoteOn(c, a, b), rest);
    lemma_repeated_roundtrip(d, SpecMidiMessage::PolyphonicKeyPressure(c, a, b), rest);
    lemma_repeated_roundtrip(d, SpecMidiMessage::ControlChange(c, a, b), rest);
    lemma_repeated_roundtrip(d, SpecMidiMessage::ProgramChange(c, a), rest);
    lemma_repeated_roundtrip(d, SpecMidiMessage::ChannelPressure(c, a), rest);
    lemma_repeated_roundtrip(d, SpecMidiMessage::PitchBendChange(c, v), rest);
    lemma_repeated_roundtrip(d, SpecMidiMessage::MidiTimeCode(a), rest);
    lemma_repeated_roundtrip(d, SpecMidiMessage::SongPositionPointer(v), rest);
    lemma_repeated_roundtrip(d, SpecMidiMessage::SongSelect(a), rest);
    lemma_repeated_roundtrip(d, SpecMidiMessage::TuneRequest, rest);
    lemma_repeated_roundtrip(d, SpecMidiMessage::TimingClock, rest);
    lemma_repeated_roundtrip(d, SpecMidiMessage::Start, rest);
    lemma_repeated_roundtrip(d, SpecMidiMessage::Continue, rest);
    lemma_repeated_roundtrip(d, SpecMidiMessage::Stop, rest);
    lemma_repeated_roundtrip(d, SpecMidiMessage::ActiveSensing, rest);
    lemma_repeated_roundtrip(d, SpecMidiMessage::Reset, rest);
    assert((seq![0xF7u8] + rest)[0] == 0xF7);
    assert(0xF7u8 & 0xF0 == 0xF0) by (bit_vector);
}

} // verus!

//! The MIDI codec: encodes messages into bytes and decodes them back, with a status codec on
//! each side.

use vstd::prelude::*;
use crate::message::{
    data_at, is_sysex_end, parse_message, u14_high, u14_low, u14_of, MidiMessage, ParseError,
    SpecMidiMessage,
};
use crate::status::{MidiStatusCodec, RepeatedStatus, RunningStatus};
use crate::data::{channel_from_index, u14_try_from, u7_new, u7_try_from_bytes};

verus! {

/// Encodes and decodes streams of MIDI messages.
#[derive(Debug, Clone)]
pub struct MidiCodec<S: MidiStatusCodec = RepeatedStatus> {
    encode_status: S,
    decode_status: S,
}

impl MidiCodec {
    /// Constructs a new MIDI codec without "running status".
    pub fn new() -> (r: Self)
        ensures
            r.encoder() == RepeatedStatus,
            r.decoder() == RepeatedStatus,
            r.wf(),
    {
        MidiCodec { encode_status: RepeatedStatus, decode_status: RepeatedStatus }
    }
}

impl MidiCodec<RunningStatus> {
    /// Constructs a new MIDI codec with "running status".
    pub fn with_running_status() -> (r: Self)
        ensures
            r.encoder() == RunningStatus::spec_initial(),
            r.decoder() == RunningStatus::spec_initial(),
            r.wf(),
    {
        MidiCodec { encode_status: RunningStatus::default(), decode_status: RunningStatus::default() }
    }
}

impl Default for MidiCodec<RepeatedStatus> {
    fn default() -> (r: Self)
        ensures
            r.encoder() == RepeatedStatus,
            r.decoder() == RepeatedStatus,
            r.wf(),
    {
        MidiCodec::new()
    }
}

impl Default for MidiCodec<RunningStatus> {
    fn default() -> (r: Self)
        ensures
            r.encoder() == RunningStatus::spec_initial(),
            r.decoder() == RunningStatus::spec_initial(),
            r.wf(),
    {
        MidiCodec::with_running_status()
    }
}

/// The bytes that encode `m` with the status codec `e`: its status byte where `e` writes it,
/// then its data bytes.
pub open spec fn encode_with<S: MidiStatusCodec>(e: S, m: SpecMidiMessage) -> Seq<u8> {
    m.encoding(e.spec_should_encode_status(m.status()))
}

/// The state of the status codec `e` after it has encoded `m`.
pub open spec fn encoder_next<S: MidiStatusCodec>(e: S, m: SpecMidiMessage) -> S {
    if e.spec_should_encode_status(m.status()) {
        e.spec_post_encode(m.status())
    } else {
        e
    }
}

/// The message that the status codec `d` decodes at the start of `raw`, and the number of
/// bytes that it takes.
pub open spec fn decode_with<S: MidiStatusCodec>(d: S, raw: Seq<u8>) -> Result<(SpecMidiMessage, int), ParseError> {
    match d.spec_decode_result(raw) {
        Err(e) => Err(e),
        Ok((s, n)) => parse_message(s, raw, n as int),
    }
}

impl<S: MidiStatusCodec> MidiCodec<S> {
    /// The state of the encoding side.
    pub closed spec fn encoder(&self) -> S {
        self.encode_status
    }

    /// The state of the decoding side.
    pub closed spec fn decoder(&self) -> S {
        self.decode_status
    }

    /// Both sides hold their status codec's invariant.
    pub open spec fn wf(&self) -> bool {
        self.encoder().spec_wf() && self.decoder().spec_wf()
    }

    /// Whether the status byte of `m` is written when `m` is the next message encoded.
    pub open spec fn writes_status(&self, m: SpecMidiMessage) -> bool {
        self.encoder().spec_should_encode_status(m.status())
    }

    /// The bytes that encode `m` when it is the next message encoded.
    pub open spec fn spec_encoding(&self, m: SpecMidiMessage) -> Seq<u8> {
        encode_with(self.encoder(), m)
    }

    /// The state of the encoding side after `m` has been encoded.
    pub open spec fn encoder_after(&self, m: SpecMidiMessage) -> S {
        encoder_next(self.encoder(), m)
    }

    /// The message decoded at the start of `raw`, and the number of bytes that it takes.
    pub open spec fn spec_from_bytes(&self, raw: Seq<u8>) -> Result<(SpecMidiMessage, int), ParseError> {
        decode_with(self.decoder(), raw)
    }

    /// The state of the decoding side after a message has been decoded from `raw`.
    pub open spec fn decoder_after(&self, raw: Seq<u8>) -> S {
        self.decoder().spec_decode_state(raw)
    }

    /// Returns the number of bytes that would be needed to encode the given message if it were the
    /// next message to be encoded.
    pub fn byte_size(&self, message: &MidiMessage) -> (n: usize)
        requires
            self.wf(),
            self.spec_encoding(message@).len() <= usize::MAX,
        ensures
            n == self.spec_encoding(message@).len(),
    {
        let status = status_byte(message);
        let status_len: usize = if self.encode_status.should_encode_status(status) {
            1
        } else {
            0
        };

        let data_len: usize = match message {
            MidiMessage::NoteOff(_, _, _)
            | MidiMessage::NoteOn(_, _, _)
            | MidiMessage::PolyphonicKeyPressure(_, _, _)
            | MidiMessage::ControlChange(_, _, _) => 2,
            MidiMessage::ProgramChange(_, _) | MidiMessage::ChannelPressure(_, _) => 1,
            MidiMessage::PitchBendChange(_, _) => 2,
            MidiMessage::SysEx(b) => b.len() + 1,
            MidiMessage::MidiTimeCode(_) => 1,
            MidiMessage::SongPositionPointer(_) => 2,
            MidiMessage::SongSelect(_) => 1,
            MidiMessage::Reserved(_)
            | MidiMessage::TuneRequest
            | MidiMessage::TimingClock
            | MidiMessage::Start
            | MidiMessage::Continue
            | MidiMessage::Stop
            | MidiMessage::ActiveSensing
            | MidiMessage::Reset => 0,
        };

        status_len + data_len
    }

    /// Encodes the given message and returns the number of bytes written. The buffer must have
    /// room for them (the bytes that `byte_size` counts).
    pub fn copy_to_slice(&mut self, message: &MidiMessage, buf: &mut [u8]) -> (n: usize)
        requires
            old(self).wf(),
            old(self).spec_encoding(message@).len() <= old(buf)@.len(),
        ensures
            n == old(self).spec_encoding(message@).len(),
            final(buf)@ == old(self).spec_encoding(message@) + old(buf)@.skip(n as int),
            final(self).encoder() == old(self).encoder_after(message@),
            final(self).decoder() == old(self).decoder(),
            final(self).wf(),
    {
        let ghost enc = old(self).spec_encoding(message@);
        let ghost data = message@.data_bytes();
        let ghost old_buf = old(buf)@;
        let mut cursor: usize = 0;

        let status = status_byte(message);
        if self.encode_status.should_encode_status(status) {
            buf[0] = status;
            cursor = 1;
            self.encode_status.post_encode(status);
        }
        let ghost start = cursor as int;
        if cursor == 1 {
            assert(enc =~= seq![status] + data);
        } else {
            assert(enc =~= data);
        }

        match message {
            MidiMessage::NoteOff(_, b, c)
            | MidiMessage::NoteOn(_, b, c)
            | MidiMessage::PolyphonicKeyPressure(_, b, c)
            | MidiMessage::ControlChange(_, b, c) => {
                buf[cursor] = *b;
                buf[cursor + 1] = *c;
                cursor = cursor + 2;
            },
            MidiMessage::ProgramChange(_, b) | MidiMessage::ChannelPressure(_, b) => {
                buf[cursor] = *b;
                cursor = cursor + 1;
            },
            MidiMessage::PitchBendChange(_, b) => {
                let bytes = split_u14(*b);
                buf[cursor] = bytes[0];
                buf[cursor + 1] = bytes[1];
                cursor = cursor + 2;
            },
            MidiMessage::SysEx(b) => {
                let len = b.len();
                let blen = buf.len();
                let mut i: usize = 0;
                while i < len
                    invariant
                        0 <= i <= len,
                        len == b@.len(),
                        cursor == start,
                        start + len + 1 <= buf@.len(),
                        buf@.len() == old_buf.len(),
                        buf@.len() == blen,
                        enc.len() == start + len + 1,
                        forall|j: int| 0 <= j < start + i ==> buf@[j] == #[trigger] enc[j],
                        forall|j: int| start + i <= j < buf@.len() ==> buf@[j] == #[trigger] old_buf[j],
                        forall|j: int| 0 <= j < len ==> enc[start + j] == #[trigger] b@[j],
                    decreases len - i,
                {
                    buf[cursor + i] = b[i];
                    i = i + 1;
                }
                cursor = cursor + len;
                buf[cursor] = 0xF7;
                cursor = cursor + 1;
            },
            MidiMessage::MidiTimeCode(b) => {
                buf[cursor] = *b;
                cursor = cursor + 1;
            },
            MidiMessage::SongPositionPointer(b) => {
                let bytes = split_u14(*b);
                buf[cursor] = bytes[0];
                buf[cursor + 1] = bytes[1];
                cursor = cursor + 2;
            },
            MidiMessage::SongSelect(b) => {
                buf[cursor] = *b;
                cursor = cursor + 1;
            },
            MidiMessage::Reserved(_)
            | MidiMessage::TuneRequest
            | MidiMessage::TimingClock
            | MidiMessage::Start
            | MidiMessage::Continue
            | MidiMessage::Stop
            | MidiMessage::ActiveSensing
            | MidiMessage::Reset => {
                // No data bytes
            },
        }

        assert(buf@ =~= enc + old_buf.skip(cursor as int));
        cursor
    }

    /// Decodes a message from the given buffer. Returns the message and the number of bytes read.
    /// A message whose bytes run past the end of the buffer gives `NotEnoughBytes`, or
    /// `NoSysExEndByte` for system exclusive data.
    pub fn from_bytes(&mut self, raw: &[u8]) -> (r: Result<(MidiMessage, usize), ParseError>)
        requires
            old(self).wf(),
        ensures
            final(self).wf(),
            final(self).encoder() == old(self).encoder(),
            final(self).decoder() == old(self).decoder_after(raw@),
            match r {
                Ok((m, n)) => old(self).spec_from_bytes(raw@) == Ok::<(SpecMidiMessage, int), ParseError>((m@, n as int)),
                Err(e) => old(self).spec_from_bytes(raw@) == Err::<(SpecMidiMessage, int), ParseError>(e),
            },
            r matches Ok((_, n)) ==> n <= raw@.len(),
            r matches Ok((m, _)) ==> m@.wf() && m@.reserved_ok(),
    {
        let (status, status_len) = match self.decode_status.decode_status(raw) {
            Ok(p) => p,
            Err(e) => return Err(e),
        };
        let mut cursor: usize = status_len;
        proof {
            crate::message::lemma_parsed_message(status, raw@, status_len as int);
        }

        assert(status & 0x0F < 16) by (bit_vector);
        let channel = match channel_from_index(status & 0x0F) {
            Ok(c) => c,
            Err(_) => return Err(ParseError::ChannelOutOfRange),
        };
        let hi = status & 0xF0;

        let message = if hi == 0x80 {
            let a = next_data_byte(raw, cursor)?;
            let b = next_data_byte(raw, cursor + 1)?;
            cursor = cursor + 2;
            MidiMessage::NoteOff(channel, a, b)
        } else if hi == 0x90 {
            let a = next_data_byte(raw, cursor)?;
            let b = next_data_byte(raw, cursor + 1)?;
            cursor = cursor + 2;
            MidiMessage::NoteOn(channel, a, b)
        } else if hi == 0xA0 {
            let a = next_data_byte(raw, cursor)?;
            let b = next_data_byte(raw, cursor + 1)?;
            cursor = cursor + 2;
            MidiMessage::PolyphonicKeyPressure(channel, a, b)
        } else if hi == 0xB0 {
            let a = next_data_byte(raw, cursor)?;
            let b = next_data_byte(raw, cursor + 1)?;
            cursor = cursor + 2;
            MidiMessage::ControlChange(channel, a, b)
        } else if hi == 0xC0 {
            let a = next_data_byte(raw, cursor)?;
            cursor = cursor + 1;
            MidiMessage::ProgramChange(channel, a)
        } else if hi == 0xD0 {
            let a = next_data_byte(raw, cursor)?;
            cursor = cursor + 1;
            MidiMessage::ChannelPressure(channel, a)
        } else if hi == 0xE0 {
            let a = next_data_byte(raw, cursor)?;
            let b = next_data_byte(raw, cursor + 1)?;
            cursor = cursor + 2;
            MidiMessage::PitchBendChange(channel, combine_u14(a, b))
        } else if hi != 0xF0 {
            proof {
                assert(status < 0x80) by (bit_vector)
                    requires
                        hi == status & 0xF0,
                        hi != 0x80 && hi != 0x90 && hi != 0xA0 && hi != 0xB0,
                        hi != 0xC0 && hi != 0xD0 && hi != 0xE0 && hi != 0xF0,
                ;
            }
            return Err(ParseError::UnexpectedDataByte);
        } else if status == 0xF0 {
            let mut k: usize = cursor;
            while k < raw.len() && raw[k] != 0xF7
                invariant
                    cursor <= k <= raw@.len(),
                    forall|j: int| cursor <= j < k ==> #[trigger] raw@[j] != 0xF7,
                decreases raw@.len() - k,
            {
                k = k + 1;
            }
            if k == raw.len() {
                assert(!exists|e: int| is_sysex_end(raw@, cursor as int, e));
                return Err(ParseError::NoSysExEndByte);
            }
            assert(is_sysex_end(raw@, cursor as int, k as int));
            assert(forall|e: int| is_sysex_end(raw@, cursor as int, e) ==> e == k);
            let data = match u7_try_from_bytes(vstd::slice::slice_subrange(raw, cursor, k)) {
                Ok(d) => d,
                Err(_) => return Err(ParseError::DataByteOutOfRange),
            };
            cursor = k + 1;
            MidiMessage::SysEx(data)
        } else if status == 0xF1 {
            let a = next_data_byte(raw, cursor)?;
            cursor = cursor + 1;
            MidiMessage::MidiTimeCode(a)
        } else if status == 0xF2 {
            let a = next_data_byte(raw, cursor)?;
            let b = next_data_byte(raw, cursor + 1)?;
            cursor = cursor + 2;
            MidiMessage::SongPositionPointer(combine_u14(a, b))
        } else if status == 0xF3 {
            let a = next_data_byte(raw, cursor)?;
            cursor = cursor + 1;
            MidiMessage::SongSelect(a)
        } else if status == 0xF4 || status == 0xF5 || status == 0xF9 || status == 0xFD {
            MidiMessage::Reserved(status)
        } else if status == 0xF6 {
            MidiMessage::TuneRequest
        } else if status == 0xF7 {
            return Err(ParseError::UnexpectedEndSysExByte);
        } else if status == 0xF8 {
            MidiMessage::TimingClock
        } else if status == 0xFA {
            MidiMessage::Start
        } else if status == 0xFB {
            MidiMessage::Continue
        } else if status == 0xFC {
            MidiMessage::Stop
        } else if status == 0xFE {
            MidiMessage::ActiveSensing
        } else {
            MidiMessage::Reset
        };

        Ok((message, cursor))
    }
}

/// The data byte at index `i` of `raw`.
fn next_data_byte(raw: &[u8], i: usize) -> (r: Result<u8, ParseError>)
    ensures
        r == data_at(raw@, i as int),
{
    if i < raw.len() {
        match u7_new(raw[i]) {
            Ok(v) => Ok(v),
            Err(_) => Err(ParseError::DataByteOutOfRange),
        }
    } else {
        Err(ParseError::NotEnoughBytes)
    }
}

/// The status byte of a message.
fn status_byte(message: &MidiMessage) -> (s: u8)
    ensures
        s == message@.status(),
{
    match message {
        MidiMessage::NoteOff(a, _, _) => 0x80 | *a,
        MidiMessage::NoteOn(a, _, _) => 0x90 | *a,
        MidiMessage::PolyphonicKeyPressure(a, _, _) => 0xA0 | *a,
        MidiMessage::ControlChange(a, _, _) => 0xB0 | *a,
        MidiMessage::ProgramChange(a, _) => 0xC0 | *a,
        MidiMessage::ChannelPressure(a, _) => 0xD0 | *a,
        MidiMessage::PitchBendChange(a, _) => 0xE0 | *a,
        MidiMessage::SysEx(_) => 0xF0,
        MidiMessage::MidiTimeCode(_) => 0xF1,
        MidiMessage::SongPositionPointer(_) => 0xF2,
        MidiMessage::SongSelect(_) => 0xF3,
        MidiMessage::Reserved(a) => *a,
        MidiMessage::TuneRequest => 0xF6,
        MidiMessage::TimingClock => 0xF8,
        MidiMessage::Start => 0xFA,
        MidiMessage::Continue => 0xFB,
        MidiMessage::Stop => 0xFC,
        MidiMessage::ActiveSensing => 0xFE,
        MidiMessage::Reset => 0xFF,
    }
}

/// The 14 bit value of a low and a high data byte.
fn combine_u14(lower: u8, higher: u8) -> (r: u16)
    requires
        lower < 0x80,
        higher < 0x80,
    ensures
        r == u14_of(lower, higher),
{
    assert(((higher as u16) << 7) == (higher as u16) * 128) by (bit_vector)
        requires
            higher < 0x80,
    ;
    let raw: u16 = (lower as u16) + ((higher as u16) << 7);
    match u14_try_from(raw) {
        Ok(v) => v,
        Err(_) => {
            proof {
                assert(false);
            }
            0
        },
    }
}

/// The low and the high 7 bits of a 14 bit value.
fn split_u14(data: u16) -> (r: [u8; 2])
    ensures
        r[0] == u14_low(data),
        r[1] == u14_high(data),
{
    let raw = data;
    assert(((raw & 0x007F) as u8) == ((raw % 128) as u8) && ((raw >> 7) as u8) == ((raw / 128) as u8)) by (bit_vector);
    [(raw & 0x007F) as u8, (raw >> 7) as u8]
}

} // verus!

//! MIDI messages as plain values, their byte encoding, and the decoding errors.

use vstd::prelude::*;

verus! {

/// A MIDI message.
///
/// Channels are indices between 0 and 15, notes, velocities and other 7 bit data are held in a
/// `u8` below 0x80, and 14 bit values in a `u16` below 0x4000 (see [`SpecMidiMessage::wf`]).
#[derive(Debug, Clone, PartialEq, Eq)]
pub enum MidiMessage {
    /// A note is released: channel, note, velocity.
    NoteOff(u8, u8, u8),
    /// A note is pressed: channel, note, velocity.
    NoteOn(u8, u8, u8),
    /// Pressure on a held key: channel, note, pressure.
    PolyphonicKeyPressure(u8, u8, u8),
    /// A controller changes: channel, control function, value.
    ControlChange(u8, u8, u8),
    /// The patch number changes: channel, program.
    ProgramChange(u8, u8),
    /// Pressure on the whole channel: channel, pressure.
    ChannelPressure(u8, u8),
    /// The pitch bender moves: channel, 14 bit value.
    PitchBendChange(u8, u16),
    /// System exclusive data, without the start and end bytes.
    SysEx(Vec<u8>),
    /// MIDI time code quarter frame.
    MidiTimeCode(u8),
    /// Song position, a 14 bit value.
    SongPositionPointer(u16),
    /// The song to play.
    SongSelect(u8),
    /// A reserved message; the value is its status byte.
    Reserved(u8),
    /// Tune request.
    TuneRequest,
    /// Timing clock.
    TimingClock,
    /// Start the sequence.
    Start,
    /// Continue the sequence.
    Continue,
    /// Stop the sequence.
    Stop,
    /// Active sensing.
    ActiveSensing,
    /// Reset.
    Reset,
}

/// The mathematical value of a [`MidiMessage`]: the same variants, with system exclusive data
/// held as a sequence.
pub enum SpecMidiMessage {
    NoteOff(u8, u8, u8),
    NoteOn(u8, u8, u8),
    PolyphonicKeyPressure(u8, u8, u8),
    ControlChange(u8, u8, u8),
    ProgramChange(u8, u8),
    ChannelPressure(u8, u8),
    PitchBendChange(u8, u16),
    SysEx(Seq<u8>),
    MidiTimeCode(u8),
    SongPositionPointer(u16),
    SongSelect(u8),
    Reserved(u8),
    TuneRequest,
    TimingClock,
    Start,
    Continue,
    Stop,
    ActiveSensing,
    Reset,
}

impl View for MidiMessage {
    type V = SpecMidiMessage;

    open spec fn view(&self) -> SpecMidiMessage {
        match self {
            MidiMessage::NoteOff(c, a, b) => SpecMidiMessage::NoteOff(*c, *a, *b),
            MidiMessage::NoteOn(c, a, b) => SpecMidiMessage::NoteOn(*c, *a, *b),
            MidiMessage::PolyphonicKeyPressure(c, a, b) => SpecMidiMessage::PolyphonicKeyPressure(*c, *a, *b),
            MidiMessage::ControlChange(c, a, b) => SpecMidiMessage::ControlChange(*c, *a, *b),
            MidiMessage::ProgramChange(c, a) => SpecMidiMessage::ProgramChange(*c, *a),
            MidiMessage::ChannelPressure(c, a) => SpecMidiMessage::ChannelPressure(*c, *a),
            MidiMessage::PitchBendChange(c, v) => SpecMidiMessage::PitchBendChange(*c, *v),
            MidiMessage::SysEx(d) => SpecMidiMessage::SysEx(d@),
            MidiMessage::MidiTimeCode(a) => SpecMidiMessage::MidiTimeCode(*a),
            MidiMessage::SongPositionPointer(v) => SpecMidiMessage::SongPositionPointer(*v),
            MidiMessage::SongSelect(a) => SpecMidiMessage::SongSelect(*a),
            MidiMessage::Reserved(s) => SpecMidiMessage::Reserved(*s),
            MidiMessage::TuneRequest => SpecMidiMessage::TuneRequest,
            MidiMessage::TimingClock => SpecMidiMessage::TimingClock,
            MidiMessage::Start => SpecMidiMessage::Start,
            MidiMessage::Continue => SpecMidiMessage::Continue,
            MidiMessage::Stop => SpecMidiMessage::Stop,
            MidiMessage::ActiveSensing => SpecMidiMessage::ActiveSensing,
            MidiMessage::Reset => SpecMidiMessage::Reset,
        }
    }
}

/// Midi decoding errors (the variants of `wmidi::FromBytesError`).
#[derive(Debug, Clone, Copy, PartialEq, Eq, Structural)]
pub enum ParseError {
    /// The MIDI channel is not between 1 and 16 inclusive.
    ChannelOutOfRange,
    /// No MIDI bytes were provided.
    NoBytes,
    /// A SysEx start byte was provided, but there was no corresponding SysEx end byte.
    NoSysExEndByte,
    /// Not enough data bytes for the specified MIDI message.
    NotEnoughBytes,
    /// Found a SysEx end byte, but there was no start byte.
    UnexpectedEndSysExByte,
    /// Found a status byte interleaved with SysEx data.
    UnexpectedNonSysExEndByte(u8),
    /// The first byte of a midi message must be a status byte.
    UnexpectedDataByte,
    /// Found a status byte, but expected a data byte.
    UnexpectedStatusByte,
    /// Midi notes must be in the range [0, 127] inclusive.
    NoteOutOfRange,
    /// Data bytes must be between [0, 127] inclusive.
    DataByteOutOfRange,
    /// 14 bit values must be between [0, 16383] inclusive.
    U14OutOfRange,
}

impl ParseError {
    /// The errors that mean that the buffer ends before the message does: more bytes may
    /// complete it.
    pub open spec fn spec_is_incomplete(self) -> bool {
        self == ParseError::NoBytes || self == ParseError::NotEnoughBytes
            || self == ParseError::NoSysExEndByte
    }

    /// Returns true for the errors that mean that more bytes may complete the message.
    pub fn is_incomplete(&self) -> (r: bool)
        ensures
            r == self.spec_is_incomplete(),
    {
        match self {
            ParseError::NoBytes | ParseError::NotEnoughBytes
            | ParseError::NoSysExEndByte => true,
            _ => false,
        }
    }
}

/// The low 7 bits of a 14 bit value: the first byte of its encoding.
pub open spec fn u14_low(v: u16) -> u8 {
    (v % 128) as u8
}

/// The high 7 bits of a 14 bit value: the second byte of its encoding.
pub open spec fn u14_high(v: u16) -> u8 {
    (v / 128) as u8
}

/// Every byte of `s` is a data byte (below 0x80).
pub open spec fn all_data_bytes(s: Seq<u8>) -> bool {
    forall|i: int| 0 <= i < s.len() ==> #[trigger] s[i] < 0x80
}

impl SpecMidiMessage {
    /// The values that the message's fields can take: channels below 16, 7 bit data below
    /// 0x80, 14 bit values below 0x4000.
    pub open spec fn wf(self) -> bool {
        match self {
            SpecMidiMessage::NoteOff(c, a, b) => c < 16 && a < 0x80 && b < 0x80,
            SpecMidiMessage::NoteOn(c, a, b) => c < 16 && a < 0x80 && b < 0x80,
            SpecMidiMessage::PolyphonicKeyPressure(c, a, b) => c < 16 && a < 0x80 && b < 0x80,
            SpecMidiMessage::ControlChange(c, a, b) => c < 16 && a < 0x80 && b < 0x80,
            SpecMidiMessage::ProgramChange(c, a) => c < 16 && a < 0x80,
            SpecMidiMessage::ChannelPressure(c, a) => c < 16 && a < 0x80,
            SpecMidiMessage::PitchBendChange(c, v) => c < 16 && v < 0x4000,
            SpecMidiMessage::SysEx(d) => all_data_bytes(d),
            SpecMidiMessage::MidiTimeCode(a) => a < 0x80,
            SpecMidiMessage::SongPositionPointer(v) => v < 0x4000,
            SpecMidiMessage::SongSelect(a) => a < 0x80,
            _ => true,
        }
    }

    /// A reserved message holds one of the reserved status bytes 0xF4, 0xF5, 0xF9 and 0xFD.
    pub open spec fn reserved_ok(self) -> bool {
        match self {
            SpecMidiMessage::Reserved(s) => s == 0xF4 || s == 0xF5 || s == 0xF9 || s == 0xFD,
            _ => true,
        }
    }

    /// The status byte of the message.
    pub open spec fn status(self) -> u8 {
        match self {
            SpecMidiMessage::NoteOff(c, _, _) => 0x80 | c,
            SpecMidiMessage::NoteOn(c, _, _) => 0x90 | c,
            SpecMidiMessage::PolyphonicKeyPressure(c, _, _) => 0xA0 | c,
            SpecMidiMessage::ControlChange(c, _, _) => 0xB0 | c,
            SpecMidiMessage::ProgramChange(c, _) => 0xC0 | c,
            SpecMidiMessage::ChannelPressure(c, _) => 0xD0 | c,
            SpecMidiMessage::PitchBendChange(c, _) => 0xE0 | c,
            SpecMidiMessage::SysEx(_) => 0xF0,
            SpecMidiMessage::MidiTimeCode(_) => 0xF1,
            SpecMidiMessage::SongPositionPointer(_) => 0xF2,
            SpecMidiMessage::SongSelect(_) => 0xF3,
            SpecMidiMessage::Reserved(s) => s,
            SpecMidiMessage::TuneRequest => 0xF6,
            SpecMidiMessage::TimingClock => 0xF8,
            SpecMidiMessage::Start => 0xFA,
            SpecMidiMessage::Continue => 0xFB,
            SpecMidiMessage::Stop => 0xFC,
            SpecMidiMessage::ActiveSensing => 0xFE,
            SpecMidiMessage::Reset => 0xFF,
        }
    }

    /// The bytes that follow the status byte: the data bytes and, for system exclusive
    /// data, the end byte 0xF7.
    pub open spec fn data_bytes(self) -> Seq<u8> {
        match self {
            SpecMidiMessage::NoteOff(_, a, b) => seq![a, b],
            SpecMidiMessage::NoteOn(_, a, b) => seq![a, b],
            SpecMidiMessage::PolyphonicKeyPressure(_, a, b) => seq![a, b],
            SpecMidiMessage::ControlChange(_, a, b) => seq![a, b],
            SpecMidiMessage::ProgramChange(_, a) => seq![a],
            SpecMidiMessage::ChannelPressure(_, a) => seq![a],
            SpecMidiMessage::PitchBendChange(_, v) => seq![u14_low(v), u14_high(v)],
            SpecMidiMessage::SysEx(d) => d.push(0xF7),
            SpecMidiMessage::MidiTimeCode(a) => seq![a],
            SpecMidiMessage::SongPositionPointer(v) => seq![u14_low(v), u14_high(v)],
            SpecMidiMessage::SongSelect(a) => seq![a],
            _ => Seq::empty(),
        }
    }

    /// The encoding of the message: the status byte where `with_status` holds, then the data
    /// bytes.
    pub open spec fn encoding(self, with_status: bool) -> Seq<u8> {
        if with_status {
            seq![self.status()] + self.data_bytes()
        } else {
            self.data_bytes()
        }
    }
}

/// The data byte at index `i` of `raw`: `NotEnoughBytes` past its end, `DataByteOutOfRange`
/// for a byte of 0x80 or more.
pub open spec fn data_at(raw: Seq<u8>, i: int) -> Result<u8, ParseError> {
    if 0 <= i < raw.len() {
        if raw[i] < 0x80 {
            Ok(raw[i])
        } else {
            Err(ParseError::DataByteOutOfRange)
        }
    } else {
        Err(ParseError::NotEnoughBytes)
    }
}

/// `k` is the index of the first SysEx end byte 0xF7 of `raw` at or after `start`.
pub open spec fn is_sysex_end(raw: Seq<u8>, start: int, k: int) -> bool {
    &&& start <= k < raw.len()
    &&& raw[k] == 0xF7
    &&& forall|j: int| start <= j < k ==> #[trigger] raw[j] != 0xF7
}

/// Decodes the system exclusive data that starts at `start`; on success, the message and the
/// index just past its end byte.
pub open spec fn parse_sysex(raw: Seq<u8>, start: int) -> Result<(SpecMidiMessage, int), ParseError> {
    if exists|k: int| is_sysex_end(raw, start, k) {
        let k = choose|k: int| is_sysex_end(raw, start, k);
        if all_data_bytes(raw.subrange(start, k)) {
            Ok((SpecMidiMessage::SysEx(raw.subrange(start, k)), k + 1))
        } else {
            Err(ParseError::DataByteOutOfRange)
        }
    } else {
        Err(ParseError::NoSysExEndByte)
    }
}

/// A message of one data byte, decoded at `start`.
pub open spec fn parse_one(raw: Seq<u8>, start: int, make: spec_fn(u8) -> SpecMidiMessage) -> Result<(SpecMidiMessage, int), ParseError> {
    match data_at(raw, start) {
        Err(e) => Err(e),
        Ok(a) => Ok((make(a), start + 1)),
    }
}

/// A message of two data bytes, decoded at `start`.
pub open spec fn parse_two(raw: Seq<u8>, start: int, make: spec_fn(u8, u8) -> SpecMidiMessage) -> Result<(SpecMidiMessage, int), ParseError> {
    match data_at(raw, start) {
        Err(e) => Err(e),
        Ok(a) => match data_at(raw, start + 1) {
            Err(e) => Err(e),
            Ok(b) => Ok((make(a, b), start + 2)),
        },
    }
}

/// The 14 bit value of a low and a high data byte.
pub open spec fn u14_of(lower: u8, higher: u8) -> u16 {
    (lower + 128 * higher) as u16
}

/// Decodes the message with status byte `status` whose data starts at `start` in `raw`; on
/// success, the message and the index just past it. A byte below 0x80 is no status byte:
/// `UnexpectedDataByte`.
pub open spec fn parse_message(status: u8, raw: Seq<u8>, start: int) -> Result<(SpecMidiMessage, int), ParseError> {
    let c = status & 0x0F;
    let hi = status & 0xF0;
    if hi == 0x80 {
        parse_two(raw, start, |a: u8, b: u8| SpecMidiMessage::NoteOff(c, a, b))
    } else if hi == 0x90 {
        parse_two(raw, start, |a: u8, b: u8| SpecMidiMessage::NoteOn(c, a, b))
    } else if hi == 0xA0 {
        parse_two(raw, start, |a: u8, b: u8| SpecMidiMessage::PolyphonicKeyPressure(c, a, b))
    } else if hi == 0xB0 {
        parse_two(raw, start, |a: u8, b: u8| SpecMidiMessage::ControlChange(c, a, b))
    } else if hi == 0xC0 {
        parse_one(raw, start, |a: u8| SpecMidiMessage::ProgramChange(c, a))
    } else if hi == 0xD0 {
        parse_one(raw, start, |a: u8| SpecMidiMessage::ChannelPressure(c, a))
    } else if hi == 0xE0 {
        parse_two(raw, start, |a: u8, b: u8| SpecMidiMessage::PitchBendChange(c, u14_of(a, b)))
    } else if hi != 0xF0 {
        Err(ParseError::UnexpectedDataByte)
    } else if status == 0xF0 {
        parse_sysex(raw, start)
    } else if status == 0xF1 {
        parse_one(raw, start, |a: u8| SpecMidiMessage::MidiTimeCode(a))
    } else if status == 0xF2 {
        parse_two(raw, start, |a: u8, b: u8| SpecMidiMessage::SongPositionPointer(u14_of(a, b)))
    } else if status == 0xF3 {
        parse_one(raw, start, |a: u8| SpecMidiMessage::SongSelect(a))
    } else if status == 0xF4 || status == 0xF5 || status == 0xF9 || status == 0xFD {
        Ok((SpecMidiMessage::Reserved(status), start))
    } else if status == 0xF6 {
        Ok((SpecMidiMessage::TuneRequest, start))
    } else if status == 0xF7 {
        Err(ParseError::UnexpectedEndSysExByte)
    } else if status == 0xF8 {
        Ok((SpecMidiMessage::TimingClock, start))
    } else if status == 0xFA {
        Ok((SpecMidiMessage::Start, start))
    } else if status == 0xFB {
        Ok((SpecMidiMessage::Continue, start))
    } else if status == 0xFC {
        Ok((SpecMidiMessage::Stop, start))
    } else if status == 0xFE {
        Ok((SpecMidiMessage::ActiveSensing, start))
    } else {
        Ok((SpecMidiMessage::Reset, start))
    }
}

/// A message that `parse_message` decodes holds values in range and, if it is reserved, one of
/// the reserved status bytes; its status byte is the one given, and the bytes it takes are
/// exactly its data bytes.
pub proof fn lemma_parsed_message(status: u8, raw: Seq<u8>, start: int)
    requires
        0 <= start <= raw.len(),
    ensures
        parse_message(status, raw, start) matches Ok((m, k)) ==> {
            &&& m.wf()
            &&& m.reserved_ok()
            &&& m.status() == status
            &&& k == start + m.data_bytes().len()
            &&& k <= raw.len()
            &&& raw.subrange(start, k) == m.data_bytes()
        },
{
    assert(status & 0x0F < 16) by (bit_vector);
    assert({
        &&& (status & 0xF0 == 0x80 ==> (0x80 | (status & 0x0F)) == status)
        &&& (status & 0xF0 == 0x90 ==> (0x90 | (status & 0x0F)) == status)
        &&& (status & 0xF0 == 0xA0 ==> (0xA0 | (status & 0x0F)) == status)
        &&& (status & 0xF0 == 0xB0 ==> (0xB0 | (status & 0x0F)) == status)
        &&& (status & 0xF0 == 0xC0 ==> (0xC0 | (status & 0x0F)) == status)
        &&& (status & 0xF0 == 0xD0 ==> (0xD0 | (status & 0x0F)) == status)
        &&& (status & 0xF0 == 0xE0 ==> (0xE0 | (status & 0x0F)) == status)
        &&& (status & 0xF0 == 0xF0 ==> status >= 0xF0)
    }) by (bit_vector);
    if let Ok((m, k)) = parse_message(status, raw, start) {
        if status & 0xF0 == 0xE0 || ((status & 0xF0) == 0xF0 && status == 0xF2) {
            let a = raw[start];
            let b = raw[start + 1];
            lemma_u14_of(a, b);
            assert(raw.subrange(start, k) =~= m.data_bytes());
        } else if (status & 0xF0) == 0xF0 && status == 0xF0 {
            let e = choose|e: int| is_sysex_end(raw, start, e);
            assert(raw.subrange(start, k) =~= raw.subrange(start, e).push(0xF7));
        } else {
            let hi = status & 0xF0;
            if hi == 0x80 || hi == 0x90 || hi == 0xA0 || hi == 0xB0 {
                assert(m.data_bytes() =~= seq![raw[start], raw[start + 1]]);
                assert(raw.subrange(start, k) =~= m.data_bytes());
                } else if hi == 0xC0 || hi == 0xD0 || (hi == 0xF0 && (status == 0xF1 || status == 0xF3)) {
                assert(m.data_bytes() =~= seq![raw[start]]);
                assert(raw.subrange(start, k) =~= m.data_bytes());
                } else {
                assert(k == start);
                assert(m.data_bytes() =~= Seq::<u8>::empty());
                assert(raw.subrange(start, k) =~= m.data_bytes());
                }
        }
    }
}

/// The 14 bit value of two data bytes is below 0x4000, and its low and high 7 bits are the two
/// bytes.
pub proof fn lemma_u14_of(lower: u8, higher: u8)
    requires
        lower < 0x80,
        higher < 0x80,
    ensures
        u14_of(lower, higher) < 0x4000,
        u14_low(u14_of(lower, higher)) == lower,
        u14_high(u14_of(lower, higher)) == higher,
{
    let v = lower + 128 * higher;
    assert(v % 128 == lower && v / 128 == higher) by (nonlinear_arith)
        requires
            v == lower + 128 * higher,
            0 <= lower < 128,
            0 <= higher < 128,
    ;
}

} // verus!

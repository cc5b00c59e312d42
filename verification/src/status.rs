//! How status bytes are encoded and decoded: repeated with every message, or as "running
//! status".

use vstd::prelude::*;
use crate::message::ParseError;

verus! {

/// Determines how status bytes are encoded or decoded.
///
/// The spec functions model an implementation: `spec_wf` is the invariant that its methods keep,
/// and the others say what each method returns and what state it leaves.
pub trait MidiStatusCodec: Sized {
    /// The invariant of the state.
    spec fn spec_wf(&self) -> bool;

    /// Whether `status` is written before the next message.
    spec fn spec_should_encode_status(&self, status: u8) -> bool;

    /// The state after `status` has been written.
    spec fn spec_post_encode(&self, status: u8) -> Self;

    /// The status byte decoded at the start of `raw` and the number of bytes it takes.
    spec fn spec_decode_result(&self, raw: Seq<u8>) -> Result<(u8, usize), ParseError>;

    /// The state after a status byte has been decoded from `raw`.
    spec fn spec_decode_state(&self, raw: Seq<u8>) -> Self;

    /// Returns true if the given status byte should be encoded.
    fn should_encode_status(&self, status: u8) -> (r: bool)
        requires
            self.spec_wf(),
        ensures
            r == self.spec_should_encode_status(status),
    ;

    /// Update the inner state after a status byte has been encoded.
    fn post_encode(&mut self, status: u8)
        requires
            old(self).spec_wf(),
        ensures
            *final(self) == old(self).spec_post_encode(status),
            final(self).spec_wf(),
    ;

    /// Decodes a status byte. Returns the status byte and the number of bytes consumed (0 or 1).
    /// Make sure to only call this method once per status byte as it may update the inner state.
    fn decode_status(&mut self, raw: &[u8]) -> (r: Result<(u8, usize), ParseError>)
        requires
            old(self).spec_wf(),
        ensures
            r == old(self).spec_decode_result(raw@),
            *final(self) == old(self).spec_decode_state(raw@),
            final(self).spec_wf(),
            r matches Ok((s, n)) ==> s >= 0x80 && n <= 1 && n <= raw@.len(),
    ;
}

/// Include the status byte with every message (this is the normal way).
#[derive(Debug, Clone, Copy, PartialEq, Eq, Structural)]
pub struct RepeatedStatus;

/// Uses "running status".
///
/// See also: http://midi.teragonaudio.com/tech/midispec/run.htm
#[derive(Debug, Clone, Copy, PartialEq, Eq, Structural)]
pub struct RunningStatus {
    last_status: u8,
}

/// The three kinds of status byte.
#[derive(Debug, Clone, Copy, PartialEq, Eq, Structural)]
pub enum StatusClass {
    /// 0x80 to 0xEF: channel voice messages.
    Voice,
    /// 0xF0 to 0xF7: system common messages.
    System,
    /// 0xF8 to 0xFF: system realtime messages.
    RealTime,
}

/// The class of a byte; a data byte (below 0x80) has none.
pub open spec fn spec_status_class(value: u8) -> Result<StatusClass, ParseError> {
    if value <= 0x7F {
        Err(ParseError::UnexpectedDataByte)
    } else if value <= 0xEF {
        Ok(StatusClass::Voice)
    } else if value <= 0xF7 {
        Ok(StatusClass::System)
    } else {
        Ok(StatusClass::RealTime)
    }
}

impl vstd::std_specs::convert::TryFromSpecImpl<u8> for StatusClass {
    open spec fn obeys_try_from_spec() -> bool {
        true
    }

    open spec fn try_from_spec(value: u8) -> Result<Self, ParseError> {
        spec_status_class(value)
    }
}

impl TryFrom<u8> for StatusClass {
    type Error = ParseError;

    fn try_from(value: u8) -> (r: Result<Self, Self::Error>) {
        if value <= 0x7F {
            Err(ParseError::UnexpectedDataByte)
        } else if value <= 0xEF {
            Ok(Self::Voice)
        } else if value <= 0xF7 {
            Ok(Self::System)
        } else {
            Ok(Self::RealTime)
        }
    }
}

impl Default for RepeatedStatus {
    fn default() -> (r: Self)
        ensures
            r == RepeatedStatus,
    {
        RepeatedStatus
    }
}

impl MidiStatusCodec for RepeatedStatus {
    open spec fn spec_wf(&self) -> bool {
        true
    }

    open spec fn spec_should_encode_status(&self, status: u8) -> bool {
        true
    }

    open spec fn spec_post_encode(&self, status: u8) -> Self {
        *self
    }

    open spec fn spec_decode_result(&self, raw: Seq<u8>) -> Result<(u8, usize), ParseError> {
        if raw.len() == 0 {
            Err(ParseError::NoBytes)
        } else {
            match spec_status_class(raw[0]) {
                Err(e) => Err(e),
                Ok(_) => Ok((raw[0], 1)),
            }
        }
    }

    open spec fn spec_decode_state(&self, raw: Seq<u8>) -> Self {
        *self
    }

    fn should_encode_status(&self, _status: u8) -> (r: bool) {
        true
    }

    fn post_encode(&mut self, _status: u8) {
        // Do nothing
    }

    fn decode_status(&mut self, raw: &[u8]) -> (r: Result<(u8, usize), ParseError>) {
        if raw.len() == 0 {
            return Err(ParseError::NoBytes);
        }
        let status = raw[0];
        match StatusClass::try_from(status) {
            // A data byte where a status byte belongs
            Err(e) => Err(e),
            Ok(_) => Ok((status, 1)),
        }
    }
}

impl RunningStatus {
    /// The status byte that a following data byte continues; 0 where there is none.
    pub closed spec fn running(&self) -> u8 {
        self.last_status
    }

    /// A running status with no status byte to continue.
    pub open spec fn spec_initial() -> Self {
        RunningStatus::spec_with_running(0)
    }

    /// The running status that continues `status`.
    pub closed spec fn spec_with_running(status: u8) -> Self {
        RunningStatus { last_status: status }
    }

    /// The state is determined by the status byte it continues.
    pub proof fn lemma_running(status: u8)
        ensures
            Self::spec_with_running(status).running() == status,
            forall|r: RunningStatus| #[trigger] r.running() == status ==> r == Self::spec_with_running(status),
    {
    }
}

impl Default for RunningStatus {
    fn default() -> (r: Self)
        ensures
            r == RunningStatus::spec_initial(),
            r.running() == 0,
    {
        RunningStatus { last_status: 0 }
    }
}

impl MidiStatusCodec for RunningStatus {
    open spec fn spec_wf(&self) -> bool {
        self.running() == 0 || spec_status_class(self.running()) == Ok::<StatusClass, ParseError>(StatusClass::Voice)
    }

    open spec fn spec_should_encode_status(&self, status: u8) -> bool {
        if spec_status_class(status) == Ok::<StatusClass, ParseError>(StatusClass::Voice) {
            status != self.running()
        } else {
            true
        }
    }

    open spec fn spec_post_encode(&self, status: u8) -> Self {
        match spec_status_class(status) {
            Ok(StatusClass::Voice) => RunningStatus::spec_with_running(status),
            Ok(StatusClass::System) => RunningStatus::spec_with_running(0),
            _ => *self,
        }
    }

    open spec fn spec_decode_result(&self, raw: Seq<u8>) -> Result<(u8, usize), ParseError> {
        if raw.len() == 0 {
            Err(ParseError::NoBytes)
        } else {
            match spec_status_class(raw[0]) {
                Err(_) => if self.running() != 0 {
                    Ok((self.running(), 0))
                } else {
                    Err(ParseError::UnexpectedDataByte)
                },
                Ok(_) => Ok((raw[0], 1)),
            }
        }
    }

    open spec fn spec_decode_state(&self, raw: Seq<u8>) -> Self {
        if raw.len() == 0 {
            *self
        } else {
            self.spec_post_encode(raw[0])
        }
    }

    fn should_encode_status(&self, status: u8) -> (r: bool) {
        match StatusClass::try_from(status) {
            Ok(StatusClass::Voice) => status != self.last_status,
            _ => true,
        }
    }

    fn post_encode(&mut self, status: u8) {
        match StatusClass::try_from(status) {
            Err(_) => {
                // Do nothing
            },
            Ok(StatusClass::Voice) => {
                self.last_status = status;
            },
            Ok(StatusClass::System) => {
                // Cancel the running status
                self.last_status = 0;
            },
            Ok(StatusClass::RealTime) => {
                // Do nothing
            },
        }
    }

    fn decode_status(&mut self, raw: &[u8]) -> (r: Result<(u8, usize), ParseError>) {
        if raw.len() == 0 {
            return Err(ParseError::NoBytes);
        }
        let status = raw[0];
        match StatusClass::try_from(status) {
            Err(_) => {
                if self.last_status != 0 {
                    Ok((self.last_status, 0))
                } else {
                    Err(ParseError::UnexpectedDataByte)
                }
            },
            Ok(StatusClass::Voice) => {
                self.last_status = status;
                Ok((status, 1))
            },
            Ok(StatusClass::System) => {
                // Cancel the running status
                self.last_status = 0;
                Ok((status, 1))
            },
            Ok(StatusClass::RealTime) => Ok((status, 1)),
        }
    }
}

} // verus!

//! Encodes and decodes MIDI streams. Supports running status but not realtime messages in the
//! middle of other messages.
//!
//! - [`message`]: MIDI messages as plain values, their bytes, and what decoding reads.
//! - [`data`]: the checks of data bytes, channels and 14 bit values that `wmidi` makes.
//! - [`status`]: how status bytes are written and read (repeated, or running status).
//! - [`codec`]: the codec that encodes into and decodes from byte slices.
//! - [`tokio`]: the same on `tokio_util`'s `BytesMut` buffers.
//! - [`laws`]: what encoding and decoding guarantee together.

pub mod message;
pub mod data;
pub mod status;
pub mod codec;
pub mod tokio;
pub mod laws;

pub use crate::codec::MidiCodec;
pub use crate::message::{MidiMessage, ParseError, SpecMidiMessage};
pub use crate::status::{MidiStatusCodec, RepeatedStatus, RunningStatus};
pub use crate::tokio::DecodeError;

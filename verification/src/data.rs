//! The checks of data bytes, channel indices and 14 bit values, made by `wmidi`.
//!
//! Each function here is trusted: Verus believes its contract, which restates what the `wmidi`
//! source shows of the function that it calls.

use vstd::prelude::*;

verus! {

#[verifier::external_type_specification]
#[verifier::external_body]
pub struct ExWmidiFromBytesError(wmidi::FromBytesError);

/// `wmidi::U7::new`, then `u8::from`: a data byte is accepted exactly when it is at most 0x7F,
/// and keeps its value. Which error comes back for a larger byte is not stated here (the
/// source returns `DataByteOutOfRange`).
#[verifier::external_body]
pub(crate) fn u7_new(data: u8) -> (r: Result<u8, wmidi::FromBytesError>)
    ensures
        r is Ok <==> data < 0x80,
        r matches Ok(v) ==> v == data,
{
    match wmidi::U7::new(data) {
        Ok(v) => Ok(u8::from(v)),
        Err(e) => Err(e),
    }
}

/// `wmidi::U7::try_from_bytes`, then `wmidi::U7::data_to_bytes` and `to_vec`: the bytes are
/// accepted exactly when each of them is at most 0x7F, and come back unchanged. Which error
/// comes back otherwise is not stated here (the source returns `DataByteOutOfRange`).
#[verifier::external_body]
pub(crate) fn u7_try_from_bytes(bytes: &[u8]) -> (r: Result<Vec<u8>, wmidi::FromBytesError>)
    ensures
        r is Ok <==> (forall|i: int| 0 <= i < bytes@.len() ==> #[trigger] bytes@[i] < 0x80),
        r matches Ok(v) ==> v@ == bytes@,
{
    match wmidi::U7::try_from_bytes(bytes) {
        Ok(d) => Ok(wmidi::U7::data_to_bytes(d).to_vec()),
        Err(e) => Err(e),
    }
}

/// `wmidi::Channel::from_index`, then `wmidi::Channel::index`: an index is a channel exactly
/// when it is below 16, and the channel's index is the index given. Which error comes back
/// otherwise is not stated here (the source returns `ChannelOutOfRange`).
#[verifier::external_body]
pub(crate) fn channel_from_index(i: u8) -> (r: Result<u8, wmidi::FromBytesError>)
    ensures
        r is Ok <==> i < 16,
        r matches Ok(c) ==> c == i,
{
    match wmidi::Channel::from_index(i) {
        Ok(c) => Ok(c.index()),
        Err(e) => Err(e),
    }
}

/// `wmidi::U14::try_from`, then `u16::from`: a value is accepted exactly when it is at most
/// 0x3FFF, and keeps its value. Which error comes back otherwise is not stated here (the source
/// returns `U14OutOfRange`).
#[verifier::external_body]
pub(crate) fn u14_try_from(data: u16) -> (r: Result<u16, wmidi::FromBytesError>)
    ensures
        r is Ok <==> data < 0x4000,
        r matches Ok(v) ==> v == data,
{
    match wmidi::U14::try_from(data) {
        Ok(v) => Ok(u16::from(v)),
        Err(e) => Err(e),
    }
}

} // verus!

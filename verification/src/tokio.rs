//! Encoding into and decoding from the byte buffers of `tokio_util::codec`
//! (`tokio_util::bytes::BytesMut`).

use vstd::prelude::*;
use tokio_util::bytes::BytesMut;
use crate::codec::MidiCodec;
use crate::message::{MidiMessage, ParseError};
use crate::status::MidiStatusCodec;

verus! {

#[verifier::external_type_specification]
#[verifier::external_body]
pub struct ExBytesMut(tokio_util::bytes::BytesMut);

#[verifier::external_type_specification]
#[verifier::external_body]
pub struct ExIoError(std::io::Error);

/// The bytes that a `BytesMut` holds.
pub uninterp spec fn bytes_mut_contents(b: BytesMut) -> Seq<u8>;

/// `BytesMut` as a slice (its `Deref` to `[u8]`): the slice holds the buffer's bytes.
#[verifier::external_body]
fn bytes_as_slice(b: &BytesMut) -> (r: &[u8])
    ensures
        r@ == bytes_mut_contents(*b),
{
    b
}

/// `BytesMut::extend_from_slice`: appends the bytes of `data`. The buffer panics where its
/// capacity would pass `isize::MAX`, so the total length is required to stay below that.
#[verifier::external_body]
fn bytes_extend_from_slice(b: &mut BytesMut, data: &[u8])
    requires
        bytes_mut_contents(*old(b)).len() + data@.len() <= isize::MAX,
    ensures
        bytes_mut_contents(*final(b)) == bytes_mut_contents(*old(b)) + data@,
{
    b.extend_from_slice(data)
}

/// `Buf::advance` of `BytesMut`: drops the first `n` bytes (it panics where `n` passes the
/// length, which is required not to happen).
#[verifier::external_body]
fn bytes_advance(b: &mut BytesMut, n: usize)
    requires
        n <= bytes_mut_contents(*old(b)).len(),
    ensures
        bytes_mut_contents(*final(b)) == bytes_mut_contents(*old(b)).skip(n as int),
{
    tokio_util::bytes::Buf::advance(b, n)
}

/// An error that may occur while decoding a message.
#[derive(Debug)]
pub enum DecodeError {
    /// A parser error.
    Parser(ParseError),
    /// An IO error.
    IO(std::io::Error),
}

impl<S: MidiStatusCodec> MidiCodec<S> {
    /// Encodes the message at the end of `dst`.
    pub fn encode(&mut self, message: MidiMessage, dst: &mut BytesMut) -> (r: Result<(), std::io::Error>)
        requires
            old(self).wf(),
            bytes_mut_contents(*old(dst)).len() + old(self).spec_encoding(message@).len() <= isize::MAX,
        ensures
            r is Ok,
            bytes_mut_contents(*final(dst)) == bytes_mut_contents(*old(dst)) + old(self).spec_encoding(message@),
            final(self).encoder() == old(self).encoder_after(message@),
            final(self).decoder() == old(self).decoder(),
            final(self).wf(),
    {
        let len = self.byte_size(&message);
        let mut chunk: Vec<u8> = vec![0u8; len];
        self.copy_to_slice(&message, chunk.as_mut_slice());
        assert(chunk@ =~= old(self).spec_encoding(message@));
        bytes_extend_from_slice(dst, chunk.as_slice());
        Ok(())
    }

    /// Decodes the message at the start of `src` and removes its bytes. Where `src` ends before
    /// the message does, returns `Ok(None)` and leaves `src` as it is.
    pub fn decode(&mut self, src: &mut BytesMut) -> (r: Result<Option<MidiMessage>, DecodeError>)
        requires
            old(self).wf(),
        ensures
            final(self).wf(),
            final(self).encoder() == old(self).encoder(),
            final(self).decoder() == old(self).decoder_after(bytes_mut_contents(*old(src))),
            match old(self).spec_from_bytes(bytes_mut_contents(*old(src))) {
                Ok((m, n)) => {
                    &&& (r matches Ok(Some(x)) && x@ == m)
                    &&& m.wf() && m.reserved_ok()
                    &&& bytes_mut_contents(*final(src)) == bytes_mut_contents(*old(src)).skip(n)
                },
                Err(e) => {
                    &&& e.spec_is_incomplete() ==> (r matches Ok(None))
                    &&& !e.spec_is_incomplete() ==> (r matches Err(DecodeError::Parser(pe)) && pe == e)
                    &&& bytes_mut_contents(*final(src)) == bytes_mut_contents(*old(src))
                },
            },
    {
        let result = self.from_bytes(bytes_as_slice(src));
        match result {
            Ok((message, len)) => {
                bytes_advance(src, len);
                Ok(Some(message))
            },
            Err(err) => {
                if err.is_incomplete() {
                    Ok(None)
                } else {
                    Err(DecodeError::Parser(err))
                }
            },
        }
    }
}

} // verus!

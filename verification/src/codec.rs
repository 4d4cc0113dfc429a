//! Framing encoded messages in a byte buffer.
//!
//! A frame is the four bytes of its own length, most significant first,
//! followed by the message. The length counts the four bytes too.

use crate::error::ProddleError;
use crate::frame::{be_bytes, be_value};
use bytes::{BufMut, BytesMut};
use vstd::prelude::*;

verus! {

#[verifier::external_type_specification]
#[verifier::external_body]
pub struct ExBytesMut(bytes::BytesMut);

/// The bytes that a buffer holds, first to last.
pub uninterp spec fn buffered(buffer: &BytesMut) -> Seq<u8>;

/// The number of bytes in `buffer`, with `BytesMut::len`.
///
/// Trusted: it is the length of what the buffer holds.
#[verifier::external_body]
fn buffer_len(buffer: &BytesMut) -> (len: usize)
    ensures
        len == buffered(buffer).len(),
{
    buffer.len()
}

/// The byte at `index` of `buffer`, read through the buffer's view as a
/// slice.
///
/// Trusted: it is the byte at that place of what the buffer holds. An index
/// beyond the end panics, which `requires` leaves out.
#[verifier::external_body]
fn buffer_byte(buffer: &BytesMut, index: usize) -> (byte: u8)
    requires
        index < buffered(buffer).len(),
    ensures
        byte == buffered(buffer)[index as int],
{
    buffer[index]
}

/// Appends the four bytes of `value`, most significant first, with
/// `BufMut::put_u32`.
///
/// Trusted: the buffer holds what it held, then those four bytes. The
/// buffer grows as needed; growth beyond `isize::MAX` bytes panics, which
/// `requires` leaves out.
#[verifier::external_body]
fn put_u32(buffer: &mut BytesMut, value: u32)
    requires
        buffered(old(buffer)).len() + 4 <= isize::MAX,
    ensures
        buffered(final(buffer)) == buffered(old(buffer)) + be_bytes(value),
{
    buffer.put_u32(value);
}

/// Appends `bytes` with `BufMut::put_slice`.
///
/// Trusted: the buffer holds what it held, then `bytes`. The buffer grows
/// as needed; growth beyond `isize::MAX` bytes panics, which `requires`
/// leaves out.
#[verifier::external_body]
fn put_slice(buffer: &mut BytesMut, bytes: &[u8])
    requires
        buffered(old(buffer)).len() + bytes@.len() <= isize::MAX,
    ensures
        buffered(final(buffer)) == buffered(old(buffer)) + bytes@,
{
    buffer.put_slice(bytes);
}

/// Splits the first `at` bytes off `buffer` with `BytesMut::split_to`.
///
/// Trusted: what is returned holds the first `at` bytes and the buffer
/// keeps the rest. Splitting beyond the end panics, which `requires`
/// leaves out.
#[verifier::external_body]
fn split_to(buffer: &mut BytesMut, at: usize) -> (head: BytesMut)
    requires
        at <= buffered(old(buffer)).len(),
    ensures
        buffered(&head) == buffered(old(buffer)).take(at as int),
        buffered(final(buffer)) == buffered(old(buffer)).skip(at as int),
{
    buffer.split_to(at)
}

/// A message in its frame.
pub open spec fn framed(message: Seq<u8>) -> Seq<u8> {
    be_bytes((4 + message.len()) as u32) + message
}

/// The length that the frame at the front of `bytes` announces.
pub open spec fn announced(bytes: Seq<u8>) -> int {
    be_value(bytes.take(4))
}

/// A buffer that begins with a message's frame announces the frame's
/// length, and the frame's bytes behind the length are the message.
pub proof fn lemma_frame_round_trip(message: Seq<u8>, rest: Seq<u8>)
    requires
        4 + message.len() <= u32::MAX,
    ensures
        announced(framed(message) + rest) == 4 + message.len(),
        (framed(message) + rest).subrange(4, 4 + message.len() as int) == message,
        (framed(message) + rest).skip(4 + message.len() as int) == rest,
{
    let bytes = framed(message) + rest;
    let length = (4 + message.len()) as u32;
    assert(bytes.take(4) =~= be_bytes(length));
    crate::frame::lemma_bytes_round_trip(length);
    assert(bytes.subrange(4, 4 + message.len() as int) =~= message);
    assert(bytes.skip(4 + message.len() as int) =~= rest);
}

/// Frames encoded messages into a byte buffer and takes frames out of one.
#[derive(Debug)]
pub struct MessageCodec;

impl MessageCodec {
    /// Appends `message` in its frame to `buffer`. Fails, leaving the buffer
    /// as it is, if and only if the frame's length does not fit into 32 bits
    /// or the buffer would pass the greatest size a buffer can have.
    pub fn encode(&mut self, message: &Vec<u8>, buffer: &mut BytesMut) -> (done: Result<
        (),
        ProddleError,
    >)
        ensures
            match done {
                Ok(()) => {
                    &&& 4 + message.len() <= u32::MAX
                    &&& buffered(old(buffer)).len() + 4 + message.len() <= isize::MAX
                    &&& buffered(final(buffer)) == buffered(old(buffer)) + framed(message@)
                },
                Err(error) => {
                    &&& 4 + message.len() > u32::MAX || buffered(old(buffer)).len() + 4
                        + message.len() > isize::MAX
                    &&& error == ProddleError::PayloadTooLong
                    &&& buffered(final(buffer)) == buffered(old(buffer))
                },
            },
    {
        let held = buffer_len(buffer);
        if message.len() > (u32::MAX - 4) as usize || held > isize::MAX as usize - 4
            || message.len() > isize::MAX as usize - 4 - held {
            return Err(ProddleError::PayloadTooLong);
        }
        put_u32(buffer, 4 + message.len() as u32);
        put_slice(buffer, message.as_slice());
        assert(buffered(buffer) =~= buffered(old(buffer)) + framed(message@));
        Ok(())
    }

    /// Takes the frame at the front of `buffer` out of it, once all of it
    /// has arrived, and returns its message.
    ///
    /// Returns `None`, leaving the buffer as it is, while fewer than four
    /// bytes or fewer bytes than the frame announces have arrived. Fails,
    /// leaving the buffer as it is, if the frame announces fewer than its
    /// own four bytes.
    pub fn decode(&mut self, buffer: &mut BytesMut) -> (message: Result<
        Option<Vec<u8>>,
        ProddleError,
    >)
        ensures
            ({
                let bytes = buffered(old(buffer));
                if bytes.len() < 4 || bytes.len() < announced(bytes) {
                    message matches Ok(None) && buffered(final(buffer)) == bytes
                } else if announced(bytes) < 4 {
                    message matches Err(ProddleError::FrameTooShort) && buffered(final(buffer))
                        == bytes
                } else {
                    &&& message matches Ok(Some(m)) && m@ == bytes.subrange(4, announced(bytes))
                    &&& buffered(final(buffer)) == bytes.skip(announced(bytes))
                }
            }),
    {
        let ghost bytes = buffered(buffer);
        let held = buffer_len(buffer);
        if held < 4 {
            return Ok(None);
        }
        let announced: u32 = 16777216 * (buffer_byte(buffer, 0) as u32) + 65536 * (buffer_byte(
            buffer,
            1,
        ) as u32) + 256 * (buffer_byte(buffer, 2) as u32) + buffer_byte(buffer, 3) as u32;
        let length = announced as usize;
        if held < length {
            return Ok(None);
        }
        if length < 4 {
            return Err(ProddleError::FrameTooShort);
        }
        let frame = split_to(buffer, length);
        let mut message: Vec<u8> = Vec::new();
        let mut i: usize = 4;
        while i < length
            invariant
                4 <= i <= length,
                length <= bytes.len(),
                buffered(&frame) == bytes.take(length as int),
                message@ == bytes.subrange(4, i as int),
            decreases length - i,
        {
            message.push(buffer_byte(&frame, i));
            assert(message@ =~= bytes.subrange(4, i + 1));
            i += 1;
        }
        Ok(Some(message))
    }
}

} // verus!

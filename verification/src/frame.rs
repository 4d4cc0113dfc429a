//! Length prefixes: how an encoded message is delimited on a stream.
//!
//! On a plain stream a message travels behind the four bytes of its length,
//! least significant byte first.

use crate::error::ProddleError;
use vstd::prelude::*;

verus! {

/// The four bytes of `value`, least significant first.
pub open spec fn le_bytes(value: u32) -> Seq<u8> {
    seq![
        (value % 256) as u8,
        (value / 256 % 256) as u8,
        (value / 65536 % 256) as u8,
        (value / 16777216) as u8,
    ]
}

/// The number whose four bytes, least significant first, are the first four
/// of `bytes`.
pub open spec fn le_value(bytes: Seq<u8>) -> int {
    bytes[0] + 256 * bytes[1] + 65536 * bytes[2] + 16777216 * bytes[3]
}

/// The four bytes of `value`, most significant first.
pub open spec fn be_bytes(value: u32) -> Seq<u8> {
    seq![
        (value / 16777216) as u8,
        (value / 65536 % 256) as u8,
        (value / 256 % 256) as u8,
        (value % 256) as u8,
    ]
}

/// The number whose four bytes, most significant first, are the first four
/// of `bytes`.
pub open spec fn be_value(bytes: Seq<u8>) -> int {
    16777216 * bytes[0] + 65536 * bytes[1] + 256 * bytes[2] + bytes[3]
}

/// Reading back the bytes of a number yields the number, in either byte
/// order, and four bytes read as a number fit into 32 bits.
pub proof fn lemma_bytes_round_trip(value: u32)
    ensures
        le_value(le_bytes(value)) == value,
        be_value(be_bytes(value)) == value,
{
}

/// A message behind its length prefix, as it travels on a plain stream.
pub open spec fn prefixed(encoded: Seq<u8>) -> Seq<u8> {
    le_bytes(encoded.len() as u32) + encoded
}

/// Puts the length of `encoded` in front of it, least significant byte
/// first. Fails if and only if the length does not fit into 32 bits.
pub fn encode_frame(encoded: &Vec<u8>) -> (frame: Result<Vec<u8>, ProddleError>)
    ensures
        match frame {
            Ok(bytes) => encoded.len() <= u32::MAX && bytes@ == prefixed(encoded@),
            Err(error) => encoded.len() > u32::MAX && error == ProddleError::PayloadTooLong,
        },
{
    if encoded.len() > u32::MAX as usize {
        return Err(ProddleError::PayloadTooLong);
    }
    let length = encoded.len() as u32;
    let mut frame: Vec<u8> = Vec::new();
    frame.push((length % 256) as u8);
    frame.push((length / 256 % 256) as u8);
    frame.push((length / 65536 % 256) as u8);
    frame.push((length / 16777216) as u8);
    let ghost head = frame@;
    assert(head =~= le_bytes(length));
    let mut i: usize = 0;
    while i < encoded.len()
        invariant
            i <= encoded.len(),
            frame@ == head + encoded@.take(i as int),
        decreases encoded.len() - i,
    {
        frame.push(encoded[i]);
        assert(frame@ =~= head + encoded@.take(i + 1));
        i += 1;
    }
    assert(encoded@.take(i as int) =~= encoded@);
    Ok(frame)
}

/// Reads the length that a four-byte prefix announces; `None` if and only
/// if `header` is not four bytes long.
pub fn frame_length(header: &Vec<u8>) -> (length: Option<usize>)
    ensures
        match length {
            Some(length) => header.len() == 4 && length == le_value(header@),
            None => header.len() != 4,
        },
{
    if header.len() != 4 {
        return None;
    }
    let value: u32 = header[0] as u32 + 256 * (header[1] as u32) + 65536 * (header[2] as u32)
        + 16777216 * (header[3] as u32);
    Some(value as usize)
}

} // verus!

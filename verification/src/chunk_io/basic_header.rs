//! The first one to three bytes of a chunk: its header format and its chunk stream.

use crate::chunk_io::chunk_header::ChunkHeaderFormat;
use vstd::prelude::*;

verus! {

/// The outcome of reading a value out of bytes that may not be complete yet.
pub enum ParsedValue<T> {
    NotEnoughBytes,
    /// The value, and the index of the first byte after it.
    Value { val: T, next_index: u32 },
}

/// What the first bytes of a chunk say.
pub struct BasicHeader {
    pub format: ChunkHeaderFormat,
    pub csid: u32,
    /// How many bytes say so.
    pub size: nat,
}

/// The format that the two high bits of a chunk's first byte stand for.
pub open spec fn format_of(byte: u8) -> ChunkHeaderFormat {
    if byte / 64 == 0 {
        ChunkHeaderFormat::Full
    } else if byte / 64 == 1 {
        ChunkHeaderFormat::TimeDeltaWithoutMessageStreamId
    } else if byte / 64 == 2 {
        ChunkHeaderFormat::TimeDeltaOnly
    } else {
        ChunkHeaderFormat::Empty
    }
}

/// The basic header at the front of `bytes`, or `None` where it is not complete.
///
/// The six low bits of the first byte are the chunk stream, except that 0
/// announces one more byte and 1 two more, the low one first; those count from 64.
pub open spec fn basic_header(bytes: Seq<u8>) -> Option<BasicHeader> {
    if bytes.len() == 0 {
        None
    } else {
        let format = format_of(bytes[0]);
        let low = bytes[0] % 64;
        if low == 0 {
            if bytes.len() < 2 {
                None
            } else {
                Some(BasicHeader { format, csid: (bytes[1] + 64) as u32, size: 2 })
            }
        } else if low == 1 {
            if bytes.len() < 3 {
                None
            } else {
                Some(BasicHeader { format, csid: (bytes[2] * 256 + bytes[1] + 64) as u32, size: 3 })
            }
        } else {
            Some(BasicHeader { format, csid: low as u32, size: 1 })
        }
    }
}

/// Reads the header format out of a chunk's first byte.
pub fn get_format(byte: &u8) -> (format: ChunkHeaderFormat)
    ensures
        format == format_of(*byte),
        format is Full <==> *byte < 0x40,
        format is TimeDeltaWithoutMessageStreamId <==> 0x40 <= *byte < 0x80,
        format is TimeDeltaOnly <==> 0x80 <= *byte < 0xc0,
        format is Empty <==> 0xc0 <= *byte,
{
    let first: u8 = *byte;
    let format_id: u8 = first & 0b1100_0000;
    assert(format_id == 64 * (first / 64)) by (bit_vector)
        requires
            format_id == first & 0b1100_0000,
    ;
    assert(first / 64 <= 3);

    match format_id {
        0b0000_0000 => ChunkHeaderFormat::Full,
        0b0100_0000 => ChunkHeaderFormat::TimeDeltaWithoutMessageStreamId,
        0b1000_0000 => ChunkHeaderFormat::TimeDeltaOnly,
        _ => ChunkHeaderFormat::Empty,
    }
}

/// Reads the chunk stream out of a chunk's first bytes.
pub fn get_csid(buffer: &[u8]) -> (csid: ParsedValue<u32>)
    ensures
        match basic_header(buffer@) {
            None => csid is NotEnoughBytes,
            Some(header) => csid == (ParsedValue::Value {
                val: header.csid,
                next_index: header.size as u32,
            }),
        },
        csid is NotEnoughBytes <==> buffer@.len() < 1 || buffer@[0] % 64 == 0 && buffer@.len() < 2
            || buffer@[0] % 64 == 1 && buffer@.len() < 3,
        csid matches ParsedValue::Value { val, next_index } ==> {
            &&& buffer@[0] % 64 >= 2 ==> val == buffer@[0] % 64 && next_index == 1
            &&& buffer@[0] % 64 == 0 ==> val == 64 + buffer@[1] && next_index == 2
            &&& buffer@[0] % 64 == 1 ==> val == 64 + buffer@[1] + 256 * buffer@[2] && next_index
                == 3
        },
{
    if buffer.len() < 1 {
        return ParsedValue::NotEnoughBytes;
    }
    let first: u8 = buffer[0];
    let low: u8 = first & 0b0011_1111;
    assert(low == first % 64) by (bit_vector)
        requires
            low == first & 0b0011_1111,
    ;

    match low {
        0 => {
            if buffer.len() < 2 {
                ParsedValue::NotEnoughBytes
            } else {
                ParsedValue::Value { val: buffer[1] as u32 + 64, next_index: 2 }
            }
        },
        1 => {
            if buffer.len() < 3 {
                ParsedValue::NotEnoughBytes
            } else {
                ParsedValue::Value {
                    val: (buffer[2] as u32 * 256) + buffer[1] as u32 + 64,
                    next_index: 3,
                }
            }
        },
        x => ParsedValue::Value { val: x as u32, next_index: 1 },
    }
}

} // verus!

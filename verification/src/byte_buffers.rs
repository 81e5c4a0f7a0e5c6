//! What the library takes on trust of the byte buffers of the `bytes` crate and
//! of the integer readers of the `byteorder` crate.
//!
//! A buffer is described by the bytes it holds.  How much memory stands behind
//! it is never described: like the contracts of `Vec`, the ones below take it
//! that the allocator can provide what is asked for.

use byteorder::{BigEndian, LittleEndian, ReadBytesExt};
use bytes::{BufMut, Bytes, BytesMut};
use std::io::Cursor;
use std::ops::Deref;
use vstd::prelude::*;

verus! {

/// The growable buffer `bytes::BytesMut`.
#[verifier::external_type_specification]
#[verifier::external_body]
pub struct ExBytesMut(bytes::BytesMut);

/// The immutable buffer `bytes::Bytes`.
#[verifier::external_type_specification]
#[verifier::external_body]
pub struct ExBytes(bytes::Bytes);

/// The error of the readers of `std::io`.
#[verifier::external_type_specification]
#[verifier::external_body]
pub struct ExIoError(std::io::Error);

/// The bytes that a `BytesMut` holds, first to last.
pub uninterp spec fn bytes_mut_contents(buffer: BytesMut) -> Seq<u8>;

/// The bytes that a `Bytes` holds, first to last.
pub uninterp spec fn bytes_contents(buffer: Bytes) -> Seq<u8>;

/// `BytesMut::with_capacity` makes an empty buffer.  It panics on a capacity that
/// no allocation can have.
pub assume_specification[ BytesMut::with_capacity ](capacity: usize) -> (buffer: BytesMut)
    requires
        capacity <= isize::MAX,
    ensures
        bytes_mut_contents(buffer) == Seq::<u8>::empty(),
;

/// `BytesMut::new` makes an empty buffer.
pub assume_specification[ BytesMut::new ]() -> (buffer: BytesMut)
    ensures
        bytes_mut_contents(buffer) == Seq::<u8>::empty(),
;

/// `BytesMut::len` counts the bytes held.
pub assume_specification[ BytesMut::len ](buffer: &BytesMut) -> (count: usize)
    ensures
        count == bytes_mut_contents(*buffer).len(),
;

/// `BytesMut::extend_from_slice` appends the slice.  It panics where the result
/// would be larger than any allocation can be.
pub assume_specification[ BytesMut::extend_from_slice ](buffer: &mut BytesMut, extend: &[u8])
    requires
        bytes_mut_contents(*old(buffer)).len() + extend@.len() <= isize::MAX,
    ensures
        bytes_mut_contents(*final(buffer)) == bytes_mut_contents(*old(buffer)) + extend@,
;

/// `BytesMut::split_to` moves the first `at` bytes out into a buffer of their own
/// and keeps the rest.  It panics where there are fewer.
pub assume_specification[ BytesMut::split_to ](buffer: &mut BytesMut, at: usize) -> (front:
    BytesMut)
    requires
        at <= bytes_mut_contents(*old(buffer)).len(),
    ensures
        bytes_mut_contents(front) == bytes_mut_contents(*old(buffer)).take(at as int),
        bytes_mut_contents(*final(buffer)) == bytes_mut_contents(*old(buffer)).skip(at as int),
;

/// `BytesMut::reserve` makes room and leaves the bytes held as they are.  It
/// panics where the room asked for is more than any allocation can give.
pub assume_specification[ BytesMut::reserve ](buffer: &mut BytesMut, additional: usize)
    requires
        bytes_mut_contents(*old(buffer)).len() + additional <= isize::MAX,
    ensures
        bytes_mut_contents(*final(buffer)) == bytes_mut_contents(*old(buffer)),
;

/// `BytesMut::freeze` keeps the bytes held.
pub assume_specification[ BytesMut::freeze ](buffer: BytesMut) -> (frozen: Bytes)
    ensures
        bytes_contents(frozen) == bytes_mut_contents(buffer),
;

/// `Bytes::new` makes an empty buffer.
pub assume_specification[ Bytes::new ]() -> (buffer: Bytes)
    ensures
        bytes_contents(buffer) == Seq::<u8>::empty(),
;

/// `BytesMut::deref` gives the bytes held as a slice.
#[verifier::external_body]
pub(crate) fn as_slice(buffer: &BytesMut) -> (slice: &[u8])
    ensures
        slice@ == bytes_mut_contents(*buffer),
{
    buffer.deref()
}

/// `BufMut::remaining_mut` of a `BytesMut` is how many bytes are still to come
/// before it reaches the size that no allocation can exceed.
#[verifier::external_body]
pub(crate) fn remaining_mut(buffer: &BytesMut) -> (count: usize)
    ensures
        count + bytes_mut_contents(*buffer).len() == isize::MAX,
{
    buffer.remaining_mut()
}

/// The number that the first three bytes write, most significant byte first.
pub open spec fn big_endian_24(bytes: Seq<u8>) -> u32 {
    (bytes[0] * 0x1_0000 + bytes[1] * 0x100 + bytes[2]) as u32
}

/// The number that the first four bytes write, most significant byte first.
pub open spec fn big_endian_32(bytes: Seq<u8>) -> u32 {
    (bytes[0] * 0x100_0000 + bytes[1] * 0x1_0000 + bytes[2] * 0x100 + bytes[3]) as u32
}

/// The number that the first four bytes write, least significant byte first.
pub open spec fn little_endian_32(bytes: Seq<u8>) -> u32 {
    (bytes[3] * 0x100_0000 + bytes[2] * 0x1_0000 + bytes[1] * 0x100 + bytes[0]) as u32
}

/// `ReadBytesExt::read_u24::<BigEndian>` on a cursor at the start of the buffer
/// reads the first three bytes.  It fails if and only if there are fewer.
#[verifier::external_body]
pub(crate) fn read_u24_big_endian(buffer: BytesMut) -> (number: Result<u32, std::io::Error>)
    ensures
        number is Ok <==> bytes_mut_contents(buffer).len() >= 3,
        number matches Ok(value) ==> value == big_endian_24(bytes_mut_contents(buffer)),
{
    let mut cursor = Cursor::new(buffer);
    cursor.read_u24::<BigEndian>()
}

/// `ReadBytesExt::read_u32::<BigEndian>` on a cursor at the start of the buffer
/// reads the first four bytes.  It fails if and only if there are fewer.
#[verifier::external_body]
pub(crate) fn read_u32_big_endian(buffer: BytesMut) -> (number: Result<u32, std::io::Error>)
    ensures
        number is Ok <==> bytes_mut_contents(buffer).len() >= 4,
        number matches Ok(value) ==> value == big_endian_32(bytes_mut_contents(buffer)),
{
    let mut cursor = Cursor::new(buffer);
    cursor.read_u32::<BigEndian>()
}

/// `ReadBytesExt::read_u32::<LittleEndian>` on a cursor at the start of the buffer
/// reads the first four bytes.  It fails if and only if there are fewer.
#[verifier::external_body]
pub(crate) fn read_u32_little_endian(buffer: BytesMut) -> (number: Result<u32, std::io::Error>)
    ensures
        number is Ok <==> bytes_mut_contents(buffer).len() >= 4,
        number matches Ok(value) ==> value == little_endian_32(bytes_mut_contents(buffer)),
{
    let mut cursor = Cursor::new(buffer);
    cursor.read_u32::<LittleEndian>()
}

} // verus!

//! Little-endian integer encoding, done by the `byteorder` crate.
use vstd::prelude::*;
use vstd::bytes::*;
use std::io::Cursor;
use byteorder::{ByteOrder, LittleEndian, ReadBytesExt};

verus! {

/// Calls `LittleEndian::write_u16` on a two-byte buffer: the result is the
/// little-endian encoding of `n`.
#[verifier::external_body]
pub(crate) fn encode_u16(n: u16) -> (r: Vec<u8>)
    ensures
        r@ == spec_u16_to_le_bytes(n),
{
    let mut buf = vec![0u8; 2];
    LittleEndian::write_u16(&mut buf, n);
    buf
}

/// Calls `LittleEndian::write_u32` on a four-byte buffer: the result is the
/// little-endian encoding of `n`.
#[verifier::external_body]
pub(crate) fn encode_u32(n: u32) -> (r: Vec<u8>)
    ensures
        r@ == spec_u32_to_le_bytes(n),
{
    let mut buf = vec![0u8; 4];
    LittleEndian::write_u32(&mut buf, n);
    buf
}

/// Calls `LittleEndian::write_u64` on an eight-byte buffer: the result is the
/// little-endian encoding of `n`.
#[verifier::external_body]
pub(crate) fn encode_u64(n: u64) -> (r: Vec<u8>)
    ensures
        r@ == spec_u64_to_le_bytes(n),
{
    let mut buf = vec![0u8; 8];
    LittleEndian::write_u64(&mut buf, n);
    buf
}

/// Calls `LittleEndian::read_u16`, which decodes the first two bytes of `buf`
/// (it panics on a shorter buffer, which `requires` rules out).
#[verifier::external_body]
pub(crate) fn decode_u16(buf: &[u8]) -> (r: u16)
    requires
        buf@.len() >= 2,
    ensures
        r == spec_u16_from_le_bytes(buf@.subrange(0, 2)),
{
    LittleEndian::read_u16(buf)
}

/// Calls `LittleEndian::read_u32`, which decodes the first four bytes of `buf`
/// (it panics on a shorter buffer, which `requires` rules out).
#[verifier::external_body]
pub(crate) fn decode_u32(buf: &[u8]) -> (r: u32)
    requires
        buf@.len() >= 4,
    ensures
        r == spec_u32_from_le_bytes(buf@.subrange(0, 4)),
{
    LittleEndian::read_u32(buf)
}

/// Calls `LittleEndian::read_u64`, which decodes the first eight bytes of `buf`
/// (it panics on a shorter buffer, which `requires` rules out).
#[verifier::external_body]
pub(crate) fn decode_u64(buf: &[u8]) -> (r: u64)
    requires
        buf@.len() >= 8,
    ensures
        r == spec_u64_from_le_bytes(buf@.subrange(0, 8)),
{
    LittleEndian::read_u64(buf)
}

/// Calls byteorder's `ReadBytesExt::read_u64::<LittleEndian>` on a
/// `Cursor` over `data` set to position `pos`. That call reads exactly eight
/// bytes (`read_exact`): it gives their little-endian value when eight bytes
/// follow `pos`, and an I/O error otherwise, whose text is passed on. What
/// the text says is left unstated.
#[verifier::external_body]
pub(crate) fn cursor_read_u64(data: &[u8], pos: u64) -> (r: Result<u64, String>)
    ensures
        r matches Ok(v) ==> v == spec_u64_from_le_bytes(data@.subrange(pos as int, pos + 8)),
        r is Err <==> pos + 8 > data@.len(),
{
    let mut reader = Cursor::new(data);
    reader.set_position(pos);
    match reader.read_u64::<LittleEndian>() {
        Ok(v) => Ok(v),
        Err(e) => Err(e.to_string()),
    }
}

/// Calls byteorder's `ReadBytesExt::read_u32::<LittleEndian>` on a
/// `Cursor` over `data` set to position `pos`. That call reads exactly four
/// bytes (`read_exact`): it gives their little-endian value when four bytes
/// follow `pos`, and an I/O error otherwise, whose text is passed on. What
/// the text says is left unstated.
#[verifier::external_body]
pub(crate) fn cursor_read_u32(data: &[u8], pos: u64) -> (r: Result<u32, String>)
    ensures
        r matches Ok(v) ==> v == spec_u32_from_le_bytes(data@.subrange(pos as int, pos + 4)),
        r is Err <==> pos + 4 > data@.len(),
{
    let mut reader = Cursor::new(data);
    reader.set_position(pos);
    match reader.read_u32::<LittleEndian>() {
        Ok(v) => Ok(v),
        Err(e) => Err(e.to_string()),
    }
}

/// Calls byteorder's `ReadBytesExt::read_u16::<LittleEndian>` on a
/// `Cursor` over `data` set to position `pos`. That call reads exactly two
/// bytes (`read_exact`): it gives their little-endian value when two bytes
/// follow `pos`, and an I/O error otherwise, whose text is passed on. What
/// the text says is left unstated.
#[verifier::external_body]
pub(crate) fn cursor_read_u16(data: &[u8], pos: u64) -> (r: Result<u16, String>)
    ensures
        r matches Ok(v) ==> v == spec_u16_from_le_bytes(data@.subrange(pos as int, pos + 2)),
        r is Err <==> pos + 2 > data@.len(),
{
    let mut reader = Cursor::new(data);
    reader.set_position(pos);
    match reader.read_u16::<LittleEndian>() {
        Ok(v) => Ok(v),
        Err(e) => Err(e.to_string()),
    }
}

} // verus!

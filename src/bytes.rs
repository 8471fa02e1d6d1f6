//! Little-endian integers read out of byte buffers.
use byteorder::{ByteOrder, LittleEndian};
use vstd::prelude::*;

verus! {

/// The unsigned 16-bit value stored little-endian at `off`.
pub open spec fn le_u16(s: Seq<u8>, off: int) -> u16 {
    (s[off] as int + 256 * s[off + 1] as int) as u16
}

/// The unsigned 32-bit value stored little-endian at `off`.
pub open spec fn le_u32(s: Seq<u8>, off: int) -> u32 {
    (s[off] as int + 256 * s[off + 1] as int + 65536 * s[off + 2] as int + 16777216 * s[off
        + 3] as int) as u32
}

/// The byte `b` read as a two's complement value.
pub open spec fn signed_byte(b: u8) -> i8 {
    (if b >= 0x80 {
        b as int - 0x100
    } else {
        b as int
    }) as i8
}

pub fn to_signed_byte(b: u8) -> (r: i8)
    ensures
        r == signed_byte(b),
{
    if b >= 0x80 {
        (b as i16 - 0x100) as i8
    } else {
        b as i8
    }
}

/// The signed 16-bit value stored little-endian (two's complement) at `off`.
pub open spec fn le_i16(s: Seq<u8>, off: int) -> i16 {
    let u = le_u16(s, off) as int;
    (if u >= 0x8000 {
        u - 0x1_0000
    } else {
        u
    }) as i16
}

/// The signed 32-bit value stored little-endian (two's complement) at `off`.
pub open spec fn le_i32(s: Seq<u8>, off: int) -> i32 {
    let u = le_u32(s, off) as int;
    (if u >= 0x8000_0000 {
        u - 0x1_0000_0000
    } else {
        u
    }) as i32
}

/// Relies on byteorder's `LittleEndian::read_u16`, which decodes the first two
/// bytes of its argument, low byte first.
#[verifier::external_body]
pub(crate) fn read_u16(data: &[u8], off: usize) -> (r: u16)
    requires
        off + 2 <= data@.len(),
    ensures
        r == le_u16(data@, off as int),
{
    LittleEndian::read_u16(&data[off..])
}

/// Relies on byteorder's `LittleEndian::read_u32`, which decodes the first four
/// bytes of its argument, low byte first.
#[verifier::external_body]
pub(crate) fn read_u32(data: &[u8], off: usize) -> (r: u32)
    requires
        off + 4 <= data@.len(),
    ensures
        r == le_u32(data@, off as int),
{
    LittleEndian::read_u32(&data[off..])
}

/// Relies on byteorder's `LittleEndian::read_i16`, the first two bytes of its
/// argument read as an unsigned value and reinterpreted as two's complement.
#[verifier::external_body]
pub(crate) fn read_i16(data: &[u8], off: usize) -> (r: i16)
    requires
        off + 2 <= data@.len(),
    ensures
        r == le_i16(data@, off as int),
{
    LittleEndian::read_i16(&data[off..])
}

/// Relies on byteorder's `LittleEndian::read_i32`, the first four bytes of its
/// argument read as an unsigned value and reinterpreted as two's complement.
#[verifier::external_body]
pub(crate) fn read_i32(data: &[u8], off: usize) -> (r: i32)
    requires
        off + 4 <= data@.len(),
    ensures
        r == le_i32(data@, off as int),
{
    LittleEndian::read_i32(&data[off..])
}

} // verus!

//! Little-endian decoding of byte strings.

use vstd::prelude::*;

verus! {

/// The 16-bit value whose little-endian encoding starts `bytes`.
pub open spec fn le_u16(bytes: Seq<u8>) -> u16
    recommends
        bytes.len() >= 2,
{
    (bytes[0] + 0x100 * bytes[1]) as u16
}

/// The 32-bit value whose little-endian encoding starts `bytes`.
pub open spec fn le_u32(bytes: Seq<u8>) -> u32
    recommends
        bytes.len() >= 4,
{
    (bytes[0] + 0x100 * bytes[1] + 0x1_0000 * bytes[2] + 0x100_0000 * bytes[3]) as u32
}

/// Decodes the first two bytes of `input` as a little-endian `u16`.
pub fn read_le_u16(input: &[u8]) -> (value: u16)
    requires
        input@.len() >= 2,
    ensures
        value == le_u16(input@),
{
    let low: u16 = input[0] as u16;
    let high: u16 = input[1] as u16;
    low + 0x100 * high
}

/// Decodes the first four bytes of `input` as a little-endian `u32`.
pub fn read_le_u32(input: &[u8]) -> (value: u32)
    requires
        input@.len() >= 4,
    ensures
        value == le_u32(input@),
{
    let b0: u32 = input[0] as u32;
    let b1: u32 = input[1] as u32;
    let b2: u32 = input[2] as u32;
    let b3: u32 = input[3] as u32;
    b0 + 0x100 * b1 + 0x1_0000 * b2 + 0x100_0000 * b3
}

} // verus!

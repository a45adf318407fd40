//! A 32-bit register seen as four byte lanes, least significant first.

use vstd::prelude::*;
use crate::byte_order::le_u16;

verus! {

/// The four byte lanes of `value`, least significant first.
pub open spec fn lanes(value: u32) -> Seq<u8> {
    seq![
        (value % 0x100) as u8,
        (value / 0x100 % 0x100) as u8,
        (value / 0x1_0000 % 0x100) as u8,
        (value / 0x100_0000) as u8,
    ]
}

/// The register whose four byte lanes are `bytes`.
pub open spec fn from_lanes(bytes: Seq<u8>) -> u32
    recommends
        bytes.len() == 4,
{
    (bytes[0] + 0x100 * bytes[1] + 0x1_0000 * bytes[2] + 0x100_0000 * bytes[3]) as u32
}

/// The two bytes of `value`, low byte first.
pub open spec fn word_lanes(value: u16) -> Seq<u8> {
    seq![(value % 0x100) as u8, (value / 0x100) as u8]
}

/// `lanes` with `data` laid over it from position `offset` on. Positions of
/// `lanes` that `data` does not reach keep their byte.
pub open spec fn overlay(lanes: Seq<u8>, offset: int, data: Seq<u8>) -> Seq<u8> {
    Seq::new(
        lanes.len(),
        |i: int|
            if offset <= i < offset + data.len() {
                data[i - offset]
            } else {
                lanes[i]
            },
    )
}

/// A register is determined by its lanes.
pub proof fn lemma_from_lanes_of_lanes(value: u32)
    ensures
        lanes(value).len() == 4,
        from_lanes(lanes(value)) == value,
{
}

/// Four bytes are the lanes of the register built from them.
pub proof fn lemma_lanes_of_from_lanes(bytes: Seq<u8>)
    requires
        bytes.len() == 4,
    ensures
        lanes(from_lanes(bytes)) == bytes,
{
    assert(lanes(from_lanes(bytes)) =~= bytes);
}

/// The halves of a register hold its lanes two by two.
pub proof fn lemma_halves_of_lanes(value: u32)
    ensures
        word_lanes((value % 0x1_0000) as u16) == lanes(value).subrange(0, 2),
        word_lanes((value / 0x1_0000) as u16) == lanes(value).subrange(2, 4),
{
    assert(value % 0x1_0000 % 0x100 == value % 0x100 && value % 0x1_0000 / 0x100 == value / 0x100
        % 0x100 && value / 0x1_0000 / 0x100 == value / 0x100_0000 && value / 0x1_0000 <= 0xFFFF)
        by (bit_vector);
    assert(word_lanes((value % 0x1_0000) as u16) =~= lanes(value).subrange(0, 2));
    assert(word_lanes((value / 0x1_0000) as u16) =~= lanes(value).subrange(2, 4));
}

/// What clearing a byte lane with a mask and or-ing a byte in does to the
/// four lanes.
proof fn lemma_mask_and_or_byte(value: u32, shift: u32, data: u8)
    by (bit_vector)
    requires
        shift == 0 || shift == 8 || shift == 16 || shift == 24,
    ensures
        ({
            let r = (value & !(0xFFu32 << shift)) | ((data as u32) << shift);
            &&& r % 0x100 == (if shift == 0 { data as u32 } else { value % 0x100 })
            &&& r / 0x100 % 0x100 == (if shift == 8 { data as u32 } else { value / 0x100 % 0x100 })
            &&& r / 0x1_0000 % 0x100 == (if shift == 16 { data as u32 } else { value / 0x1_0000 % 0x100 })
            &&& r / 0x100_0000 == (if shift == 24 { data as u32 } else { value / 0x100_0000 })
            &&& r == r % 0x100 + 0x100 * (r / 0x100 % 0x100) + 0x1_0000 * (r / 0x1_0000 % 0x100)
                + 0x100_0000 * (r / 0x100_0000)
        }),
{
}

/// What clearing a half-word with a mask and or-ing a word in does to the
/// two halves, and how the halves hold the lanes.
proof fn lemma_mask_and_or_word(value: u32, shift: u32, data: u16)
    by (bit_vector)
    requires
        shift == 0 || shift == 16,
    ensures
        ({
            let r = (value & !(0xFFFFu32 << shift)) | ((data as u32) << shift);
            &&& r % 0x1_0000 == (if shift == 0 { data as u32 } else { value % 0x1_0000 })
            &&& r / 0x1_0000 == (if shift == 16 { data as u32 } else { value / 0x1_0000 })
            &&& r % 0x100 == r % 0x1_0000 % 0x100
            &&& r / 0x100 % 0x100 == r % 0x1_0000 / 0x100
            &&& value % 0x100 == value % 0x1_0000 % 0x100
            &&& value / 0x100 % 0x100 == value % 0x1_0000 / 0x100
            &&& (data as u32) / 0x1_0000 == 0
            &&& r == r % 0x100 + 0x100 * (r / 0x100 % 0x100) + 0x1_0000 * (r / 0x1_0000 % 0x100)
                + 0x100_0000 * (r / 0x100_0000)
        }),
{
}

/// Shifting and masking picks a byte lane.
proof fn lemma_shift_byte(value: u32, shift: u32)
    by (bit_vector)
    requires
        shift == 0 || shift == 8 || shift == 16 || shift == 24,
    ensures
        (value >> shift) & 0xFF == (if shift == 0 {
            value % 0x100
        } else if shift == 8 {
            value / 0x100 % 0x100
        } else if shift == 16 {
            value / 0x1_0000 % 0x100
        } else {
            value / 0x100_0000
        }),
{
}

/// Shifting and masking picks a half-word.
proof fn lemma_shift_word(value: u32, shift: u32)
    by (bit_vector)
    requires
        shift == 0 || shift == 16,
    ensures
        (value >> shift) & 0xFFFF == (if shift == 0 {
            value % 0x1_0000
        } else {
            value / 0x1_0000
        }),
{
}

/// Byte lane `offset` of `value`.
pub(crate) fn read_lane(value: u32, offset: usize) -> (byte: u8)
    requires
        offset < 4,
    ensures
        byte == lanes(value)[offset as int],
{
    let shift: u32 = (offset as u32) * 8;
    proof {
        lemma_shift_byte(value, shift);
    }
    ((value >> shift) & 0xFF) as u8
}

/// `value` with byte lane `offset` replaced by `data`: the lane is cleared
/// with a mask, then `data` is or-ed in.
pub(crate) fn write_lane(value: u32, offset: usize, data: u8) -> (result: u32)
    requires
        offset < 4,
    ensures
        result == from_lanes(lanes(value).update(offset as int, data)),
        lanes(result) == lanes(value).update(offset as int, data),
{
    let shift: u32 = (offset as u32) * 8;
    proof {
        lemma_mask_and_or_byte(value, shift, data);
    }
    let result: u32 = (value & !(0xFFu32 << shift)) | ((data as u32) << shift);
    assert(lanes(result) =~= lanes(value).update(offset as int, data));
    result
}

/// Half-word `index` of `value`: lanes `2 * index` and `2 * index + 1`, low
/// byte first.
pub(crate) fn read_half(value: u32, index: usize) -> (word: u16)
    requires
        index < 2,
    ensures
        word_lanes(word) == lanes(value).subrange(2 * index, 2 * index + 2),
        word == le_u16(lanes(value).subrange(2 * index, 2 * index + 2)),
{
    let shift: u32 = (index as u32) * 16;
    proof {
        lemma_shift_word(value, shift);
    }
    let word: u16 = ((value >> shift) & 0xFFFF) as u16;
    assert(word_lanes(word) =~= lanes(value).subrange(2 * index, 2 * index + 2));
    word
}

/// `value` with half-word `index` replaced by `data`.
pub(crate) fn write_half(value: u32, index: usize, data: u16) -> (result: u32)
    requires
        index < 2,
    ensures
        result == from_lanes(overlay(lanes(value), 2 * index, word_lanes(data))),
        lanes(result) == overlay(lanes(value), 2 * index, word_lanes(data)),
{
    let shift: u32 = (index as u32) * 16;
    proof {
        lemma_mask_and_or_word(value, shift, data);
    }
    let result: u32 = (value & !(0xFFFFu32 << shift)) | ((data as u32) << shift);
    assert(lanes(result) =~= overlay(lanes(value), 2 * index, word_lanes(data)));
    result
}

} // verus!

//! Numbers spelled in bytes: what a run of bytes is worth, and the
//! fixed-width big-endian integers of the wire.

use vstd::prelude::*;

verus! {

/// The number that `s` spells in base 256, most significant byte first.
pub open spec fn be_value(s: Seq<u8>) -> nat
    decreases s.len(),
{
    if s.len() == 0 {
        0
    } else {
        be_value(s.drop_last()) * 256 + s.last() as nat
    }
}

/// The number that `s` spells in base 256, least significant byte first.
pub open spec fn le_value(s: Seq<u8>) -> nat
    decreases s.len(),
{
    if s.len() == 0 {
        0
    } else {
        s[0] as nat + 256 * le_value(s.skip(1))
    }
}

/// Four big-endian bytes read as a two's complement number.
pub open spec fn be_i32(s: Seq<u8>) -> int {
    if be_value(s) >= 0x8000_0000 {
        be_value(s) - 0x1_0000_0000
    } else {
        be_value(s) as int
    }
}

/// One byte is worth itself.
pub proof fn lemma_be_value_1(s: Seq<u8>)
    requires
        s.len() == 1,
    ensures
        be_value(s) == s[0],
{
    reveal_with_fuel(be_value, 2);
}

/// Two bytes, written out.
pub proof fn lemma_be_value_2(s: Seq<u8>)
    requires
        s.len() == 2,
    ensures
        be_value(s) == s[0] * 0x100 + s[1],
{
    reveal_with_fuel(be_value, 3);
}

/// Four bytes, written out.
pub proof fn lemma_be_value_4(s: Seq<u8>)
    requires
        s.len() == 4,
    ensures
        be_value(s) == s[0] * 0x100_0000 + s[1] * 0x1_0000 + s[2] * 0x100 + s[3],
{
    reveal_with_fuel(be_value, 5);
}

/// Eight bytes, written out.
pub proof fn lemma_be_value_8(s: Seq<u8>)
    requires
        s.len() == 8,
    ensures
        be_value(s) == s[0] * 0x100_0000_0000_0000 + s[1] * 0x1_0000_0000_0000 + s[2]
            * 0x100_0000_0000 + s[3] * 0x1_0000_0000 + s[4] * 0x100_0000 + s[5] * 0x1_0000 + s[6]
            * 0x100 + s[7],
{
    reveal_with_fuel(be_value, 9);
}

/// Reads one byte as an unsigned number.
pub fn slice_to_u8(input: &[u8]) -> (r: u8)
    requires
        input@.len() == 1,
    ensures
        r == be_value(input@),
{
    proof {
        lemma_be_value_1(input@);
    }
    input[0]
}

/// Reads two bytes as a big-endian unsigned number.
pub fn slice_to_u16(input: &[u8]) -> (r: u16)
    requires
        input@.len() == 2,
    ensures
        r == be_value(input@),
{
    proof {
        lemma_be_value_2(input@);
    }
    let hi: u16 = input[0] as u16;
    let lo: u16 = input[1] as u16;
    hi * 0x100 + lo
}

/// Reads four bytes as a big-endian unsigned number.
pub fn slice_to_u32(input: &[u8]) -> (r: u32)
    requires
        input@.len() == 4,
    ensures
        r == be_value(input@),
{
    proof {
        lemma_be_value_4(input@);
    }
    let b0: u32 = input[0] as u32;
    let b1: u32 = input[1] as u32;
    let b2: u32 = input[2] as u32;
    let b3: u32 = input[3] as u32;
    b0 * 0x100_0000 + b1 * 0x1_0000 + b2 * 0x100 + b3
}

/// Reads eight bytes as a big-endian unsigned number.
pub fn slice_to_u64(input: &[u8]) -> (r: u64)
    requires
        input@.len() == 8,
    ensures
        r == be_value(input@),
{
    proof {
        lemma_be_value_8(input@);
    }
    let b0: u64 = input[0] as u64;
    let b1: u64 = input[1] as u64;
    let b2: u64 = input[2] as u64;
    let b3: u64 = input[3] as u64;
    let b4: u64 = input[4] as u64;
    let b5: u64 = input[5] as u64;
    let b6: u64 = input[6] as u64;
    let b7: u64 = input[7] as u64;
    b0 * 0x100_0000_0000_0000 + b1 * 0x1_0000_0000_0000 + b2 * 0x100_0000_0000 + b3
        * 0x1_0000_0000 + b4 * 0x100_0000 + b5 * 0x1_0000 + b6 * 0x100 + b7
}

/// Reads four bytes as a big-endian two's complement number.
pub fn slice_to_i32(input: &[u8]) -> (r: i32)
    requires
        input@.len() == 4,
    ensures
        r == be_i32(input@),
{
    let unsigned: u32 = slice_to_u32(input);
    if unsigned >= 0x8000_0000 {
        let low: i32 = (unsigned - 0x8000_0000) as i32;
        low + i32::MIN
    } else {
        unsigned as i32
    }
}

} // verus!

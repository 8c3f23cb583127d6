use vstd::prelude::*;
use vstd::arithmetic::div_mod::lemma_fundamental_div_mod_converse;
use byteorder::{LittleEndian, ReadBytesExt, WriteBytesExt};
use crate::bytes::le_u32;

verus! {

/// The unsigned 16-bit number stored little-endian in the two bytes of `bytes` that start at `at`.
pub open spec fn le_u16(bytes: Seq<u8>, at: int) -> u16 {
    (bytes[at] + 256 * bytes[at + 1]) as u16
}

/// The unsigned 64-bit number stored little-endian in the eight bytes of `bytes` that start at `at`.
pub open spec fn le_u64(bytes: Seq<u8>, at: int) -> u64 {
    (le_u32(bytes, at) + 0x1_0000_0000 * le_u32(bytes, at + 4)) as u64
}

/// The signed number with the same 16 bits in two's complement.
pub open spec fn signed16(value: u16) -> i16 {
    if value < 0x8000 {
        value as i16
    } else {
        (value - 0x1_0000) as i16
    }
}

/// The signed number with the same 32 bits in two's complement.
pub open spec fn signed32(value: u32) -> i32 {
    if value < 0x8000_0000 {
        value as i32
    } else {
        (value - 0x1_0000_0000) as i32
    }
}

/// The unsigned number with the same 32 bits in two's complement.
pub open spec fn unsigned32(value: i32) -> u32 {
    if value >= 0 {
        value as u32
    } else {
        (value + 0x1_0000_0000) as u32
    }
}

/// The two bytes that store `value` little-endian.
pub open spec fn le_bytes16(value: u16) -> Seq<u8> {
    seq![(value % 256) as u8, (value / 256) as u8]
}

/// The four bytes that store `value` little-endian.
pub open spec fn le_bytes(value: u32) -> Seq<u8> {
    seq![
        (value % 256) as u8,
        (value / 256 % 256) as u8,
        (value / 65536 % 256) as u8,
        (value / 16777216) as u8,
    ]
}

/// Writing back a number that was read little-endian gives the bytes it was read from.
pub proof fn lemma_le_round_trip(bytes: Seq<u8>, at: int)
    requires
        0 <= at,
        at + 4 <= bytes.len(),
    ensures
        le_bytes(le_u32(bytes, at)) == bytes.subrange(at, at + 4),
{
    let b0 = bytes[at] as int;
    let b1 = bytes[at + 1] as int;
    let b2 = bytes[at + 2] as int;
    let b3 = bytes[at + 3] as int;
    let value = b0 + 256 * b1 + 65536 * b2 + 16777216 * b3;
    assert(le_u32(bytes, at) == value);
    lemma_fundamental_div_mod_converse(value, 256, b1 + 256 * b2 + 65536 * b3, b0);
    lemma_fundamental_div_mod_converse(value / 256, 256, b2 + 256 * b3, b1);
    lemma_fundamental_div_mod_converse(value, 65536, b2 + 256 * b3, b0 + 256 * b1);
    lemma_fundamental_div_mod_converse(value / 65536, 256, b3, b2);
    lemma_fundamental_div_mod_converse(value, 16777216, b3, b0 + 256 * b1 + 65536 * b2);
    assert(le_bytes(le_u32(bytes, at)) =~= bytes.subrange(at, at + 4));
}

/// Calls `byteorder::ReadBytesExt::read_u16::<LittleEndian>` on the bytes of `input` from `at` on.
/// Trusted: with two bytes or more left the call gives the number that the
/// first two store little-endian; with fewer it fails.
#[verifier::external_body]
pub(crate) fn read_u16_at(input: &[u8], at: usize) -> (r: Option<u16>)
    requires
        at <= input.len(),
    ensures
        r == if at + 2 <= input.len() {
            Some(le_u16(input@, at as int))
        } else {
            None
        },
{
    let mut rest = &input[at..];
    rest.read_u16::<LittleEndian>().ok()
}

/// Calls `byteorder::ReadBytesExt::read_i16::<LittleEndian>` on the bytes of `input` from `at` on.
/// Trusted: with two bytes or more left the call gives the signed number
/// that the first two store little-endian in two's complement; with fewer it fails.
#[verifier::external_body]
pub(crate) fn read_i16_at(input: &[u8], at: usize) -> (r: Option<i16>)
    requires
        at <= input.len(),
    ensures
        r == if at + 2 <= input.len() {
            Some(signed16(le_u16(input@, at as int)))
        } else {
            None
        },
{
    let mut rest = &input[at..];
    rest.read_i16::<LittleEndian>().ok()
}

/// Calls `byteorder::ReadBytesExt::read_u32::<LittleEndian>` on the bytes of `input` from `at` on.
/// Trusted: with four bytes or more left the call gives the number that the
/// first four store little-endian; with fewer it fails.
#[verifier::external_body]
pub(crate) fn read_u32_at(input: &[u8], at: usize) -> (r: Option<u32>)
    requires
        at <= input.len(),
    ensures
        r == if at + 4 <= input.len() {
            Some(le_u32(input@, at as int))
        } else {
            None
        },
{
    let mut rest = &input[at..];
    rest.read_u32::<LittleEndian>().ok()
}

/// Calls `byteorder::ReadBytesExt::read_i32::<LittleEndian>` on the bytes of `input` from `at` on.
/// Trusted: with four bytes or more left the call gives the signed number
/// that the first four store little-endian in two's complement; with fewer it fails.
#[verifier::external_body]
pub(crate) fn read_i32_at(input: &[u8], at: usize) -> (r: Option<i32>)
    requires
        at <= input.len(),
    ensures
        r == if at + 4 <= input.len() {
            Some(signed32(le_u32(input@, at as int)))
        } else {
            None
        },
{
    let mut rest = &input[at..];
    rest.read_i32::<LittleEndian>().ok()
}

/// Calls `byteorder::ReadBytesExt::read_u64::<LittleEndian>` on the bytes of `input` from `at` on.
/// Trusted: with eight bytes or more left the call gives the number that
/// the first eight store little-endian; with fewer it fails.
#[verifier::external_body]
pub(crate) fn read_u64_at(input: &[u8], at: usize) -> (r: Option<u64>)
    requires
        at <= input.len(),
    ensures
        r == if at + 8 <= input.len() {
            Some(le_u64(input@, at as int))
        } else {
            None
        },
{
    let mut rest = &input[at..];
    rest.read_u64::<LittleEndian>().ok()
}

/// Calls `byteorder::WriteBytesExt::write_u16::<LittleEndian>` on `output`.
/// Trusted: the call appends the two bytes that store `value` little-endian.
#[verifier::external_body]
pub(crate) fn write_u16(output: &mut Vec<u8>, value: u16)
    ensures
        final(output)@ == old(output)@ + le_bytes16(value),
{
    let _ = output.write_u16::<LittleEndian>(value);
}

/// Calls `byteorder::WriteBytesExt::write_u32::<LittleEndian>` on `output`.
/// Trusted: the call appends the four bytes that store `value` little-endian.
#[verifier::external_body]
pub(crate) fn write_u32(output: &mut Vec<u8>, value: u32)
    ensures
        final(output)@ == old(output)@ + le_bytes(value),
{
    let _ = output.write_u32::<LittleEndian>(value);
}

/// Calls `byteorder::WriteBytesExt::write_i32::<LittleEndian>` on `output`.
/// Trusted: the call appends the four bytes that store `value`
/// little-endian in two's complement.
#[verifier::external_body]
pub(crate) fn write_i32(output: &mut Vec<u8>, value: i32)
    ensures
        final(output)@ == old(output)@ + le_bytes(unsigned32(value)),
{
    let _ = output.write_i32::<LittleEndian>(value);
}

/// Reads the unsigned 16-bit number stored at `at`, where the input holds its two bytes.
pub fn read_u16(input: &[u8], at: usize) -> (r: Option<u16>)
    ensures
        r == if at + 2 <= input.len() {
            Some(le_u16(input@, at as int))
        } else {
            None
        },
{
    if at > input.len() {
        None
    } else {
        read_u16_at(input, at)
    }
}

/// Reads the signed 16-bit number stored at `at`, where the input holds its two bytes.
pub fn read_i16(input: &[u8], at: usize) -> (r: Option<i16>)
    ensures
        r == if at + 2 <= input.len() {
            Some(signed16(le_u16(input@, at as int)))
        } else {
            None
        },
{
    if at > input.len() {
        None
    } else {
        read_i16_at(input, at)
    }
}

/// Reads the unsigned 32-bit number stored at `at`, where the input holds its four bytes.
pub fn read_u32(input: &[u8], at: usize) -> (r: Option<u32>)
    ensures
        r == if at + 4 <= input.len() {
            Some(le_u32(input@, at as int))
        } else {
            None
        },
{
    if at > input.len() {
        None
    } else {
        read_u32_at(input, at)
    }
}

/// Reads the signed 32-bit number stored at `at`, where the input holds its four bytes.
pub fn read_i32(input: &[u8], at: usize) -> (r: Option<i32>)
    ensures
        r == if at + 4 <= input.len() {
            Some(signed32(le_u32(input@, at as int)))
        } else {
            None
        },
{
    if at > input.len() {
        None
    } else {
        read_i32_at(input, at)
    }
}

/// Reads the unsigned 64-bit number stored at `at`, where the input holds its eight bytes.
pub fn read_u64(input: &[u8], at: usize) -> (r: Option<u64>)
    ensures
        r == if at + 8 <= input.len() {
            Some(le_u64(input@, at as int))
        } else {
            None
        },
{
    if at > input.len() {
        None
    } else {
        read_u64_at(input, at)
    }
}

} // verus!

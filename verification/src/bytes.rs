//! Byte-order helpers shared by the heap, the snapshot code and the parsers.
use vstd::prelude::*;

verus! {

/// The unsigned 16-bit value of two bytes, most significant first.
pub open spec fn be16(hi: u8, lo: u8) -> u16 {
    (hi as int * 256 + lo as int) as u16
}

/// The unsigned 16-bit value of two bytes, least significant first.
pub open spec fn le16(lo: u8, hi: u8) -> u16 {
    (hi as int * 256 + lo as int) as u16
}

/// The unsigned 32-bit value of four bytes, most significant first.
pub open spec fn be32(b0: u8, b1: u8, b2: u8, b3: u8) -> u32 {
    (b0 as int * 16777216 + b1 as int * 65536 + b2 as int * 256 + b3 as int) as u32
}

/// High byte of a 16-bit value.
pub open spec fn hi8(v: u16) -> u8 {
    (v as int / 256) as u8
}

/// Low byte of a 16-bit value.
pub open spec fn lo8(v: u16) -> u8 {
    (v as int % 256) as u8
}

pub fn read_be16(hi: u8, lo: u8) -> (r: u16)
    ensures
        r == be16(hi, lo),
        r as int == hi as int * 256 + lo as int,
{
    (hi as u16) * 256 + (lo as u16)
}

pub fn read_le16(lo: u8, hi: u8) -> (r: u16)
    ensures
        r == le16(lo, hi),
        r as int == hi as int * 256 + lo as int,
{
    (hi as u16) * 256 + (lo as u16)
}

pub fn read_be32(b0: u8, b1: u8, b2: u8, b3: u8) -> (r: u32)
    ensures
        r == be32(b0, b1, b2, b3),
        r as int == b0 as int * 16777216 + b1 as int * 65536 + b2 as int * 256 + b3 as int,
{
    (b0 as u32) * 16777216 + (b1 as u32) * 65536 + (b2 as u32) * 256 + (b3 as u32)
}

pub fn high_byte(v: u16) -> (r: u8)
    ensures
        r == hi8(v),
        r as int == v as int / 256,
{
    (v / 256) as u8
}

pub fn low_byte(v: u16) -> (r: u8)
    ensures
        r == lo8(v),
        r as int == v as int % 256,
{
    (v % 256) as u8
}

/// Splitting a 16-bit value into its bytes and joining them again gives the value back.
pub proof fn lemma_split_join16(v: u16)
    ensures
        be16(hi8(v), lo8(v)) == v,
        le16(lo8(v), hi8(v)) == v,
{
}

} // verus!

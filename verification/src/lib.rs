//! ISO base media file format (MP4) container library: the recursive tree of
//! size-prefixed, tagged boxes, with a verified read/write engine.

use vstd::prelude::*;

pub mod bytes;
pub mod header;
pub mod ftyp;
pub mod mdat;
pub mod opus;
pub mod trak;
pub mod moov;
pub mod moof;
pub mod emsg;
pub mod container;
pub mod reader;
pub mod muxer;

verus! {

/// Error kinds a decode or encode call can report.
#[derive(Clone, Copy, PartialEq, Eq, Structural, Debug)]
pub enum Error {
    /// Malformed structure: oversized child, bad version byte, bad size field.
    InvalidData,
    /// Fewer bytes available than a field or table declared.
    ShortRead,
}

/// A 4-byte code, kept as its big-endian 32-bit value.
#[derive(Clone, Copy, PartialEq, Eq, Structural, Debug)]
pub struct FourCC {
    pub value: u32,
}

impl FourCC {
    pub fn new(value: u32) -> (r: FourCC)
        ensures
            r.value == value,
    {
        FourCC { value }
    }

    /// The code spelled from four ASCII bytes, first byte most significant.
    pub fn from_bytes(b0: u8, b1: u8, b2: u8, b3: u8) -> (r: FourCC)
        ensures
            r.value == b0 * 0x1000000 + b1 * 0x10000 + b2 * 0x100 + b3,
    {
        FourCC {
            value: (b0 as u32) * 0x1000000 + (b1 as u32) * 0x10000 + (b2 as u32) * 0x100
                + (b3 as u32),
        }
    }
}

/// A 16.16 fixed-point value stored as its raw 32-bit integer.
#[derive(Clone, Copy, PartialEq, Eq, Structural, Debug)]
pub struct FixedPointU16 {
    pub raw: u32,
}

impl FixedPointU16 {
    /// The fixed-point image of a whole number.
    pub fn new(v: u16) -> (r: FixedPointU16)
        ensures
            r.raw == v * 0x10000,
    {
        FixedPointU16 { raw: (v as u32) * 0x10000 }
    }

    pub fn new_raw(raw: u32) -> (r: FixedPointU16)
        ensures
            r.raw == raw,
    {
        FixedPointU16 { raw }
    }

    /// The whole part of the value.
    pub fn value(&self) -> (r: u16)
        ensures
            r == self.raw / 0x10000,
    {
        (self.raw / 0x10000) as u16
    }

    pub fn raw_value(&self) -> (r: u32)
        ensures
            r == self.raw,
    {
        self.raw
    }
}

/// An 8.8 fixed-point value stored as its raw 16-bit integer.
#[derive(Clone, Copy, PartialEq, Eq, Structural, Debug)]
pub struct FixedPointU8 {
    pub raw: u16,
}

impl FixedPointU8 {
    /// The fixed-point image of a whole number.
    pub fn new(v: u8) -> (r: FixedPointU8)
        ensures
            r.raw == v * 0x100,
    {
        FixedPointU8 { raw: (v as u16) * 0x100 }
    }

    pub fn new_raw(raw: u16) -> (r: FixedPointU8)
        ensures
            r.raw == raw,
    {
        FixedPointU8 { raw }
    }

    /// The whole part of the value.
    pub fn value(&self) -> (r: u8)
        ensures
            r == self.raw / 0x100,
    {
        (self.raw / 0x100) as u8
    }

    pub fn raw_value(&self) -> (r: u16)
        ensures
            r == self.raw,
    {
        self.raw
    }
}

} // verus!

//! Box-type tags and the box header codec: 4-byte big-endian size + 4-byte
//! tag, with the 64-bit large-size extension and the size-zero sentinel.

use vstd::prelude::*;

use crate::bytes::{be16, be32, be64, pbe16, pbe32, pbe64, get_u32, get_u64, put_u32, put_u64,
    lemma_be16_roundtrip, lemma_be32_roundtrip, lemma_be64_roundtrip};
use crate::Error;

verus! {

pub const FTYP: u32 = 0x66747970;

pub const MOOV: u32 = 0x6d6f6f76;

pub const MOOF: u32 = 0x6d6f6f66;

pub const MDAT: u32 = 0x6d646174;

pub const FREE: u32 = 0x66726565;

pub const EMSG: u32 = 0x656d7367;

pub const MVHD: u32 = 0x6d766864;

pub const TKHD: u32 = 0x746b6864;

pub const TRAK: u32 = 0x7472616b;

pub const MDIA: u32 = 0x6d646961;

pub const MDHD: u32 = 0x6d646864;

pub const HDLR: u32 = 0x68646c72;

pub const MINF: u32 = 0x6d696e66;

pub const VMHD: u32 = 0x766d6864;

pub const SMHD: u32 = 0x736d6864;

pub const DINF: u32 = 0x64696e66;

pub const STBL: u32 = 0x7374626c;

pub const STSD: u32 = 0x73747364;

pub const AVC1: u32 = 0x61766331;

pub const OPUS: u32 = 0x4f707573;

pub const DOPS: u32 = 0x644f7073;

pub const MFHD: u32 = 0x6d666864;

pub const UDTA: u32 = 0x75647461;

pub const META: u32 = 0x6d657461;

pub const ILST: u32 = 0x696c7374;

/// Size in bytes of the plain box header (4-byte size + 4-byte tag).
pub const HEADER_SIZE: u64 = 8;

/// Size in bytes of a version+flags extension.
pub const HEADER_EXT_SIZE: u64 = 4;

/// A box kind: one of the recognized tags, or any other 4-byte code kept
/// verbatim. Unknown codes round-trip exactly and are never normalized away.
#[derive(Clone, Copy, PartialEq, Eq, Structural, Debug)]
pub enum BoxType {
    FtypBox,
    MoovBox,
    MoofBox,
    MdatBox,
    FreeBox,
    EmsgBox,
    MvhdBox,
    TkhdBox,
    TrakBox,
    MdiaBox,
    MdhdBox,
    HdlrBox,
    MinfBox,
    VmhdBox,
    SmhdBox,
    DinfBox,
    StblBox,
    StsdBox,
    Avc1Box,
    OpusBox,
    DopsBox,
    MfhdBox,
    UdtaBox,
    MetaBox,
    IlstBox,
    UnknownBox(u32),
}

/// The box kind a 4-byte code denotes.
pub open spec fn spec_from_code(c: u32) -> BoxType {
    if c == FTYP {
        BoxType::FtypBox
    } else if c == MOOV {
        BoxType::MoovBox
    } else if c == MOOF {
        BoxType::MoofBox
    } else if c == MDAT {
        BoxType::MdatBox
    } else if c == FREE {
        BoxType::FreeBox
    } else if c == EMSG {
        BoxType::EmsgBox
    } else if c == MVHD {
        BoxType::MvhdBox
    } else if c == TKHD {
        BoxType::TkhdBox
    } else if c == TRAK {
        BoxType::TrakBox
    } else if c == MDIA {
        BoxType::MdiaBox
    } else if c == MDHD {
        BoxType::MdhdBox
    } else if c == HDLR {
        BoxType::HdlrBox
    } else if c == MINF {
        BoxType::MinfBox
    } else if c == VMHD {
        BoxType::VmhdBox
    } else if c == SMHD {
        BoxType::SmhdBox
    } else if c == DINF {
        BoxType::DinfBox
    } else if c == STBL {
        BoxType::StblBox
    } else if c == STSD {
        BoxType::StsdBox
    } else if c == AVC1 {
        BoxType::Avc1Box
    } else if c == OPUS {
        BoxType::OpusBox
    } else if c == DOPS {
        BoxType::DopsBox
    } else if c == MFHD {
        BoxType::MfhdBox
    } else if c == UDTA {
        BoxType::UdtaBox
    } else if c == META {
        BoxType::MetaBox
    } else if c == ILST {
        BoxType::IlstBox
    } else {
        BoxType::UnknownBox(c)
    }
}

impl BoxType {
    /// The 4-byte code of this box kind.
    pub open spec fn code(self) -> u32 {
        match self {
            BoxType::FtypBox => FTYP,
            BoxType::MoovBox => MOOV,
            BoxType::MoofBox => MOOF,
            BoxType::MdatBox => MDAT,
            BoxType::FreeBox => FREE,
            BoxType::EmsgBox => EMSG,
            BoxType::MvhdBox => MVHD,
            BoxType::TkhdBox => TKHD,
            BoxType::TrakBox => TRAK,
            BoxType::MdiaBox => MDIA,
            BoxType::MdhdBox => MDHD,
            BoxType::HdlrBox => HDLR,
            BoxType::MinfBox => MINF,
            BoxType::VmhdBox => VMHD,
            BoxType::SmhdBox => SMHD,
            BoxType::DinfBox => DINF,
            BoxType::StblBox => STBL,
            BoxType::StsdBox => STSD,
            BoxType::Avc1Box => AVC1,
            BoxType::OpusBox => OPUS,
            BoxType::DopsBox => DOPS,
            BoxType::MfhdBox => MFHD,
            BoxType::UdtaBox => UDTA,
            BoxType::MetaBox => META,
            BoxType::IlstBox => ILST,
            BoxType::UnknownBox(c) => c,
        }
    }

    /// A kind is canonical when an unknown code does not shadow a known tag.
    pub open spec fn wf(self) -> bool {
        spec_from_code(self.code()) == self
    }

    /// Turn a 4-byte code into the box kind it denotes.
    pub fn from_u32(c: u32) -> (r: BoxType)
        ensures
            r == spec_from_code(c),
            r.code() == c,
            r.wf(),
    {
        if c == FTYP {
            BoxType::FtypBox
        } else if c == MOOV {
            BoxType::MoovBox
        } else if c == MOOF {
            BoxType::MoofBox
        } else if c == MDAT {
            BoxType::MdatBox
        } else if c == FREE {
            BoxType::FreeBox
        } else if c == EMSG {
            BoxType::EmsgBox
        } else if c == MVHD {
            BoxType::MvhdBox
        } else if c == TKHD {
            BoxType::TkhdBox
        } else if c == TRAK {
            BoxType::TrakBox
        } else if c == MDIA {
            BoxType::MdiaBox
        } else if c == MDHD {
            BoxType::MdhdBox
        } else if c == HDLR {
            BoxType::HdlrBox
        } else if c == MINF {
            BoxType::MinfBox
        } else if c == VMHD {
            BoxType::VmhdBox
        } else if c == SMHD {
            BoxType::SmhdBox
        } else if c == DINF {
            BoxType::DinfBox
        } else if c == STBL {
            BoxType::StblBox
        } else if c == STSD {
            BoxType::StsdBox
        } else if c == AVC1 {
            BoxType::Avc1Box
        } else if c == OPUS {
            BoxType::OpusBox
        } else if c == DOPS {
            BoxType::DopsBox
        } else if c == MFHD {
            BoxType::MfhdBox
        } else if c == UDTA {
            BoxType::UdtaBox
        } else if c == META {
            BoxType::MetaBox
        } else if c == ILST {
            BoxType::IlstBox
        } else {
            BoxType::UnknownBox(c)
        }
    }

    /// The 4-byte code of this box kind.
    pub fn to_u32(self) -> (r: u32)
        ensures
            r == self.code(),
    {
        match self {
            BoxType::FtypBox => FTYP,
            BoxType::MoovBox => MOOV,
            BoxType::MoofBox => MOOF,
            BoxType::MdatBox => MDAT,
            BoxType::FreeBox => FREE,
            BoxType::EmsgBox => EMSG,
            BoxType::MvhdBox => MVHD,
            BoxType::TkhdBox => TKHD,
            BoxType::TrakBox => TRAK,
            BoxType::MdiaBox => MDIA,
            BoxType::MdhdBox => MDHD,
            BoxType::HdlrBox => HDLR,
            BoxType::MinfBox => MINF,
            BoxType::VmhdBox => VMHD,
            BoxType::SmhdBox => SMHD,
            BoxType::DinfBox => DINF,
            BoxType::StblBox => STBL,
            BoxType::StsdBox => STSD,
            BoxType::Avc1Box => AVC1,
            BoxType::OpusBox => OPUS,
            BoxType::DopsBox => DOPS,
            BoxType::MfhdBox => MFHD,
            BoxType::UdtaBox => UDTA,
            BoxType::MetaBox => META,
            BoxType::IlstBox => ILST,
            BoxType::UnknownBox(c) => c,
        }
    }
}

/// The length+type prefix of a box. `size` counts the whole box, header
/// included; `size == 0` means the box extends to the end of its region.
#[derive(Clone, Copy, PartialEq, Eq, Structural, Debug)]
pub struct BoxHeader {
    pub name: BoxType,
    pub size: u64,
}

/// Byte image of a header: short form when the size fits 32 bits, else the
/// size field holds 1 and a 64-bit extended size follows the tag.
pub open spec fn ser_header(tag: u32, size: u64) -> Seq<u8> {
    if size <= 0xffffffff {
        be32(size as u32) + be32(tag)
    } else {
        be32(1u32) + be32(tag) + be64(size)
    }
}

/// Bytes a header for a box of size `size` occupies.
pub open spec fn ser_header_len(size: u64) -> int {
    if size <= 0xffffffff {
        8
    } else {
        16
    }
}

/// Parse the header at the start of region `b`: the box kind, the declared
/// size (0 meaning "to end of region") and the header's byte count, or
/// nothing when the header is malformed (a declared size below the minimal
/// header length, or a truncated extended size).
#[verifier::opaque]
pub open spec fn parse_header(b: Seq<u8>) -> Option<(BoxType, u64, int)> {
    if b.len() < 8 {
        None
    } else {
        let s32 = pbe32(b, 0);
        let name = spec_from_code(pbe32(b, 4) as u32);
        if s32 == 1 {
            if b.len() < 16 {
                None
            } else {
                let s = pbe64(b, 8);
                if s < 16 {
                    None
                } else {
                    Some((name, s as u64, 16))
                }
            }
        } else if s32 == 0 {
            Some((name, 0u64, 8))
        } else if s32 < 8 {
            None
        } else {
            Some((name, s32 as u64, 8))
        }
    }
}

/// Byte image of a full-box extension: version byte then 24 flag bits.
pub open spec fn ser_vf(version: u8, flags: u32) -> Seq<u8> {
    seq![version] + crate::bytes::be24(flags)
}

/// Emit a full-box extension.
pub fn put_vf(out: &mut Vec<u8>, version: u8, flags: u32)
    requires
        flags < 0x1000000,
    ensures
        final(out)@ == old(out)@ + ser_vf(version, flags),
{
    crate::bytes::put_u8(out, version);
    crate::bytes::put_u24(out, flags);
    assert(out@ =~= old(out)@ + ser_vf(version, flags));
}

/// `pbe24` reads only the three bytes it covers.
pub proof fn lemma_pbe24_sub(b: Seq<u8>, i: int, v: u32)
    requires
        0 <= i,
        i + 3 <= b.len(),
        v < 0x1000000,
        b.subrange(i, i + 3) == crate::bytes::be24(v),
    ensures
        crate::bytes::pbe24(b, i) == v,
{
    assert(forall|k: int| 0 <= k < 3 ==> b[i + k] == #[trigger] b.subrange(i, i + 3)[k]);
    crate::bytes::lemma_be24_roundtrip(v);
}

/// `pbe16` reads only the two bytes it covers.
pub proof fn lemma_pbe16_sub(b: Seq<u8>, i: int, v: u16)
    requires
        0 <= i,
        i + 2 <= b.len(),
        b.subrange(i, i + 2) == be16(v),
    ensures
        pbe16(b, i) == v,
{
    assert(b[i] == b.subrange(i, i + 2)[0]);
    assert(b[i + 1] == b.subrange(i, i + 2)[1]);
    lemma_be16_roundtrip(v);
}

/// `pbe32` reads only the four bytes it covers.
pub proof fn lemma_pbe32_sub(b: Seq<u8>, i: int, v: u32)
    requires
        0 <= i,
        i + 4 <= b.len(),
        b.subrange(i, i + 4) == be32(v),
    ensures
        pbe32(b, i) == v,
{
    assert(forall|k: int| 0 <= k < 4 ==> b[i + k] == #[trigger] b.subrange(i, i + 4)[k]);
    lemma_be32_roundtrip(v);
}

/// `pbe64` reads only the eight bytes it covers.
pub proof fn lemma_pbe64_sub(b: Seq<u8>, i: int, v: u64)
    requires
        0 <= i,
        i + 8 <= b.len(),
        b.subrange(i, i + 8) == be64(v),
    ensures
        pbe64(b, i) == v,
{
    assert(forall|k: int| 0 <= k < 8 ==> b[i + k] == #[trigger] b.subrange(i, i + 8)[k]);
    lemma_be64_roundtrip(v);
    assert(pbe32(b, i) == pbe32(be64(v), 0));
    assert(pbe32(b, i + 4) == pbe32(be64(v), 4));
}

/// The header image parses back to the same kind, size and length, whatever
/// bytes follow it. Sizes 1 through 7 have no image: a real box is at least
/// one header long.
pub proof fn lemma_header_roundtrip(name: BoxType, size: u64, rest: Seq<u8>)
    requires
        name.wf(),
        size == 0 || size >= 8,
    ensures
        parse_header(ser_header(name.code(), size) + rest) == Some(
            (name, size, ser_header_len(size)),
        ),
        (ser_header(name.code(), size) + rest).len() == ser_header_len(size) + rest.len(),
{
    reveal(parse_header);
    let tag = name.code();
    let b = ser_header(tag, size) + rest;
    if size <= 0xffffffff {
        assert(b.subrange(0, 4) =~= be32(size as u32));
        assert(b.subrange(4, 8) =~= be32(tag));
        lemma_pbe32_sub(b, 0, size as u32);
        lemma_pbe32_sub(b, 4, tag);
    } else {
        assert(b.subrange(0, 4) =~= be32(1u32));
        assert(b.subrange(4, 8) =~= be32(tag));
        assert(b.subrange(8, 16) =~= be64(size));
        lemma_pbe32_sub(b, 0, 1u32);
        lemma_pbe32_sub(b, 4, tag);
        lemma_pbe64_sub(b, 8, size);
    }
}

impl BoxHeader {
    pub fn new(name: BoxType, size: u64) -> (r: BoxHeader)
        ensures
            r.name == name,
            r.size == size,
    {
        BoxHeader { name, size }
    }

    /// Decode the header at `pos` in the region ending at `end`. On success
    /// returns the header and its byte count.
    pub fn read(data: &Vec<u8>, pos: usize, end: usize) -> (r: Result<(BoxHeader, usize), Error>)
        requires
            pos + 8 <= end <= data@.len(),
        ensures
            match r {
                Ok(p) => parse_header(data@.subrange(pos as int, end as int)) == Some(
                    (p.0.name, p.0.size, p.1 as int),
                ) && pos + p.1 <= end && p.0.name.wf() && (p.1 == 8 || p.1 == 16) && (p.0.size == 0
                    || p.0.size >= p.1),
                Err(e) => parse_header(data@.subrange(pos as int, end as int)) is None,
            },
    {
        proof {
            reveal(parse_header);
        }
        let n = data.len();
        let ghost sub = data@.subrange(pos as int, end as int);
        let s32 = get_u32(data, pos);
        let code = get_u32(data, pos + 4);
        let name = BoxType::from_u32(code);
        proof {
            assert(pbe32(sub, 0) == pbe32(data@, pos as int));
            assert(pbe32(sub, 4) == pbe32(data@, pos + 4));
        }
        if s32 == 1 {
            if end - pos < 16 {
                return Err(Error::ShortRead);
            }
            let s = get_u64(data, pos + 8);
            proof {
                assert(pbe64(sub, 8) == pbe64(data@, pos + 8));
            }
            if s < 16 {
                return Err(Error::InvalidData);
            }
            Ok((BoxHeader { name, size: s }, 16))
        } else if s32 == 0 {
            Ok((BoxHeader { name, size: 0 }, 8))
        } else if s32 < 8 {
            Err(Error::InvalidData)
        } else {
            Ok((BoxHeader { name, size: s32 as u64 }, 8))
        }
    }

    /// Encode this header: short form when the size fits 32 bits, else with
    /// the 64-bit extension. Returns the header byte count.
    pub fn write(&self, out: &mut Vec<u8>) -> (r: u64)
        ensures
            final(out)@ == old(out)@ + ser_header(self.name.code(), self.size),
            r as int == ser_header_len(self.size),
    {
        let code = self.name.to_u32();
        if self.size <= 0xffffffff {
            put_u32(out, self.size as u32);
            put_u32(out, code);
            assert(out@ =~= old(out)@ + ser_header(self.name.code(), self.size));
            8
        } else {
            put_u32(out, 1);
            put_u32(out, code);
            put_u64(out, self.size);
            assert(out@ =~= old(out)@ + ser_header(self.name.code(), self.size));
            16
        }
    }
}

} // verus!

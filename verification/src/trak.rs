//! The track subtree: track header, media, media information, sample table
//! and sample description boxes, down to the codec sample entries.

use vstd::prelude::*;

use crate::bytes::{be16, be24, be32, pbe16, pbe24, pbe32, zeros, get_u8, get_u16, get_u24,
    get_u32, get_bytes, put_u16, put_u32, put_bytes, put_zeros, clone_bytes};
use crate::header::{BoxHeader, BoxType, TKHD, MDHD, HDLR, VMHD, SMHD, DINF, AVC1, OPUS, STSD,
    STBL, MINF, MDIA, TRAK, ser_header, ser_vf, put_vf, parse_header, lemma_header_roundtrip,
    lemma_pbe16_sub, lemma_pbe24_sub, lemma_pbe32_sub};
use crate::opus::{OpusBox, OpusView, ser_opus, payload_opus, parse_opus, lemma_opus_size,
    lemma_opus_roundtrip, clone_opus};
use crate::{Error, FourCC, FixedPointU16, FixedPointU8};

verus! {

/// The track header box (version 0 layout).
#[derive(Clone, Copy, PartialEq, Eq, Structural, Debug)]
pub struct TkhdBox {
    pub version: u8,
    pub flags: u32,
    pub track_id: u32,
    pub duration: u32,
    pub layer: u16,
    pub alternate_group: u16,
    pub volume: FixedPointU8,
    pub width: FixedPointU16,
    pub height: FixedPointU16,
}

impl TkhdBox {
    pub open spec fn wf(self) -> bool {
        self.version == 0 && self.flags < 0x1000000
    }

    /// Declared size of the version-0 layout.
    pub open spec fn size(self) -> int {
        92
    }

    pub fn box_size(&self) -> (r: u64)
        ensures
            r == self.size(),
    {
        92
    }

    /// A track header with every field zero.
    pub fn default() -> (r: TkhdBox)
        ensures
            r.wf(),
            r == (TkhdBox {
                version: 0,
                flags: 0,
                track_id: 0,
                duration: 0,
                layer: 0,
                alternate_group: 0,
                volume: FixedPointU8 { raw: 0 },
                width: FixedPointU16 { raw: 0 },
                height: FixedPointU16 { raw: 0 },
            }),
    {
        TkhdBox {
            version: 0,
            flags: 0,
            track_id: 0,
            duration: 0,
            layer: 0,
            alternate_group: 0,
            volume: FixedPointU8 { raw: 0 },
            width: FixedPointU16 { raw: 0 },
            height: FixedPointU16 { raw: 0 },
        }
    }

    /// Decode a track-header payload of `plen` bytes at `pos`.
    pub fn read_box(data: &Vec<u8>, pos: usize, plen: usize) -> (r: Result<TkhdBox, Error>)
        requires
            pos + plen <= data@.len(),
        ensures
            match r {
                Ok(b) => parse_tkhd(data@.subrange(pos as int, pos + plen)) == Some(b) && b.wf(),
                Err(e) => parse_tkhd(data@.subrange(pos as int, pos + plen)) is None,
            },
    {
        let n = data.len();
        let ghost p = data@.subrange(pos as int, pos + plen);
        if plen < 84 {
            return Err(Error::ShortRead);
        }
        let version = get_u8(data, pos);
        if version != 0 {
            return Err(Error::InvalidData);
        }
        let flags = get_u24(data, pos + 1);
        let track_id = get_u32(data, pos + 12);
        let duration = get_u32(data, pos + 20);
        let layer = get_u16(data, pos + 32);
        let alternate_group = get_u16(data, pos + 34);
        let volume = FixedPointU8::new_raw(get_u16(data, pos + 36));
        let width = FixedPointU16::new_raw(get_u32(data, pos + 76));
        let height = FixedPointU16::new_raw(get_u32(data, pos + 80));
        proof {
            assert(pbe24(p, 1) == pbe24(data@, pos + 1));
            assert(pbe32(p, 12) == pbe32(data@, pos + 12));
            assert(pbe32(p, 20) == pbe32(data@, pos + 20));
            assert(pbe16(p, 32) == pbe16(data@, pos + 32));
            assert(pbe16(p, 34) == pbe16(data@, pos + 34));
            assert(pbe16(p, 36) == pbe16(data@, pos + 36));
            assert(pbe32(p, 76) == pbe32(data@, pos + 76));
            assert(pbe32(p, 80) == pbe32(data@, pos + 80));
        }
        Ok(
            TkhdBox {
                version,
                flags,
                track_id,
                duration,
                layer,
                alternate_group,
                volume,
                width,
                height,
            },
        )
    }

    /// Encode this box. The bytes emitted are exactly the declared size.
    pub fn write_box(&self, out: &mut Vec<u8>) -> (r: Result<u64, Error>)
        requires
            self.wf(),
        ensures
            r is Ok && r.unwrap() == self.size(),
            final(out)@ == old(out)@ + ser_tkhd(*self),
    {
        let size = self.box_size();
        BoxHeader::new(BoxType::TkhdBox, size).write(out);
        put_vf(out, self.version, self.flags);
        put_zeros(out, 8);
        put_u32(out, self.track_id);
        put_zeros(out, 4);
        put_u32(out, self.duration);
        put_zeros(out, 8);
        put_u16(out, self.layer);
        put_u16(out, self.alternate_group);
        put_u16(out, self.volume.raw);
        put_zeros(out, 38);
        put_u32(out, self.width.raw);
        put_u32(out, self.height.raw);
        assert(out@ =~= old(out)@ + ser_tkhd(*self));
        Ok(size)
    }
}

/// Payload image of a track header: fixed fields among reserved zeros.
pub open spec fn payload_tkhd(v: TkhdBox) -> Seq<u8> {
    ser_vf(v.version, v.flags) + zeros(8) + be32(v.track_id) + zeros(4) + be32(v.duration) + zeros(
        8,
    ) + be16(v.layer) + be16(v.alternate_group) + be16(v.volume.raw) + zeros(38) + be32(
        v.width.raw,
    ) + be32(v.height.raw)
}

/// Byte image of a whole track-header box.
pub open spec fn ser_tkhd(v: TkhdBox) -> Seq<u8> {
    ser_header(TKHD, v.size() as u64) + payload_tkhd(v)
}

/// Parse a track-header payload; only version 0 is known.
pub open spec fn parse_tkhd(p: Seq<u8>) -> Option<TkhdBox> {
    if p.len() < 84 {
        None
    } else if p[0] != 0 {
        None
    } else {
        Some(
            TkhdBox {
                version: 0,
                flags: pbe24(p, 1) as u32,
                track_id: pbe32(p, 12) as u32,
                duration: pbe32(p, 20) as u32,
                layer: pbe16(p, 32) as u16,
                alternate_group: pbe16(p, 34) as u16,
                volume: FixedPointU8 { raw: pbe16(p, 36) as u16 },
                width: FixedPointU16 { raw: pbe32(p, 76) as u32 },
                height: FixedPointU16 { raw: pbe32(p, 80) as u32 },
            },
        )
    }
}

/// The declared size of a track header equals the bytes its writer emits.
pub proof fn lemma_tkhd_size(v: TkhdBox)
    ensures
        ser_tkhd(v).len() == v.size(),
        payload_tkhd(v).len() == v.size() - 8,
{
}

/// Decoding an encoded track header gives back the same value.
pub proof fn lemma_tkhd_roundtrip(v: TkhdBox)
    requires
        v.wf(),
    ensures
        parse_tkhd(payload_tkhd(v)) == Some(v),
{
    let p = payload_tkhd(v);
    assert(p.subrange(1, 4) =~= be24(v.flags));
    assert(p.subrange(12, 16) =~= be32(v.track_id));
    assert(p.subrange(20, 24) =~= be32(v.duration));
    assert(p.subrange(32, 34) =~= be16(v.layer));
    assert(p.subrange(34, 36) =~= be16(v.alternate_group));
    assert(p.subrange(36, 38) =~= be16(v.volume.raw));
    assert(p.subrange(76, 80) =~= be32(v.width.raw));
    assert(p.subrange(80, 84) =~= be32(v.height.raw));
    lemma_pbe24_sub(p, 1, v.flags);
    lemma_pbe32_sub(p, 12, v.track_id);
    lemma_pbe32_sub(p, 20, v.duration);
    lemma_pbe16_sub(p, 32, v.layer);
    lemma_pbe16_sub(p, 34, v.alternate_group);
    lemma_pbe16_sub(p, 36, v.volume.raw);
    lemma_pbe32_sub(p, 76, v.width.raw);
    lemma_pbe32_sub(p, 80, v.height.raw);
}

/// The media header box (version 0 layout): timing and language.
#[derive(Clone, Copy, PartialEq, Eq, Structural, Debug)]
pub struct MdhdBox {
    pub version: u8,
    pub flags: u32,
    pub timescale: u32,
    pub duration: u32,
    pub language: u16,
}

impl MdhdBox {
    pub open spec fn wf(self) -> bool {
        self.version == 0 && self.flags < 0x1000000
    }

    pub open spec fn size(self) -> int {
        32
    }

    pub fn box_size(&self) -> (r: u64)
        ensures
            r == self.size(),
    {
        32
    }

    /// A media header with every field zero.
    pub fn default() -> (r: MdhdBox)
        ensures
            r.wf(),
            r == (MdhdBox { version: 0, flags: 0, timescale: 0, duration: 0, language: 0 }),
    {
        MdhdBox { version: 0, flags: 0, timescale: 0, duration: 0, language: 0 }
    }

    /// Decode a media-header payload of `plen` bytes at `pos`.
    pub fn read_box(data: &Vec<u8>, pos: usize, plen: usize) -> (r: Result<MdhdBox, Error>)
        requires
            pos + plen <= data@.len(),
        ensures
            match r {
                Ok(b) => parse_mdhd(data@.subrange(pos as int, pos + plen)) == Some(b) && b.wf(),
                Err(e) => parse_mdhd(data@.subrange(pos as int, pos + plen)) is None,
            },
    {
        let n = data.len();
        let ghost p = data@.subrange(pos as int, pos + plen);
        if plen < 24 {
            return Err(Error::ShortRead);
        }
        let version = get_u8(data, pos);
        if version != 0 {
            return Err(Error::InvalidData);
        }
        let flags = get_u24(data, pos + 1);
        let timescale = get_u32(data, pos + 12);
        let duration = get_u32(data, pos + 16);
        let language = get_u16(data, pos + 20);
        proof {
            assert(pbe24(p, 1) == pbe24(data@, pos + 1));
            assert(pbe32(p, 12) == pbe32(data@, pos + 12));
            assert(pbe32(p, 16) == pbe32(data@, pos + 16));
            assert(pbe16(p, 20) == pbe16(data@, pos + 20));
        }
        Ok(MdhdBox { version, flags, timescale, duration, language })
    }

    /// Encode this box. The bytes emitted are exactly the declared size.
    pub fn write_box(&self, out: &mut Vec<u8>) -> (r: Result<u64, Error>)
        requires
            self.wf(),
        ensures
            r is Ok && r.unwrap() == self.size(),
            final(out)@ == old(out)@ + ser_mdhd(*self),
    {
        let size = self.box_size();
        BoxHeader::new(BoxType::MdhdBox, size).write(out);
        put_vf(out, self.version, self.flags);
        put_zeros(out, 8);
        put_u32(out, self.timescale);
        put_u32(out, self.duration);
        put_u16(out, self.language);
        put_zeros(out, 2);
        assert(out@ =~= old(out)@ + ser_mdhd(*self));
        Ok(size)
    }
}

/// Payload image of a media header.
pub open spec fn payload_mdhd(v: MdhdBox) -> Seq<u8> {
    ser_vf(v.version, v.flags) + zeros(8) + be32(v.timescale) + be32(v.duration) + be16(v.language)
        + zeros(2)
}

/// Byte image of a whole media-header box.
pub open spec fn ser_mdhd(v: MdhdBox) -> Seq<u8> {
    ser_header(MDHD, v.size() as u64) + payload_mdhd(v)
}

/// Parse a media-header payload; only version 0 is known.
pub open spec fn parse_mdhd(p: Seq<u8>) -> Option<MdhdBox> {
    if p.len() < 24 {
        None
    } else if p[0] != 0 {
        None
    } else {
        Some(
            MdhdBox {
                version: 0,
                flags: pbe24(p, 1) as u32,
                timescale: pbe32(p, 12) as u32,
                duration: pbe32(p, 16) as u32,
                language: pbe16(p, 20) as u16,
            },
        )
    }
}

/// The declared size of a media header equals the bytes its writer emits.
pub proof fn lemma_mdhd_size(v: MdhdBox)
    ensures
        ser_mdhd(v).len() == v.size(),
        payload_mdhd(v).len() == v.size() - 8,
{
}

/// Decoding an encoded media header gives back the same value.
pub proof fn lemma_mdhd_roundtrip(v: MdhdBox)
    requires
        v.wf(),
    ensures
        parse_mdhd(payload_mdhd(v)) == Some(v),
{
    let p = payload_mdhd(v);
    assert(p.subrange(1, 4) =~= be24(v.flags));
    assert(p.subrange(12, 16) =~= be32(v.timescale));
    assert(p.subrange(16, 20) =~= be32(v.duration));
    assert(p.subrange(20, 22) =~= be16(v.language));
    lemma_pbe24_sub(p, 1, v.flags);
    lemma_pbe32_sub(p, 12, v.timescale);
    lemma_pbe32_sub(p, 16, v.duration);
    lemma_pbe16_sub(p, 20, v.language);
}

/// The handler-reference box: handler type and a verbatim name.
#[derive(Debug)]
pub struct HdlrBox {
    pub version: u8,
    pub flags: u32,
    pub handler_type: FourCC,
    pub name: Vec<u8>,
}

/// Mathematical image of a handler-reference box.
pub struct HdlrView {
    pub version: u8,
    pub flags: u32,
    pub handler_type: FourCC,
    pub name: Seq<u8>,
}

impl View for HdlrBox {
    type V = HdlrView;

    open spec fn view(&self) -> HdlrView {
        HdlrView {
            version: self.version,
            flags: self.flags,
            handler_type: self.handler_type,
            name: self.name@,
        }
    }
}

impl HdlrView {
    pub open spec fn wf(self) -> bool {
        self.version == 0 && self.flags < 0x1000000 && 32 + self.name.len() <= 0xffffffff
    }

    pub open spec fn size(self) -> int {
        32 + self.name.len() as int
    }
}

/// Payload image of a handler-reference box.
pub open spec fn payload_hdlr(v: HdlrView) -> Seq<u8> {
    ser_vf(v.version, v.flags) + zeros(4) + be32(v.handler_type.value) + zeros(12) + v.name
}

/// Byte image of a whole handler-reference box.
pub open spec fn ser_hdlr(v: HdlrView) -> Seq<u8> {
    ser_header(HDLR, v.size() as u64) + payload_hdlr(v)
}

/// Parse a handler-reference payload; the name is every byte after the fixed
/// fields, verbatim.
pub open spec fn parse_hdlr(p: Seq<u8>) -> Option<HdlrView> {
    if p.len() < 24 {
        None
    } else if p[0] != 0 {
        None
    } else {
        Some(
            HdlrView {
                version: 0,
                flags: pbe24(p, 1) as u32,
                handler_type: FourCC { value: pbe32(p, 8) as u32 },
                name: p.subrange(24, p.len() as int),
            },
        )
    }
}

/// The declared size of a handler box equals the bytes its writer emits.
pub proof fn lemma_hdlr_size(v: HdlrView)
    requires
        v.wf(),
    ensures
        ser_hdlr(v).len() == v.size(),
        payload_hdlr(v).len() == v.size() - 8,
{
}

/// Decoding an encoded handler box gives back the same value.
pub proof fn lemma_hdlr_roundtrip(v: HdlrView)
    requires
        v.wf(),
    ensures
        parse_hdlr(payload_hdlr(v)) == Some(v),
{
    let p = payload_hdlr(v);
    assert(p.subrange(1, 4) =~= be24(v.flags));
    assert(p.subrange(8, 12) =~= be32(v.handler_type.value));
    lemma_pbe24_sub(p, 1, v.flags);
    lemma_pbe32_sub(p, 8, v.handler_type.value);
    assert(p.subrange(24, p.len() as int) =~= v.name);
}

impl HdlrBox {
    /// A handler box with the given type and an empty name.
    pub fn new(handler_type: FourCC) -> (r: HdlrBox)
        ensures
            r@.wf(),
            r@.handler_type == handler_type,
            r@.name.len() == 0,
            r@.version == 0 && r@.flags == 0,
    {
        HdlrBox { version: 0, flags: 0, handler_type, name: Vec::new() }
    }

    pub fn box_size(&self) -> (r: u64)
        requires
            self@.wf(),
        ensures
            r == self@.size(),
    {
        32 + self.name.len() as u64
    }

    /// Decode a handler payload of `plen` bytes at `pos`.
    pub fn read_box(data: &Vec<u8>, pos: usize, plen: usize) -> (r: Result<HdlrBox, Error>)
        requires
            pos + plen <= data@.len(),
        ensures
            match r {
                Ok(b) => parse_hdlr(data@.subrange(pos as int, pos + plen)) == Some(b@),
                Err(e) => parse_hdlr(data@.subrange(pos as int, pos + plen)) is None,
            },
    {
        let n = data.len();
        let ghost p = data@.subrange(pos as int, pos + plen);
        if plen < 24 {
            return Err(Error::ShortRead);
        }
        let version = get_u8(data, pos);
        if version != 0 {
            return Err(Error::InvalidData);
        }
        let flags = get_u24(data, pos + 1);
        let handler_type = FourCC::new(get_u32(data, pos + 8));
        let name = get_bytes(data, pos + 24, plen - 24);
        proof {
            assert(pbe24(p, 1) == pbe24(data@, pos + 1));
            assert(pbe32(p, 8) == pbe32(data@, pos + 8));
            assert(data@.subrange(pos + 24, pos + plen) =~= p.subrange(24, p.len() as int));
        }
        Ok(HdlrBox { version, flags, handler_type, name })
    }

    /// Encode this box. The bytes emitted are exactly the declared size.
    pub fn write_box(&self, out: &mut Vec<u8>) -> (r: Result<u64, Error>)
        requires
            self@.wf(),
        ensures
            r is Ok && r.unwrap() == self@.size(),
            final(out)@ == old(out)@ + ser_hdlr(self@),
    {
        let size = self.box_size();
        BoxHeader::new(BoxType::HdlrBox, size).write(out);
        put_vf(out, self.version, self.flags);
        put_zeros(out, 4);
        put_u32(out, self.handler_type.value);
        put_zeros(out, 12);
        put_bytes(out, &self.name);
        assert(out@ =~= old(out)@ + ser_hdlr(self@));
        Ok(size)
    }
}

/// Field-by-field copy.
pub fn clone_hdlr(b: &HdlrBox) -> (r: HdlrBox)
    ensures
        r@ == b@,
{
    HdlrBox {
        version: b.version,
        flags: b.flags,
        handler_type: b.handler_type,
        name: clone_bytes(&b.name),
    }
}

/// The video media header box.
#[derive(Clone, Copy, PartialEq, Eq, Structural, Debug)]
pub struct VmhdBox {
    pub version: u8,
    pub flags: u32,
    pub graphics_mode: u16,
    pub op_color_red: u16,
    pub op_color_green: u16,
    pub op_color_blue: u16,
}

impl VmhdBox {
    pub open spec fn wf(self) -> bool {
        self.version == 0 && self.flags < 0x1000000
    }

    pub open spec fn size(self) -> int {
        20
    }

    pub fn box_size(&self) -> (r: u64)
        ensures
            r == self.size(),
    {
        20
    }

    /// A video media header with every field zero.
    pub fn default() -> (r: VmhdBox)
        ensures
            r.wf(),
            r == (VmhdBox {
                version: 0,
                flags: 0,
                graphics_mode: 0,
                op_color_red: 0,
                op_color_green: 0,
                op_color_blue: 0,
            }),
    {
        VmhdBox {
            version: 0,
            flags: 0,
            graphics_mode: 0,
            op_color_red: 0,
            op_color_green: 0,
            op_color_blue: 0,
        }
    }

    /// Decode a video-media-header payload of `plen` bytes at `pos`.
    pub fn read_box(data: &Vec<u8>, pos: usize, plen: usize) -> (r: Result<VmhdBox, Error>)
        requires
            pos + plen <= data@.len(),
        ensures
            match r {
                Ok(b) => parse_vmhd(data@.subrange(pos as int, pos + plen)) == Some(b) && b.wf(),
                Err(e) => parse_vmhd(data@.subrange(pos as int, pos + plen)) is None,
            },
    {
        let n = data.len();
        let ghost p = data@.subrange(pos as int, pos + plen);
        if plen < 12 {
            return Err(Error::ShortRead);
        }
        let version = get_u8(data, pos);
        if version != 0 {
            return Err(Error::InvalidData);
        }
        let flags = get_u24(data, pos + 1);
        let graphics_mode = get_u16(data, pos + 4);
        let op_color_red = get_u16(data, pos + 6);
        let op_color_green = get_u16(data, pos + 8);
        let op_color_blue = get_u16(data, pos + 10);
        proof {
            assert(pbe24(p, 1) == pbe24(data@, pos + 1));
            assert(pbe16(p, 4) == pbe16(data@, pos + 4));
            assert(pbe16(p, 6) == pbe16(data@, pos + 6));
            assert(pbe16(p, 8) == pbe16(data@, pos + 8));
            assert(pbe16(p, 10) == pbe16(data@, pos + 10));
        }
        Ok(VmhdBox { version, flags, graphics_mode, op_color_red, op_color_green, op_color_blue })
    }

    /// Encode this box. The bytes emitted are exactly the declared size.
    pub fn write_box(&self, out: &mut Vec<u8>) -> (r: Result<u64, Error>)
        requires
            self.wf(),
        ensures
            r is Ok && r.unwrap() == self.size(),
            final(out)@ == old(out)@ + ser_vmhd(*self),
    {
        let size = self.box_size();
        BoxHeader::new(BoxType::VmhdBox, size).write(out);
        put_vf(out, self.version, self.flags);
        put_u16(out, self.graphics_mode);
        put_u16(out, self.op_color_red);
        put_u16(out, self.op_color_green);
        put_u16(out, self.op_color_blue);
        assert(out@ =~= old(out)@ + ser_vmhd(*self));
        Ok(size)
    }
}

/// Payload image of a video media header.
pub open spec fn payload_vmhd(v: VmhdBox) -> Seq<u8> {
    ser_vf(v.version, v.flags) + be16(v.graphics_mode) + be16(v.op_color_red) + be16(
        v.op_color_green,
    ) + be16(v.op_color_blue)
}

/// Byte image of a whole video-media-header box.
pub open spec fn ser_vmhd(v: VmhdBox) -> Seq<u8> {
    ser_header(VMHD, v.size() as u64) + payload_vmhd(v)
}

/// Parse a video-media-header payload; only version 0 is known.
pub open spec fn parse_vmhd(p: Seq<u8>) -> Option<VmhdBox> {
    if p.len() < 12 {
        None
    } else if p[0] != 0 {
        None
    } else {
        Some(
            VmhdBox {
                version: 0,
                flags: pbe24(p, 1) as u32,
                graphics_mode: pbe16(p, 4) as u16,
                op_color_red: pbe16(p, 6) as u16,
                op_color_green: pbe16(p, 8) as u16,
                op_color_blue: pbe16(p, 10) as u16,
            },
        )
    }
}

/// The declared size of a video media header equals the bytes its writer
/// emits.
pub proof fn lemma_vmhd_size(v: VmhdBox)
    ensures
        ser_vmhd(v).len() == v.size(),
        payload_vmhd(v).len() == v.size() - 8,
{
}

/// Decoding an encoded video media header gives back the same value.
pub proof fn lemma_vmhd_roundtrip(v: VmhdBox)
    requires
        v.wf(),
    ensures
        parse_vmhd(payload_vmhd(v)) == Some(v),
{
    let p = payload_vmhd(v);
    assert(p.subrange(1, 4) =~= be24(v.flags));
    assert(p.subrange(4, 6) =~= be16(v.graphics_mode));
    assert(p.subrange(6, 8) =~= be16(v.op_color_red));
    assert(p.subrange(8, 10) =~= be16(v.op_color_green));
    assert(p.subrange(10, 12) =~= be16(v.op_color_blue));
    lemma_pbe24_sub(p, 1, v.flags);
    lemma_pbe16_sub(p, 4, v.graphics_mode);
    lemma_pbe16_sub(p, 6, v.op_color_red);
    lemma_pbe16_sub(p, 8, v.op_color_green);
    lemma_pbe16_sub(p, 10, v.op_color_blue);
}

/// The sound media header box.
#[derive(Clone, Copy, PartialEq, Eq, Structural, Debug)]
pub struct SmhdBox {
    pub version: u8,
    pub flags: u32,
    pub balance: FixedPointU8,
}

impl SmhdBox {
    pub open spec fn wf(self) -> bool {
        self.version == 0 && self.flags < 0x1000000
    }

    pub open spec fn size(self) -> int {
        16
    }

    pub fn box_size(&self) -> (r: u64)
        ensures
            r == self.size(),
    {
        16
    }

    /// A sound media header with every field zero.
    pub fn default() -> (r: SmhdBox)
        ensures
            r.wf(),
            r == (SmhdBox { version: 0, flags: 0, balance: FixedPointU8 { raw: 0 } }),
    {
        SmhdBox { version: 0, flags: 0, balance: FixedPointU8 { raw: 0 } }
    }

    /// Decode a sound-media-header payload of `plen` bytes at `pos`.
    pub fn read_box(data: &Vec<u8>, pos: usize, plen: usize) -> (r: Result<SmhdBox, Error>)
        requires
            pos + plen <= data@.len(),
        ensures
            match r {
                Ok(b) => parse_smhd(data@.subrange(pos as int, pos + plen)) == Some(b) && b.wf(),
                Err(e) => parse_smhd(data@.subrange(pos as int, pos + plen)) is None,
            },
    {
        let n = data.len();
        let ghost p = data@.subrange(pos as int, pos + plen);
        if plen < 8 {
            return Err(Error::ShortRead);
        }
        let version = get_u8(data, pos);
        if version != 0 {
            return Err(Error::InvalidData);
        }
        let flags = get_u24(data, pos + 1);
        let balance = FixedPointU8::new_raw(get_u16(data, pos + 4));
        proof {
            assert(pbe24(p, 1) == pbe24(data@, pos + 1));
            assert(pbe16(p, 4) == pbe16(data@, pos + 4));
        }
        Ok(SmhdBox { version, flags, balance })
    }

    /// Encode this box. The bytes emitted are exactly the declared size.
    pub fn write_box(&self, out: &mut Vec<u8>) -> (r: Result<u64, Error>)
        requires
            self.wf(),
        ensures
            r is Ok && r.unwrap() == self.size(),
            final(out)@ == old(out)@ + ser_smhd(*self),
    {
        let size = self.box_size();
        BoxHeader::new(BoxType::SmhdBox, size).write(out);
        put_vf(out, self.version, self.flags);
        put_u16(out, self.balance.raw);
        put_zeros(out, 2);
        assert(out@ =~= old(out)@ + ser_smhd(*self));
        Ok(size)
    }
}

/// Payload image of a sound media header.
pub open spec fn payload_smhd(v: SmhdBox) -> Seq<u8> {
    ser_vf(v.version, v.flags) + be16(v.balance.raw) + zeros(2)
}

/// Byte image of a whole sound-media-header box.
pub open spec fn ser_smhd(v: SmhdBox) -> Seq<u8> {
    ser_header(SMHD, v.size() as u64) + payload_smhd(v)
}

/// Parse a sound-media-header payload; only version 0 is known.
pub open spec fn parse_smhd(p: Seq<u8>) -> Option<SmhdBox> {
    if p.len() < 8 {
        None
    } else if p[0] != 0 {
        None
    } else {
        Some(
            SmhdBox {
                version: 0,
                flags: pbe24(p, 1) as u32,
                balance: FixedPointU8 { raw: pbe16(p, 4) as u16 },
            },
        )
    }
}

/// The declared size of a sound media header equals the bytes its writer
/// emits.
pub proof fn lemma_smhd_size(v: SmhdBox)
    ensures
        ser_smhd(v).len() == v.size(),
        payload_smhd(v).len() == v.size() - 8,
{
}

/// Decoding an encoded sound media header gives back the same value.
pub proof fn lemma_smhd_roundtrip(v: SmhdBox)
    requires
        v.wf(),
    ensures
        parse_smhd(payload_smhd(v)) == Some(v),
{
    let p = payload_smhd(v);
    assert(p.subrange(1, 4) =~= be24(v.flags));
    assert(p.subrange(4, 6) =~= be16(v.balance.raw));
    lemma_pbe24_sub(p, 1, v.flags);
    lemma_pbe16_sub(p, 4, v.balance.raw);
}

/// The data-information box. Its children carry data-reference entries the
/// library does not interpret; it reads as an empty container and writes as
/// one.
#[derive(Clone, Copy, PartialEq, Eq, Structural, Debug)]
pub struct DinfBox {
}

impl DinfBox {
    pub open spec fn size(self) -> int {
        8
    }

    pub fn box_size(&self) -> (r: u64)
        ensures
            r == self.size(),
    {
        8
    }

    pub fn default() -> (r: DinfBox) {
        DinfBox {  }
    }

    /// Decode a data-information payload: children are not interpreted.
    pub fn read_box(data: &Vec<u8>, pos: usize, plen: usize) -> (r: Result<DinfBox, Error>)
        requires
            pos + plen <= data@.len(),
        ensures
            r is Ok && parse_dinf(data@.subrange(pos as int, pos + plen)) == Some(r.unwrap()),
    {
        Ok(DinfBox {  })
    }

    /// Encode this box. The bytes emitted are exactly the declared size.
    pub fn write_box(&self, out: &mut Vec<u8>) -> (r: Result<u64, Error>)
        ensures
            r is Ok && r.unwrap() == self.size(),
            final(out)@ == old(out)@ + ser_dinf(*self),
    {
        let size = self.box_size();
        BoxHeader::new(BoxType::DinfBox, size).write(out);
        assert(out@ =~= old(out)@ + ser_dinf(*self));
        Ok(size)
    }
}

/// Byte image of a whole data-information box.
pub open spec fn ser_dinf(v: DinfBox) -> Seq<u8> {
    ser_header(DINF, v.size() as u64)
}

/// Parse a data-information payload: any contents are tolerated.
pub open spec fn parse_dinf(p: Seq<u8>) -> Option<DinfBox> {
    Some(DinfBox {  })
}

/// The declared size of a data-information box equals the bytes emitted.
pub proof fn lemma_dinf_size(v: DinfBox)
    ensures
        ser_dinf(v).len() == v.size(),
{
}

/// The AVC sample-entry box: the visual fields the library models.
#[derive(Clone, Copy, PartialEq, Eq, Structural, Debug)]
pub struct Avc1Box {
    pub data_reference_index: u16,
    pub width: u16,
    pub height: u16,
}

impl Avc1Box {
    pub open spec fn size(self) -> int {
        36
    }

    pub fn box_size(&self) -> (r: u64)
        ensures
            r == self.size(),
    {
        36
    }

    /// A sample entry with every field zero.
    pub fn default() -> (r: Avc1Box)
        ensures
            r == (Avc1Box { data_reference_index: 0, width: 0, height: 0 }),
    {
        Avc1Box { data_reference_index: 0, width: 0, height: 0 }
    }

    /// Decode an AVC sample-entry payload of `plen` bytes at `pos`; trailing
    /// configuration children are stepped over.
    pub fn read_box(data: &Vec<u8>, pos: usize, plen: usize) -> (r: Result<Avc1Box, Error>)
        requires
            pos + plen <= data@.len(),
        ensures
            match r {
                Ok(b) => parse_avc1(data@.subrange(pos as int, pos + plen)) == Some(b),
                Err(e) => parse_avc1(data@.subrange(pos as int, pos + plen)) is None,
            },
    {
        let n = data.len();
        let ghost p = data@.subrange(pos as int, pos + plen);
        if plen < 28 {
            return Err(Error::ShortRead);
        }
        let data_reference_index = get_u16(data, pos + 6);
        let width = get_u16(data, pos + 24);
        let height = get_u16(data, pos + 26);
        proof {
            assert(pbe16(p, 6) == pbe16(data@, pos + 6));
            assert(pbe16(p, 24) == pbe16(data@, pos + 24));
            assert(pbe16(p, 26) == pbe16(data@, pos + 26));
        }
        Ok(Avc1Box { data_reference_index, width, height })
    }

    /// Encode this box. The bytes emitted are exactly the declared size.
    pub fn write_box(&self, out: &mut Vec<u8>) -> (r: Result<u64, Error>)
        ensures
            r is Ok && r.unwrap() == self.size(),
            final(out)@ == old(out)@ + ser_avc1(*self),
    {
        let size = self.box_size();
        BoxHeader::new(BoxType::Avc1Box, size).write(out);
        put_zeros(out, 6);
        put_u16(out, self.data_reference_index);
        put_zeros(out, 16);
        put_u16(out, self.width);
        put_u16(out, self.height);
        assert(out@ =~= old(out)@ + ser_avc1(*self));
        Ok(size)
    }
}

/// Payload image of an AVC sample entry.
pub open spec fn payload_avc1(v: Avc1Box) -> Seq<u8> {
    zeros(6) + be16(v.data_reference_index) + zeros(16) + be16(v.width) + be16(v.height)
}

/// Byte image of a whole AVC sample entry.
pub open spec fn ser_avc1(v: Avc1Box) -> Seq<u8> {
    ser_header(AVC1, v.size() as u64) + payload_avc1(v)
}

/// Parse an AVC sample-entry payload.
pub open spec fn parse_avc1(p: Seq<u8>) -> Option<Avc1Box> {
    if p.len() < 28 {
        None
    } else {
        Some(
            Avc1Box {
                data_reference_index: pbe16(p, 6) as u16,
                width: pbe16(p, 24) as u16,
                height: pbe16(p, 26) as u16,
            },
        )
    }
}

/// The declared size of an AVC sample entry equals the bytes emitted.
pub proof fn lemma_avc1_size(v: Avc1Box)
    ensures
        ser_avc1(v).len() == v.size(),
        payload_avc1(v).len() == v.size() - 8,
{
}

/// Decoding an encoded AVC sample entry gives back the same value.
pub proof fn lemma_avc1_roundtrip(v: Avc1Box)
    ensures
        parse_avc1(payload_avc1(v)) == Some(v),
{
    let p = payload_avc1(v);
    assert(p.subrange(6, 8) =~= be16(v.data_reference_index));
    assert(p.subrange(24, 26) =~= be16(v.width));
    assert(p.subrange(26, 28) =~= be16(v.height));
    lemma_pbe16_sub(p, 6, v.data_reference_index);
    lemma_pbe16_sub(p, 24, v.width);
    lemma_pbe16_sub(p, 26, v.height);
}


/// The sample description box: a count and the codec sample entries the
/// library models.
#[derive(Debug)]
pub struct StsdBox {
    pub version: u8,
    pub flags: u32,
    pub entry_count: u32,
    pub avc1: Option<Avc1Box>,
    pub opus: Option<OpusBox>,
}

/// Mathematical image of a sample description box.
pub struct StsdView {
    pub version: u8,
    pub flags: u32,
    pub entry_count: u32,
    pub avc1: Option<Avc1Box>,
    pub opus: Option<OpusView>,
}

impl View for StsdBox {
    type V = StsdView;

    open spec fn view(&self) -> StsdView {
        StsdView {
            version: self.version,
            flags: self.flags,
            entry_count: self.entry_count,
            avc1: self.avc1,
            opus: match self.opus {
                Some(ref o) => Some(o@),
                None => None,
            },
        }
    }
}

impl StsdView {
    pub open spec fn wf(self) -> bool {
        &&& self.version == 0
        &&& self.flags < 0x1000000
        &&& match self.opus {
            Some(o) => o.wf(),
            None => true,
        }
    }

    /// Declared size: header, full-box extension, entry count, then the
    /// present sample entries.
    pub open spec fn size(self) -> int {
        16 + (match self.avc1 {
            Some(a) => a.size(),
            None => 0,
        }) + (match self.opus {
            Some(o) => o.size(),
            None => 0,
        })
    }
}

/// Payload image of a sample description box, entries in canonical order.
#[verifier::opaque]
pub open spec fn payload_stsd(v: StsdView) -> Seq<u8> {
    ser_vf(v.version, v.flags) + be32(v.entry_count) + (match v.avc1 {
        Some(a) => ser_avc1(a),
        None => Seq::empty(),
    }) + (match v.opus {
        Some(o) => ser_opus(o),
        None => Seq::empty(),
    })
}

/// Byte image of a whole sample description box.
#[verifier::opaque]
pub open spec fn ser_stsd(v: StsdView) -> Seq<u8> {
    ser_header(STSD, v.size() as u64) + payload_stsd(v)
}

/// Walk the children of a sample description box: recognized sample entries
/// fill their slots, unrecognized ones are skipped, a zero declared size
/// ends the walk, an oversized child is malformed.
pub open spec fn parse_stsd_children(
    b: Seq<u8>,
    avc1: Option<Avc1Box>,
    opus: Option<OpusView>,
) -> Option<(Option<Avc1Box>, Option<OpusView>)>
    decreases b.len(),
{
    if b.len() < 8 {
        Some((avc1, opus))
    } else {
        match parse_header(b) {
            None => None,
            Some((name, size, hl)) => {
                if size == 0 {
                    Some((avc1, opus))
                } else if size > b.len() {
                    None
                } else if name == BoxType::Avc1Box {
                    match parse_avc1(b.subrange(hl, size as int)) {
                        None => None,
                        Some(x) => parse_stsd_children(
                            b.subrange(size as int, b.len() as int),
                            Some(x),
                            opus,
                        ),
                    }
                } else if name == BoxType::OpusBox {
                    match parse_opus(b.subrange(hl, size as int)) {
                        None => None,
                        Some(x) => parse_stsd_children(
                            b.subrange(size as int, b.len() as int),
                            avc1,
                            Some(x),
                        ),
                    }
                } else {
                    parse_stsd_children(b.subrange(size as int, b.len() as int), avc1, opus)
                }
            },
        }
    }
}

/// Parse a sample description payload.
#[verifier::opaque]
pub open spec fn parse_stsd(p: Seq<u8>) -> Option<StsdView> {
    if p.len() < 8 {
        None
    } else if p[0] != 0 {
        None
    } else {
        match parse_stsd_children(p.subrange(8, p.len() as int), None, None) {
            None => None,
            Some((avc1, opus)) => Some(
                StsdView {
                    version: 0,
                    flags: pbe24(p, 1) as u32,
                    entry_count: pbe32(p, 4) as u32,
                    avc1,
                    opus,
                },
            ),
        }
    }
}

/// The parse of a sample-description payload, written out.
pub proof fn lemma_parse_stsd(p: Seq<u8>)
    ensures
        parse_stsd(p) == (if p.len() < 8 {
            None
        } else if p[0] != 0 {
            None
        } else {
            match parse_stsd_children(p.subrange(8, p.len() as int), None, None) {
                None => None,
                Some((avc1, opus)) => Some(
                    StsdView {
                        version: 0,
                        flags: pbe24(p, 1) as u32,
                        entry_count: pbe32(p, 4) as u32,
                        avc1,
                        opus,
                    },
                ),
            }
        }),
{
    reveal(parse_stsd);
}

/// The declared size of a sample description box equals the bytes emitted.
pub proof fn lemma_stsd_size(v: StsdView)
    requires
        v.wf(),
    ensures
        ser_stsd(v).len() == v.size(),
        payload_stsd(v).len() == v.size() - 8,
{
    reveal(ser_stsd);
    reveal(payload_stsd);
    match v.avc1 {
        Some(a) => lemma_avc1_size(a),
        None => {},
    }
    match v.opus {
        Some(o) => lemma_opus_size(o),
        None => {},
    }
}

/// A sample-description image is its header followed by its payload.
pub proof fn lemma_ser_stsd_shape(v: StsdView)
    ensures
        ser_stsd(v) == ser_header(STSD, v.size() as u64) + payload_stsd(v),
{
    reveal(ser_stsd);
}

/// Decoding an encoded sample description box gives back the same value,
/// sample entries included.
#[verifier::rlimit(50)]
pub proof fn lemma_stsd_roundtrip(v: StsdView)
    requires
        v.wf(),
    ensures
        parse_stsd(payload_stsd(v)) == Some(v),
{
    reveal_with_fuel(parse_stsd_children, 2);
    reveal(payload_stsd);
    let p = payload_stsd(v);
    lemma_parse_stsd(p);
    lemma_stsd_size(v);
    assert(p.subrange(1, 4) =~= be24(v.flags));
    assert(p.subrange(4, 8) =~= be32(v.entry_count));
    lemma_pbe24_sub(p, 1, v.flags);
    lemma_pbe32_sub(p, 4, v.entry_count);
    let cs = p.subrange(8, p.len() as int);
    let tail = match v.opus {
        Some(o) => ser_opus(o),
        None => Seq::<u8>::empty(),
    };
    match v.avc1 {
        Some(a) => {
            assert(cs =~= ser_avc1(a) + tail);
            assert(ser_avc1(a) + tail =~= ser_header(AVC1, 36u64) + (payload_avc1(a) + tail));
            lemma_header_roundtrip(BoxType::Avc1Box, 36u64, payload_avc1(a) + tail);
            assert(cs.subrange(8, 36) =~= payload_avc1(a));
            lemma_avc1_roundtrip(a);
            assert(cs.subrange(36, cs.len() as int) =~= tail);
            assert(parse_stsd_children(cs, None, None) == parse_stsd_children(
                tail,
                Some(a),
                None,
            ));
            lemma_stsd_children_opus(tail, Some(a), v.opus);
        },
        None => {
            assert(cs =~= tail);
            lemma_stsd_children_opus(cs, None, v.opus);
        },
    }
    match parse_stsd(p) {
        Some(got) => {
            assert(got == v);
        },
        None => {},
    }
}

/// Walking exactly the image of the optional sample entry fills its slot.
proof fn lemma_stsd_children_opus(b: Seq<u8>, avc1: Option<Avc1Box>, opus: Option<OpusView>)
    requires
        match opus {
            Some(o) => o.wf() && b == ser_opus(o),
            None => b.len() == 0,
        },
    ensures
        parse_stsd_children(b, avc1, None) == Some((avc1, opus)),
{
    reveal_with_fuel(parse_stsd_children, 2);
    match opus {
        Some(o) => {
            lemma_opus_size(o);
            crate::opus::lemma_ser_opus_shape(o);
            assert(b =~= ser_header(OPUS, o.size() as u64) + payload_opus(o));
            lemma_header_roundtrip(BoxType::OpusBox, o.size() as u64, payload_opus(o));
            assert(b.subrange(8, o.size() as int) =~= payload_opus(o));
            lemma_opus_roundtrip(o);
            assert(b.subrange(o.size() as int, b.len() as int) =~= Seq::<u8>::empty());
        },
        None => {},
    }
}

impl StsdBox {
    pub fn box_size(&self) -> (r: u64)
        requires
            self@.wf(),
        ensures
            r == self@.size(),
    {
        let mut size: u64 = 16;
        match self.avc1 {
            Some(ref a) => {
                size = size + a.box_size();
            },
            None => {},
        }
        match self.opus {
            Some(ref o) => {
                size = size + o.box_size();
            },
            None => {},
        }
        size
    }

    /// A sample description with no entries.
    pub fn default() -> (r: StsdBox)
        ensures
            r@.wf(),
            r@.version == 0 && r@.flags == 0 && r@.entry_count == 0,
            r@.avc1 is None && r@.opus is None,
    {
        StsdBox { version: 0, flags: 0, entry_count: 0, avc1: None, opus: None }
    }

    /// Decode a sample-description payload of `plen` bytes at `pos`.
    pub fn read_box(data: &Vec<u8>, pos: usize, plen: usize) -> (r: Result<StsdBox, Error>)
        requires
            pos + plen <= data@.len(),
        ensures
            match r {
                Ok(b) => parse_stsd(data@.subrange(pos as int, pos + plen)) == Some(b@) && b@.wf(),
                Err(e) => parse_stsd(data@.subrange(pos as int, pos + plen)) is None,
            },
    {
        let n = data.len();
        let ghost p = data@.subrange(pos as int, pos + plen);
        proof {
            lemma_parse_stsd(p);
        }
        if plen < 8 {
            return Err(Error::ShortRead);
        }
        let version = get_u8(data, pos);
        if version != 0 {
            return Err(Error::InvalidData);
        }
        let flags = get_u24(data, pos + 1);
        let entry_count = get_u32(data, pos + 4);
        proof {
            assert(pbe24(p, 1) == pbe24(data@, pos + 1));
            assert(pbe32(p, 4) == pbe32(data@, pos + 4));
        }
        let end = pos + plen;
        let mut cur = pos + 8;
        let mut avc1: Option<Avc1Box> = None;
        let mut opus: Option<OpusBox> = None;
        let ghost children0 = p.subrange(8, plen as int);
        proof {
            assert(children0 =~= data@.subrange(cur as int, end as int));
        }
        loop
            invariant
                plen >= 8,
                pos + 8 <= cur <= end,
                end == pos + plen,
                pos + plen <= data@.len(),
                data@.len() <= usize::MAX,
                p == data@.subrange(pos as int, pos + plen),
                children0 == p.subrange(8, plen as int),
                match opus {
                    Some(o) => o@.wf(),
                    None => true,
                },
                parse_stsd_children(children0, None, None) == parse_stsd_children(
                    data@.subrange(cur as int, end as int),
                    avc1,
                    match opus {
                        Some(o) => Some(o@),
                        None => None,
                    },
                ),
            ensures
                parse_stsd_children(children0, None, None) == Some(
                    (
                        avc1,
                        match opus {
                            Some(o) => Some(o@),
                            None => None,
                        },
                    ),
                ),
                match opus {
                    Some(o) => o@.wf(),
                    None => true,
                },
            decreases end - cur,
        {
            let ghost region = data@.subrange(cur as int, end as int);
            proof {
                lemma_parse_stsd(p);
            }
            if end - cur < 8 {
                break ;
            }
            let (header, hl) = match BoxHeader::read(data, cur, end) {
                Ok(v) => v,
                Err(e) => {
                    proof {
                        assert(parse_stsd_children(region, avc1, opt_opus_view(opus)) is None);
                        assert(parse_stsd(p) is None);
                    }
                    return Err(e);
                },
            };
            let size = header.size;
            if size == 0 {
                break ;
            }
            if size > (end - cur) as u64 {
                proof {
                    assert(parse_stsd_children(region, avc1, opt_opus_view(opus)) is None);
                    assert(parse_stsd(p) is None);
                }
                return Err(Error::InvalidData);
            }
            let szu = size as usize;
            proof {
                assert(region.subrange(hl as int, szu as int) =~= data@.subrange(
                    cur + hl,
                    cur + szu,
                ));
                assert(region.subrange(szu as int, region.len() as int) =~= data@.subrange(
                    cur + szu,
                    end as int,
                ));
            }
            match header.name {
                BoxType::Avc1Box => {
                    let x = match Avc1Box::read_box(data, cur + hl, szu - hl) {
                        Ok(x) => x,
                        Err(e) => {
                            proof {
                                assert(parse_stsd_children(region, avc1, opt_opus_view(opus))
                                    is None);
                                assert(parse_stsd(p) is None);
                            }
                            return Err(e);
                        },
                    };
                    avc1 = Some(x);
                },
                BoxType::OpusBox => {
                    let x = match OpusBox::read_box(data, cur + hl, szu - hl) {
                        Ok(x) => x,
                        Err(e) => {
                            proof {
                                assert(parse_stsd_children(region, avc1, opt_opus_view(opus))
                                    is None);
                                assert(parse_stsd(p) is None);
                            }
                            return Err(e);
                        },
                    };
                    opus = Some(x);
                },
                _ => {},
            }
            cur = cur + szu;
        }
        let r = StsdBox { version, flags, entry_count, avc1, opus };
        proof {
            assert(parse_stsd(p) == Some(r@));
        }
        Ok(r)
    }

    /// Encode this box, sample entries included. The bytes emitted are
    /// exactly the declared size.
    pub fn write_box(&self, out: &mut Vec<u8>) -> (r: Result<u64, Error>)
        requires
            self@.wf(),
        ensures
            r is Ok && r.unwrap() == self@.size(),
            final(out)@ == old(out)@ + ser_stsd(self@),
    {
        let size = self.box_size();
        BoxHeader::new(BoxType::StsdBox, size).write(out);
        put_vf(out, self.version, self.flags);
        put_u32(out, self.entry_count);
        match self.avc1 {
            Some(ref a) => {
                a.write_box(out);
            },
            None => {},
        }
        match self.opus {
            Some(ref o) => {
                o.write_box(out);
            },
            None => {},
        }
        proof {
            reveal(ser_stsd);
            reveal(payload_stsd);
            assert(out@ =~= old(out)@ + ser_stsd(self@));
        }
        Ok(size)
    }
}

/// The image of an optional sample entry.
pub open spec fn opt_opus_view(o: Option<OpusBox>) -> Option<OpusView> {
    match o {
        Some(b) => Some(b@),
        None => None,
    }
}

/// Field-by-field copy.
pub fn clone_stsd(b: &StsdBox) -> (r: StsdBox)
    ensures
        r@ == b@,
{
    StsdBox {
        version: b.version,
        flags: b.flags,
        entry_count: b.entry_count,
        avc1: b.avc1,
        opus: match b.opus {
            Some(ref o) => Some(clone_opus(o)),
            None => None,
        },
    }
}
/// The sample table box. The library models its sample description child;
/// the timing and chunk tables are skipped.
#[derive(Debug)]
pub struct StblBox {
    pub stsd: StsdBox,
}

/// Mathematical image of a sample table box.
pub struct StblView {
    pub stsd: StsdView,
}

impl View for StblBox {
    type V = StblView;

    open spec fn view(&self) -> StblView {
        StblView { stsd: self.stsd@ }
    }
}

impl StblView {
    pub open spec fn wf(self) -> bool {
        self.stsd.wf()
    }

    pub open spec fn size(self) -> int {
        8 + self.stsd.size()
    }
}

/// Payload image of a sample table box.
#[verifier::opaque]
pub open spec fn payload_stbl(v: StblView) -> Seq<u8> {
    ser_stsd(v.stsd)
}

/// Byte image of a whole sample table box.
#[verifier::opaque]
pub open spec fn ser_stbl(v: StblView) -> Seq<u8> {
    ser_header(STBL, v.size() as u64) + payload_stbl(v)
}

/// Walk the children of a sample table box.
pub open spec fn parse_stbl_children(b: Seq<u8>, stsd: Option<StsdView>) -> Option<
    Option<StsdView>,
>
    decreases b.len(),
{
    if b.len() < 8 {
        Some(stsd)
    } else {
        match parse_header(b) {
            None => None,
            Some((name, size, hl)) => {
                if size == 0 {
                    Some(stsd)
                } else if size > b.len() {
                    None
                } else if name == BoxType::StsdBox {
                    match parse_stsd(b.subrange(hl, size as int)) {
                        None => None,
                        Some(x) => parse_stbl_children(
                            b.subrange(size as int, b.len() as int),
                            Some(x),
                        ),
                    }
                } else {
                    parse_stbl_children(b.subrange(size as int, b.len() as int), stsd)
                }
            },
        }
    }
}

/// Parse a sample table payload. A missing sample description child is
/// malformed: the child is required.
#[verifier::opaque]
pub open spec fn parse_stbl(p: Seq<u8>) -> Option<StblView> {
    match parse_stbl_children(p, None) {
        None => None,
        Some(None) => None,
        Some(Some(stsd)) => Some(StblView { stsd }),
    }
}

/// The parse of a sample-table payload, written out.
pub proof fn lemma_parse_stbl(p: Seq<u8>)
    ensures
        parse_stbl(p) == (match parse_stbl_children(p, None) {
            None => None,
            Some(None) => None,
            Some(Some(stsd)) => Some(StblView { stsd }),
        }),
{
    reveal(parse_stbl);
}

/// The declared size of a sample table box equals the bytes emitted.
pub proof fn lemma_stbl_size(v: StblView)
    requires
        v.wf(),
    ensures
        ser_stbl(v).len() == v.size(),
        payload_stbl(v).len() == v.size() - 8,
{
    reveal(ser_stbl);
    reveal(payload_stbl);
    lemma_stsd_size(v.stsd);
}

/// A sample-table image is its header followed by its payload.
pub proof fn lemma_ser_stbl_shape(v: StblView)
    ensures
        ser_stbl(v) == ser_header(STBL, v.size() as u64) + payload_stbl(v),
{
    reveal(ser_stbl);
}

/// Decoding an encoded sample table box gives back the same value.
pub proof fn lemma_stbl_roundtrip(v: StblView)
    requires
        v.wf(),
    ensures
        parse_stbl(payload_stbl(v)) == Some(v),
{
    reveal_with_fuel(parse_stbl_children, 2);
    reveal(payload_stbl);
    let p = payload_stbl(v);
    lemma_parse_stbl(p);
    lemma_stsd_size(v.stsd);
    lemma_ser_stsd_shape(v.stsd);
    assert(p =~= ser_header(STSD, v.stsd.size() as u64) + payload_stsd(v.stsd));
    lemma_header_roundtrip(BoxType::StsdBox, v.stsd.size() as u64, payload_stsd(v.stsd));
    assert(p.subrange(8, v.stsd.size() as int) =~= payload_stsd(v.stsd));
    lemma_stsd_roundtrip(v.stsd);
    assert(p.subrange(v.stsd.size() as int, p.len() as int) =~= Seq::<u8>::empty());
}

impl StblBox {
    pub fn box_size(&self) -> (r: u64)
        requires
            self@.wf(),
        ensures
            r == self@.size(),
    {
        8 + self.stsd.box_size()
    }

    /// A sample table with an empty sample description.
    pub fn default() -> (r: StblBox)
        ensures
            r@.wf(),
            r@.stsd.avc1 is None && r@.stsd.opus is None,
    {
        StblBox { stsd: StsdBox::default() }
    }

    /// Decode a sample-table payload of `plen` bytes at `pos`.
    pub fn read_box(data: &Vec<u8>, pos: usize, plen: usize) -> (r: Result<StblBox, Error>)
        requires
            pos + plen <= data@.len(),
        ensures
            match r {
                Ok(b) => parse_stbl(data@.subrange(pos as int, pos + plen)) == Some(b@) && b@.wf(),
                Err(e) => parse_stbl(data@.subrange(pos as int, pos + plen)) is None,
            },
    {
        let n = data.len();
        let ghost p = data@.subrange(pos as int, pos + plen);
        proof {
            lemma_parse_stbl(p);
        }
        let end = pos + plen;
        let mut cur = pos;
        let mut stsd: Option<StsdBox> = None;
        loop
            invariant
                pos <= cur <= end,
                end == pos + plen,
                pos + plen <= data@.len(),
                data@.len() <= usize::MAX,
                p == data@.subrange(pos as int, pos + plen),
                match stsd {
                    Some(s) => s@.wf(),
                    None => true,
                },
                parse_stbl_children(p, None) == parse_stbl_children(
                    data@.subrange(cur as int, end as int),
                    opt_stsd_view(stsd),
                ),
            ensures
                parse_stbl_children(p, None) == Some(opt_stsd_view(stsd)),
                match stsd {
                    Some(s) => s@.wf(),
                    None => true,
                },
            decreases end - cur,
        {
            let ghost region = data@.subrange(cur as int, end as int);
            proof {
                lemma_parse_stbl(p);
            }
            if end - cur < 8 {
                break ;
            }
            let (header, hl) = match BoxHeader::read(data, cur, end) {
                Ok(v) => v,
                Err(e) => {
                    proof {
                        assert(parse_stbl_children(region, opt_stsd_view(stsd)) is None);
                    }
                    return Err(e);
                },
            };
            let size = header.size;
            if size == 0 {
                break ;
            }
            if size > (end - cur) as u64 {
                proof {
                    assert(parse_stbl_children(region, opt_stsd_view(stsd)) is None);
                }
                return Err(Error::InvalidData);
            }
            let szu = size as usize;
            proof {
                assert(region.subrange(hl as int, szu as int) =~= data@.subrange(
                    cur + hl,
                    cur + szu,
                ));
                assert(region.subrange(szu as int, region.len() as int) =~= data@.subrange(
                    cur + szu,
                    end as int,
                ));
            }
            match header.name {
                BoxType::StsdBox => {
                    let x = match StsdBox::read_box(data, cur + hl, szu - hl) {
                        Ok(x) => x,
                        Err(e) => {
                            proof {
                                assert(parse_stbl_children(region, opt_stsd_view(stsd)) is None);
                            }
                            return Err(e);
                        },
                    };
                    stsd = Some(x);
                },
                _ => {},
            }
            cur = cur + szu;
        }
        match stsd {
            Some(s) => Ok(StblBox { stsd: s }),
            None => Err(Error::InvalidData),
        }
    }

    /// Encode this box. The bytes emitted are exactly the declared size.
    pub fn write_box(&self, out: &mut Vec<u8>) -> (r: Result<u64, Error>)
        requires
            self@.wf(),
        ensures
            r is Ok && r.unwrap() == self@.size(),
            final(out)@ == old(out)@ + ser_stbl(self@),
    {
        let size = self.box_size();
        BoxHeader::new(BoxType::StblBox, size).write(out);
        self.stsd.write_box(out);
        proof {
            reveal(ser_stbl);
            reveal(payload_stbl);
            assert(out@ =~= old(out)@ + ser_stbl(self@));
        }
        Ok(size)
    }
}

/// The image of an optional sample description.
pub open spec fn opt_stsd_view(o: Option<StsdBox>) -> Option<StsdView> {
    match o {
        Some(b) => Some(b@),
        None => None,
    }
}

/// Field-by-field copy.
pub fn clone_stbl(b: &StblBox) -> (r: StblBox)
    ensures
        r@ == b@,
{
    StblBox { stsd: clone_stsd(&b.stsd) }
}

/// The media information box: the per-medium header, data information and
/// sample table.
#[derive(Debug)]
pub struct MinfBox {
    pub vmhd: Option<VmhdBox>,
    pub smhd: Option<SmhdBox>,
    pub dinf: DinfBox,
    pub stbl: StblBox,
}

/// Mathematical image of a media information box.
pub struct MinfView {
    pub vmhd: Option<VmhdBox>,
    pub smhd: Option<SmhdBox>,
    pub dinf: DinfBox,
    pub stbl: StblView,
}

impl View for MinfBox {
    type V = MinfView;

    open spec fn view(&self) -> MinfView {
        MinfView { vmhd: self.vmhd, smhd: self.smhd, dinf: self.dinf, stbl: self.stbl@ }
    }
}

impl MinfView {
    pub open spec fn wf(self) -> bool {
        &&& match self.vmhd {
            Some(v) => v.wf(),
            None => true,
        }
        &&& match self.smhd {
            Some(s) => s.wf(),
            None => true,
        }
        &&& self.stbl.wf()
    }

    pub open spec fn size(self) -> int {
        8 + (match self.vmhd {
            Some(v) => v.size(),
            None => 0,
        }) + (match self.smhd {
            Some(s) => s.size(),
            None => 0,
        }) + self.dinf.size() + self.stbl.size()
    }
}

/// Payload image of a media information box, children in canonical order.
#[verifier::opaque]
pub open spec fn payload_minf(v: MinfView) -> Seq<u8> {
    (match v.vmhd {
        Some(x) => ser_vmhd(x),
        None => Seq::<u8>::empty(),
    }) + (match v.smhd {
        Some(x) => ser_smhd(x),
        None => Seq::<u8>::empty(),
    }) + ser_dinf(v.dinf) + ser_stbl(v.stbl)
}

/// Byte image of a whole media information box.
#[verifier::opaque]
pub open spec fn ser_minf(v: MinfView) -> Seq<u8> {
    ser_header(MINF, v.size() as u64) + payload_minf(v)
}

/// Walk the children of a media information box.
pub open spec fn parse_minf_children(
    b: Seq<u8>,
    vm: Option<VmhdBox>,
    sm: Option<SmhdBox>,
    di: Option<DinfBox>,
    st: Option<StblView>,
) -> Option<(Option<VmhdBox>, Option<SmhdBox>, Option<DinfBox>, Option<StblView>)>
    decreases b.len(),
{
    if b.len() < 8 {
        Some((vm, sm, di, st))
    } else {
        match parse_header(b) {
            None => None,
            Some((name, size, hl)) => {
                if size == 0 {
                    Some((vm, sm, di, st))
                } else if size > b.len() {
                    None
                } else {
                    let payload = b.subrange(hl, size as int);
                    let rest = b.subrange(size as int, b.len() as int);
                    if name == BoxType::VmhdBox {
                        match parse_vmhd(payload) {
                            None => None,
                            Some(x) => parse_minf_children(rest, Some(x), sm, di, st),
                        }
                    } else if name == BoxType::SmhdBox {
                        match parse_smhd(payload) {
                            None => None,
                            Some(x) => parse_minf_children(rest, vm, Some(x), di, st),
                        }
                    } else if name == BoxType::DinfBox {
                        match parse_dinf(payload) {
                            None => None,
                            Some(x) => parse_minf_children(rest, vm, sm, Some(x), st),
                        }
                    } else if name == BoxType::StblBox {
                        match parse_stbl(payload) {
                            None => None,
                            Some(x) => parse_minf_children(rest, vm, sm, di, Some(x)),
                        }
                    } else {
                        parse_minf_children(rest, vm, sm, di, st)
                    }
                }
            },
        }
    }
}

/// Parse a media information payload. Missing data-information or sample
/// table children are malformed: both are required.
#[verifier::opaque]
pub open spec fn parse_minf(p: Seq<u8>) -> Option<MinfView> {
    match parse_minf_children(p, None, None, None, None) {
        None => None,
        Some((vm, sm, di, st)) => match (di, st) {
            (Some(dinf), Some(stbl)) => Some(MinfView { vmhd: vm, smhd: sm, dinf, stbl }),
            _ => None,
        },
    }
}

/// The parse of a media-information payload, written out.
pub proof fn lemma_parse_minf(p: Seq<u8>)
    ensures
        parse_minf(p) == (match parse_minf_children(p, None, None, None, None) {
            None => None,
            Some((vm, sm, di, st)) => match (di, st) {
                (Some(dinf), Some(stbl)) => Some(MinfView { vmhd: vm, smhd: sm, dinf, stbl }),
                _ => None,
            },
        }),
{
    reveal(parse_minf);
}

/// The declared size of a media information box equals the bytes emitted.
pub proof fn lemma_minf_size(v: MinfView)
    requires
        v.wf(),
    ensures
        ser_minf(v).len() == v.size(),
        payload_minf(v).len() == v.size() - 8,
{
    reveal(ser_minf);
    reveal(payload_minf);
    lemma_stbl_size(v.stbl);
}

/// A media-information image is its header followed by its payload.
pub proof fn lemma_ser_minf_shape(v: MinfView)
    ensures
        ser_minf(v) == ser_header(MINF, v.size() as u64) + payload_minf(v),
{
    reveal(ser_minf);
}

/// Walking exactly the data-information and sample-table images fills both
/// required slots.
proof fn lemma_minf_children_tail(
    b: Seq<u8>,
    vm: Option<VmhdBox>,
    sm: Option<SmhdBox>,
    di0: Option<DinfBox>,
    st0: Option<StblView>,
    stbl: StblView,
)
    requires
        stbl.wf(),
        b == ser_dinf(DinfBox {  }) + ser_stbl(stbl),
    ensures
        parse_minf_children(b, vm, sm, di0, st0) == Some(
            (vm, sm, Some(DinfBox {  }), Some(stbl)),
        ),
{
    reveal_with_fuel(parse_minf_children, 3);
    lemma_stbl_size(stbl);
    lemma_ser_stbl_shape(stbl);
    lemma_header_roundtrip(BoxType::DinfBox, 8u64, ser_stbl(stbl));
    assert(b =~= ser_header(DINF, 8u64) + ser_stbl(stbl));
    let rest = b.subrange(8, b.len() as int);
    assert(rest =~= ser_stbl(stbl));
    assert(parse_minf_children(b, vm, sm, di0, st0) == parse_minf_children(
        rest,
        vm,
        sm,
        Some(DinfBox {  }),
        st0,
    ));
    assert(rest =~= ser_header(STBL, stbl.size() as u64) + payload_stbl(stbl));
    lemma_header_roundtrip(BoxType::StblBox, stbl.size() as u64, payload_stbl(stbl));
    assert(rest.subrange(8, stbl.size() as int) =~= payload_stbl(stbl));
    lemma_stbl_roundtrip(stbl);
    let rest2 = rest.subrange(stbl.size() as int, rest.len() as int);
    assert(rest2.len() == 0);
    assert(parse_minf_children(rest, vm, sm, Some(DinfBox {  }), st0) == parse_minf_children(
        rest2,
        vm,
        sm,
        Some(DinfBox {  }),
        Some(stbl),
    ));
}

/// Decoding an encoded media information box gives back the same value.
#[verifier::rlimit(60)]
pub proof fn lemma_minf_roundtrip(v: MinfView)
    requires
        v.wf(),
    ensures
        parse_minf(payload_minf(v)) == Some(v),
{
    reveal_with_fuel(parse_minf_children, 2);
    reveal(payload_minf);
    let p = payload_minf(v);
    lemma_parse_minf(p);
    let tail = ser_dinf(v.dinf) + ser_stbl(v.stbl);
    let smtail = (match v.smhd {
        Some(x) => ser_smhd(x),
        None => Seq::<u8>::empty(),
    }) + tail;
    assert(v.dinf == (DinfBox {  }));
    match v.vmhd {
        Some(x) => {
            assert(p =~= ser_vmhd(x) + smtail);
            assert(p =~= ser_header(VMHD, 20u64) + (payload_vmhd(x) + smtail));
            lemma_header_roundtrip(BoxType::VmhdBox, 20u64, payload_vmhd(x) + smtail);
            assert(p.subrange(8, 20) =~= payload_vmhd(x));
            lemma_vmhd_roundtrip(x);
            assert(p.subrange(20, p.len() as int) =~= smtail);
            assert(parse_minf_children(p, None, None, None, None) == parse_minf_children(
                smtail,
                Some(x),
                None,
                None,
                None,
            ));
            lemma_minf_children_sm(smtail, Some(x), v.smhd, v.stbl);
        },
        None => {
            assert(p =~= smtail);
            lemma_minf_children_sm(p, None, v.smhd, v.stbl);
        },
    }
}

/// Walking the optional sound-header image and then the required tail.
proof fn lemma_minf_children_sm(
    b: Seq<u8>,
    vm: Option<VmhdBox>,
    sm: Option<SmhdBox>,
    stbl: StblView,
)
    requires
        stbl.wf(),
        match sm {
            Some(x) => x.wf() && b == ser_smhd(x) + (ser_dinf(DinfBox {  }) + ser_stbl(stbl)),
            None => b == ser_dinf(DinfBox {  }) + ser_stbl(stbl),
        },
    ensures
        parse_minf_children(b, vm, None, None, None) == Some(
            (vm, sm, Some(DinfBox {  }), Some(stbl)),
        ),
{
    reveal_with_fuel(parse_minf_children, 2);
    let tail = ser_dinf(DinfBox {  }) + ser_stbl(stbl);
    match sm {
        Some(x) => {
            assert(b =~= ser_header(SMHD, 16u64) + (payload_smhd(x) + tail));
            lemma_header_roundtrip(BoxType::SmhdBox, 16u64, payload_smhd(x) + tail);
            assert(b.subrange(8, 16) =~= payload_smhd(x));
            lemma_smhd_roundtrip(x);
            assert(b.subrange(16, b.len() as int) =~= tail);
            assert(parse_minf_children(b, vm, None, None, None) == parse_minf_children(
                tail,
                vm,
                Some(x),
                None,
                None,
            ));
            lemma_minf_children_tail(tail, vm, Some(x), None, None, stbl);
        },
        None => {
            lemma_minf_children_tail(b, vm, None, None, None, stbl);
        },
    }
}

impl MinfBox {
    pub fn box_size(&self) -> (r: u64)
        requires
            self@.wf(),
        ensures
            r == self@.size(),
    {
        let mut size: u64 = 8;
        match self.vmhd {
            Some(ref x) => {
                size = size + x.box_size();
            },
            None => {},
        }
        match self.smhd {
            Some(ref x) => {
                size = size + x.box_size();
            },
            None => {},
        }
        size = size + self.dinf.box_size();
        size + self.stbl.box_size()
    }

    /// Decode a media-information payload of `plen` bytes at `pos`.
    pub fn read_box(data: &Vec<u8>, pos: usize, plen: usize) -> (r: Result<MinfBox, Error>)
        requires
            pos + plen <= data@.len(),
        ensures
            match r {
                Ok(b) => parse_minf(data@.subrange(pos as int, pos + plen)) == Some(b@) && b@.wf(),
                Err(e) => parse_minf(data@.subrange(pos as int, pos + plen)) is None,
            },
    {
        let n = data.len();
        let ghost p = data@.subrange(pos as int, pos + plen);
        proof {
            lemma_parse_minf(p);
        }
        let end = pos + plen;
        let mut cur = pos;
        let mut vmhd: Option<VmhdBox> = None;
        let mut smhd: Option<SmhdBox> = None;
        let mut dinf: Option<DinfBox> = None;
        let mut stbl: Option<StblBox> = None;
        loop
            invariant
                pos <= cur <= end,
                end == pos + plen,
                pos + plen <= data@.len(),
                data@.len() <= usize::MAX,
                p == data@.subrange(pos as int, pos + plen),
                match vmhd {
                    Some(x) => x.wf(),
                    None => true,
                },
                match smhd {
                    Some(x) => x.wf(),
                    None => true,
                },
                match stbl {
                    Some(x) => x@.wf(),
                    None => true,
                },
                parse_minf_children(p, None, None, None, None) == parse_minf_children(
                    data@.subrange(cur as int, end as int),
                    vmhd,
                    smhd,
                    dinf,
                    opt_stbl_view(stbl),
                ),
            ensures
                parse_minf_children(p, None, None, None, None) == Some(
                    (vmhd, smhd, dinf, opt_stbl_view(stbl)),
                ),
                match vmhd {
                    Some(x) => x.wf(),
                    None => true,
                },
                match smhd {
                    Some(x) => x.wf(),
                    None => true,
                },
                match stbl {
                    Some(x) => x@.wf(),
                    None => true,
                },
            decreases end - cur,
        {
            let ghost region = data@.subrange(cur as int, end as int);
            proof {
                lemma_parse_minf(p);
            }
            if end - cur < 8 {
                break ;
            }
            let (header, hl) = match BoxHeader::read(data, cur, end) {
                Ok(v) => v,
                Err(e) => {
                    proof {
                        assert(parse_minf_children(region, vmhd, smhd, dinf, opt_stbl_view(stbl))
                            is None);
                    }
                    return Err(e);
                },
            };
            let size = header.size;
            if size == 0 {
                break ;
            }
            if size > (end - cur) as u64 {
                proof {
                    assert(parse_minf_children(region, vmhd, smhd, dinf, opt_stbl_view(stbl))
                        is None);
                }
                return Err(Error::InvalidData);
            }
            let szu = size as usize;
            proof {
                assert(region.subrange(hl as int, szu as int) =~= data@.subrange(
                    cur + hl,
                    cur + szu,
                ));
                assert(region.subrange(szu as int, region.len() as int) =~= data@.subrange(
                    cur + szu,
                    end as int,
                ));
            }
            match header.name {
                BoxType::VmhdBox => {
                    let x = match VmhdBox::read_box(data, cur + hl, szu - hl) {
                        Ok(x) => x,
                        Err(e) => {
                            proof {
                                assert(parse_minf_children(
                                    region,
                                    vmhd,
                                    smhd,
                                    dinf,
                                    opt_stbl_view(stbl),
                                ) is None);
                            }
                            return Err(e);
                        },
                    };
                    vmhd = Some(x);
                },
                BoxType::SmhdBox => {
                    let x = match SmhdBox::read_box(data, cur + hl, szu - hl) {
                        Ok(x) => x,
                        Err(e) => {
                            proof {
                                assert(parse_minf_children(
                                    region,
                                    vmhd,
                                    smhd,
                                    dinf,
                                    opt_stbl_view(stbl),
                                ) is None);
                            }
                            return Err(e);
                        },
                    };
                    smhd = Some(x);
                },
                BoxType::DinfBox => {
                    let x = match DinfBox::read_box(data, cur + hl, szu - hl) {
                        Ok(x) => x,
                        Err(e) => {
                            proof {
                                assert(parse_minf_children(
                                    region,
                                    vmhd,
                                    smhd,
                                    dinf,
                                    opt_stbl_view(stbl),
                                ) is None);
                            }
                            return Err(e);
                        },
                    };
                    dinf = Some(x);
                },
                BoxType::StblBox => {
                    let x = match StblBox::read_box(data, cur + hl, szu - hl) {
                        Ok(x) => x,
                        Err(e) => {
                            proof {
                                assert(parse_minf_children(
                                    region,
                                    vmhd,
                                    smhd,
                                    dinf,
                                    opt_stbl_view(stbl),
                                ) is None);
                            }
                            return Err(e);
                        },
                    };
                    stbl = Some(x);
                },
                _ => {},
            }
            cur = cur + szu;
        }
        match (dinf, stbl) {
            (Some(d), Some(s)) => Ok(MinfBox { vmhd, smhd, dinf: d, stbl: s }),
            _ => Err(Error::InvalidData),
        }
    }

    /// Encode this box, children in canonical order. The bytes emitted are
    /// exactly the declared size.
    pub fn write_box(&self, out: &mut Vec<u8>) -> (r: Result<u64, Error>)
        requires
            self@.wf(),
        ensures
            r is Ok && r.unwrap() == self@.size(),
            final(out)@ == old(out)@ + ser_minf(self@),
    {
        let size = self.box_size();
        BoxHeader::new(BoxType::MinfBox, size).write(out);
        match self.vmhd {
            Some(ref x) => {
                x.write_box(out);
            },
            None => {},
        }
        match self.smhd {
            Some(ref x) => {
                x.write_box(out);
            },
            None => {},
        }
        self.dinf.write_box(out);
        self.stbl.write_box(out);
        proof {
            reveal(ser_minf);
            reveal(payload_minf);
            assert(out@ =~= old(out)@ + ser_minf(self@));
        }
        Ok(size)
    }
}

/// The image of an optional sample table.
pub open spec fn opt_stbl_view(o: Option<StblBox>) -> Option<StblView> {
    match o {
        Some(b) => Some(b@),
        None => None,
    }
}

/// Field-by-field copy.
pub fn clone_minf(b: &MinfBox) -> (r: MinfBox)
    ensures
        r@ == b@,
{
    MinfBox { vmhd: b.vmhd, smhd: b.smhd, dinf: b.dinf, stbl: clone_stbl(&b.stbl) }
}

/// The media box: media header, handler reference and media information.
#[derive(Debug)]
pub struct MdiaBox {
    pub mdhd: MdhdBox,
    pub hdlr: HdlrBox,
    pub minf: MinfBox,
}

/// Mathematical image of a media box.
pub struct MdiaView {
    pub mdhd: MdhdBox,
    pub hdlr: HdlrView,
    pub minf: MinfView,
}

impl View for MdiaBox {
    type V = MdiaView;

    open spec fn view(&self) -> MdiaView {
        MdiaView { mdhd: self.mdhd, hdlr: self.hdlr@, minf: self.minf@ }
    }
}

impl MdiaView {
    pub open spec fn wf(self) -> bool {
        &&& self.mdhd.wf()
        &&& self.hdlr.wf()
        &&& self.minf.wf()
        &&& self.size() <= 0xffffffff
    }

    pub open spec fn size(self) -> int {
        8 + self.mdhd.size() + self.hdlr.size() + self.minf.size()
    }
}

/// Payload image of a media box, children in canonical order.
#[verifier::opaque]
pub open spec fn payload_mdia(v: MdiaView) -> Seq<u8> {
    ser_mdhd(v.mdhd) + ser_hdlr(v.hdlr) + ser_minf(v.minf)
}

/// Byte image of a whole media box.
#[verifier::opaque]
pub open spec fn ser_mdia(v: MdiaView) -> Seq<u8> {
    ser_header(MDIA, v.size() as u64) + payload_mdia(v)
}

/// Walk the children of a media box.
pub open spec fn parse_mdia_children(
    b: Seq<u8>,
    md: Option<MdhdBox>,
    hd: Option<HdlrView>,
    mi: Option<MinfView>,
) -> Option<(Option<MdhdBox>, Option<HdlrView>, Option<MinfView>)>
    decreases b.len(),
{
    if b.len() < 8 {
        Some((md, hd, mi))
    } else {
        match parse_header(b) {
            None => None,
            Some((name, size, hl)) => {
                if size == 0 {
                    Some((md, hd, mi))
                } else if size > b.len() {
                    None
                } else {
                    let payload = b.subrange(hl, size as int);
                    let rest = b.subrange(size as int, b.len() as int);
                    if name == BoxType::MdhdBox {
                        match parse_mdhd(payload) {
                            None => None,
                            Some(x) => parse_mdia_children(rest, Some(x), hd, mi),
                        }
                    } else if name == BoxType::HdlrBox {
                        match parse_hdlr(payload) {
                            None => None,
                            Some(x) => parse_mdia_children(rest, md, Some(x), mi),
                        }
                    } else if name == BoxType::MinfBox {
                        match parse_minf(payload) {
                            None => None,
                            Some(x) => parse_mdia_children(rest, md, hd, Some(x)),
                        }
                    } else {
                        parse_mdia_children(rest, md, hd, mi)
                    }
                }
            },
        }
    }
}

/// Parse a media payload. All three children are required; a missing one is
/// malformed.
#[verifier::opaque]
pub open spec fn parse_mdia(p: Seq<u8>) -> Option<MdiaView> {
    match parse_mdia_children(p, None, None, None) {
        None => None,
        Some((md, hd, mi)) => match (md, hd, mi) {
            (Some(mdhd), Some(hdlr), Some(minf)) => Some(MdiaView { mdhd, hdlr, minf }),
            _ => None,
        },
    }
}

/// The parse of a media payload, written out.
pub proof fn lemma_parse_mdia(p: Seq<u8>)
    ensures
        parse_mdia(p) == (match parse_mdia_children(p, None, None, None) {
            None => None,
            Some((md, hd, mi)) => match (md, hd, mi) {
                (Some(mdhd), Some(hdlr), Some(minf)) => Some(MdiaView { mdhd, hdlr, minf }),
                _ => None,
            },
        }),
{
    reveal(parse_mdia);
}

/// The declared size of a media box equals the bytes emitted.
pub proof fn lemma_mdia_size(v: MdiaView)
    requires
        v.wf(),
    ensures
        ser_mdia(v).len() == v.size(),
        payload_mdia(v).len() == v.size() - 8,
{
    reveal(ser_mdia);
    reveal(payload_mdia);
    lemma_hdlr_size(v.hdlr);
    lemma_minf_size(v.minf);
}

/// A media image is its header followed by its payload.
pub proof fn lemma_ser_mdia_shape(v: MdiaView)
    ensures
        ser_mdia(v) == ser_header(MDIA, v.size() as u64) + payload_mdia(v),
{
    reveal(ser_mdia);
}

/// Decoding an encoded media box gives back the same value.
#[verifier::rlimit(60)]
pub proof fn lemma_mdia_roundtrip(v: MdiaView)
    requires
        v.wf(),
    ensures
        parse_mdia(payload_mdia(v)) == Some(v),
{
    reveal_with_fuel(parse_mdia_children, 2);
    reveal(payload_mdia);
    let p = payload_mdia(v);
    lemma_parse_mdia(p);
    lemma_hdlr_size(v.hdlr);
    lemma_minf_size(v.minf);
    lemma_ser_minf_shape(v.minf);
    let t1 = ser_hdlr(v.hdlr) + ser_minf(v.minf);
    assert(p =~= ser_header(MDHD, 32u64) + (payload_mdhd(v.mdhd) + t1));
    lemma_header_roundtrip(BoxType::MdhdBox, 32u64, payload_mdhd(v.mdhd) + t1);
    assert(p.subrange(8, 32) =~= payload_mdhd(v.mdhd));
    lemma_mdhd_roundtrip(v.mdhd);
    assert(p.subrange(32, p.len() as int) =~= t1);
    assert(parse_mdia_children(p, None, None, None) == parse_mdia_children(
        t1,
        Some(v.mdhd),
        None,
        None,
    ));
    let hs = v.hdlr.size();
    assert(t1 =~= ser_header(HDLR, hs as u64) + (payload_hdlr(v.hdlr) + ser_minf(v.minf)));
    lemma_header_roundtrip(BoxType::HdlrBox, hs as u64, payload_hdlr(v.hdlr) + ser_minf(v.minf));
    assert(t1.subrange(8, hs as int) =~= payload_hdlr(v.hdlr));
    lemma_hdlr_roundtrip(v.hdlr);
    assert(t1.subrange(hs as int, t1.len() as int) =~= ser_minf(v.minf));
    assert(parse_mdia_children(t1, Some(v.mdhd), None, None) == parse_mdia_children(
        ser_minf(v.minf),
        Some(v.mdhd),
        Some(v.hdlr),
        None,
    ));
    let t2 = ser_minf(v.minf);
    let ms = v.minf.size();
    assert(t2 == ser_header(MINF, ms as u64) + payload_minf(v.minf));
    lemma_header_roundtrip(BoxType::MinfBox, ms as u64, payload_minf(v.minf));
    assert(t2.subrange(8, ms as int) =~= payload_minf(v.minf));
    lemma_minf_roundtrip(v.minf);
    assert(t2.subrange(ms as int, t2.len() as int) =~= Seq::<u8>::empty());
    assert(parse_mdia_children(t2, Some(v.mdhd), Some(v.hdlr), None) == Some(
        (Some(v.mdhd), Some(v.hdlr), Some(v.minf)),
    ));
}

impl MdiaBox {
    pub fn box_size(&self) -> (r: u64)
        requires
            self@.wf(),
        ensures
            r == self@.size(),
    {
        8 + self.mdhd.box_size() + self.hdlr.box_size() + self.minf.box_size()
    }

    /// Decode a media payload of `plen` bytes at `pos`.
    pub fn read_box(data: &Vec<u8>, pos: usize, plen: usize) -> (r: Result<MdiaBox, Error>)
        requires
            pos + plen <= data@.len(),
        ensures
            match r {
                Ok(b) => parse_mdia(data@.subrange(pos as int, pos + plen)) == Some(b@),
                Err(e) => parse_mdia(data@.subrange(pos as int, pos + plen)) is None,
            },
    {
        let n = data.len();
        let ghost p = data@.subrange(pos as int, pos + plen);
        proof {
            lemma_parse_mdia(p);
        }
        let end = pos + plen;
        let mut cur = pos;
        let mut mdhd: Option<MdhdBox> = None;
        let mut hdlr: Option<HdlrBox> = None;
        let mut minf: Option<MinfBox> = None;
        loop
            invariant
                pos <= cur <= end,
                end == pos + plen,
                pos + plen <= data@.len(),
                data@.len() <= usize::MAX,
                p == data@.subrange(pos as int, pos + plen),
                parse_mdia_children(p, None, None, None) == parse_mdia_children(
                    data@.subrange(cur as int, end as int),
                    mdhd,
                    opt_hdlr_view(hdlr),
                    opt_minf_view(minf),
                ),
            ensures
                parse_mdia_children(p, None, None, None) == Some(
                    (mdhd, opt_hdlr_view(hdlr), opt_minf_view(minf)),
                ),
            decreases end - cur,
        {
            let ghost region = data@.subrange(cur as int, end as int);
            proof {
                lemma_parse_mdia(p);
            }
            if end - cur < 8 {
                break ;
            }
            let (header, hl) = match BoxHeader::read(data, cur, end) {
                Ok(v) => v,
                Err(e) => {
                    proof {
                        assert(parse_mdia_children(
                            region,
                            mdhd,
                            opt_hdlr_view(hdlr),
                            opt_minf_view(minf),
                        ) is None);
                    }
                    return Err(e);
                },
            };
            let size = header.size;
            if size == 0 {
                break ;
            }
            if size > (end - cur) as u64 {
                proof {
                    assert(parse_mdia_children(
                        region,
                        mdhd,
                        opt_hdlr_view(hdlr),
                        opt_minf_view(minf),
                    ) is None);
                }
                return Err(Error::InvalidData);
            }
            let szu = size as usize;
            proof {
                assert(region.subrange(hl as int, szu as int) =~= data@.subrange(
                    cur + hl,
                    cur + szu,
                ));
                assert(region.subrange(szu as int, region.len() as int) =~= data@.subrange(
                    cur + szu,
                    end as int,
                ));
            }
            match header.name {
                BoxType::MdhdBox => {
                    let x = match MdhdBox::read_box(data, cur + hl, szu - hl) {
                        Ok(x) => x,
                        Err(e) => {
                            proof {
                                assert(parse_mdia_children(
                                    region,
                                    mdhd,
                                    opt_hdlr_view(hdlr),
                                    opt_minf_view(minf),
                                ) is None);
                            }
                            return Err(e);
                        },
                    };
                    mdhd = Some(x);
                },
                BoxType::HdlrBox => {
                    let x = match HdlrBox::read_box(data, cur + hl, szu - hl) {
                        Ok(x) => x,
                        Err(e) => {
                            proof {
                                assert(parse_mdia_children(
                                    region,
                                    mdhd,
                                    opt_hdlr_view(hdlr),
                                    opt_minf_view(minf),
                                ) is None);
                            }
                            return Err(e);
                        },
                    };
                    hdlr = Some(x);
                },
                BoxType::MinfBox => {
                    let x = match MinfBox::read_box(data, cur + hl, szu - hl) {
                        Ok(x) => x,
                        Err(e) => {
                            proof {
                                assert(parse_mdia_children(
                                    region,
                                    mdhd,
                                    opt_hdlr_view(hdlr),
                                    opt_minf_view(minf),
                                ) is None);
                            }
                            return Err(e);
                        },
                    };
                    minf = Some(x);
                },
                _ => {},
            }
            cur = cur + szu;
        }
        match (mdhd, hdlr, minf) {
            (Some(m), Some(h), Some(mi)) => Ok(MdiaBox { mdhd: m, hdlr: h, minf: mi }),
            _ => Err(Error::InvalidData),
        }
    }

    /// Encode this box, children in canonical order. The bytes emitted are
    /// exactly the declared size.
    pub fn write_box(&self, out: &mut Vec<u8>) -> (r: Result<u64, Error>)
        requires
            self@.wf(),
        ensures
            r is Ok && r.unwrap() == self@.size(),
            final(out)@ == old(out)@ + ser_mdia(self@),
    {
        let size = self.box_size();
        BoxHeader::new(BoxType::MdiaBox, size).write(out);
        self.mdhd.write_box(out);
        self.hdlr.write_box(out);
        self.minf.write_box(out);
        proof {
            reveal(ser_mdia);
            reveal(payload_mdia);
            assert(out@ =~= old(out)@ + ser_mdia(self@));
        }
        Ok(size)
    }
}

/// The image of an optional handler box.
pub open spec fn opt_hdlr_view(o: Option<HdlrBox>) -> Option<HdlrView> {
    match o {
        Some(b) => Some(b@),
        None => None,
    }
}

/// The image of an optional media information box.
pub open spec fn opt_minf_view(o: Option<MinfBox>) -> Option<MinfView> {
    match o {
        Some(b) => Some(b@),
        None => None,
    }
}

/// Field-by-field copy.
pub fn clone_mdia(b: &MdiaBox) -> (r: MdiaBox)
    ensures
        r@ == b@,
{
    MdiaBox { mdhd: b.mdhd, hdlr: clone_hdlr(&b.hdlr), minf: clone_minf(&b.minf) }
}

/// The track box: track header and media subtree.
#[derive(Debug)]
pub struct TrakBox {
    pub tkhd: TkhdBox,
    pub mdia: MdiaBox,
}

/// Mathematical image of a track box.
pub struct TrakView {
    pub tkhd: TkhdBox,
    pub mdia: MdiaView,
}

impl View for TrakBox {
    type V = TrakView;

    open spec fn view(&self) -> TrakView {
        TrakView { tkhd: self.tkhd, mdia: self.mdia@ }
    }
}

impl TrakView {
    pub open spec fn wf(self) -> bool {
        &&& self.tkhd.wf()
        &&& self.mdia.wf()
        &&& self.size() <= 0xffffffff
    }

    pub open spec fn size(self) -> int {
        8 + self.tkhd.size() + self.mdia.size()
    }
}

/// Payload image of a track box, children in canonical order.
#[verifier::opaque]
pub open spec fn payload_trak(v: TrakView) -> Seq<u8> {
    ser_tkhd(v.tkhd) + ser_mdia(v.mdia)
}

/// Byte image of a whole track box.
#[verifier::opaque]
pub open spec fn ser_trak(v: TrakView) -> Seq<u8> {
    ser_header(TRAK, v.size() as u64) + payload_trak(v)
}

/// Walk the children of a track box.
pub open spec fn parse_trak_children(
    b: Seq<u8>,
    tk: Option<TkhdBox>,
    md: Option<MdiaView>,
) -> Option<(Option<TkhdBox>, Option<MdiaView>)>
    decreases b.len(),
{
    if b.len() < 8 {
        Some((tk, md))
    } else {
        match parse_header(b) {
            None => None,
            Some((name, size, hl)) => {
                if size == 0 {
                    Some((tk, md))
                } else if size > b.len() {
                    None
                } else {
                    let payload = b.subrange(hl, size as int);
                    let rest = b.subrange(size as int, b.len() as int);
                    if name == BoxType::TkhdBox {
                        match parse_tkhd(payload) {
                            None => None,
                            Some(x) => parse_trak_children(rest, Some(x), md),
                        }
                    } else if name == BoxType::MdiaBox {
                        match parse_mdia(payload) {
                            None => None,
                            Some(x) => parse_trak_children(rest, tk, Some(x)),
                        }
                    } else {
                        parse_trak_children(rest, tk, md)
                    }
                }
            },
        }
    }
}

/// Parse a track payload. Both children are required; a missing one is
/// malformed.
#[verifier::opaque]
pub open spec fn parse_trak(p: Seq<u8>) -> Option<TrakView> {
    match parse_trak_children(p, None, None) {
        None => None,
        Some((tk, md)) => match (tk, md) {
            (Some(tkhd), Some(mdia)) => Some(TrakView { tkhd, mdia }),
            _ => None,
        },
    }
}

/// The parse of a track payload, written out.
pub proof fn lemma_parse_trak(p: Seq<u8>)
    ensures
        parse_trak(p) == (match parse_trak_children(p, None, None) {
            None => None,
            Some((tk, md)) => match (tk, md) {
                (Some(tkhd), Some(mdia)) => Some(TrakView { tkhd, mdia }),
                _ => None,
            },
        }),
{
    reveal(parse_trak);
}

/// The declared size of a track box equals the bytes emitted.
#[verifier::rlimit(50)]
pub proof fn lemma_trak_size(v: TrakView)
    requires
        v.wf(),
    ensures
        ser_trak(v).len() == v.size(),
        payload_trak(v).len() == v.size() - 8,
{
    reveal(ser_trak);
    reveal(payload_trak);
    lemma_mdia_size(v.mdia);
}

/// A track image is its header followed by its payload.
pub proof fn lemma_ser_trak_shape(v: TrakView)
    ensures
        ser_trak(v) == ser_header(TRAK, v.size() as u64) + payload_trak(v),
{
    reveal(ser_trak);
}

/// Decoding an encoded track box gives back the same value.
#[verifier::rlimit(100)]
pub proof fn lemma_trak_roundtrip(v: TrakView)
    requires
        v.wf(),
    ensures
        parse_trak(payload_trak(v)) == Some(v),
{
    reveal_with_fuel(parse_trak_children, 2);
    reveal(payload_trak);
    let p = payload_trak(v);
    lemma_parse_trak(p);
    lemma_mdia_size(v.mdia);
    lemma_ser_mdia_shape(v.mdia);
    let t1 = ser_mdia(v.mdia);
    assert(p =~= ser_header(TKHD, 92u64) + (payload_tkhd(v.tkhd) + t1));
    lemma_header_roundtrip(BoxType::TkhdBox, 92u64, payload_tkhd(v.tkhd) + t1);
    assert(p.subrange(8, 92) =~= payload_tkhd(v.tkhd));
    lemma_tkhd_roundtrip(v.tkhd);
    assert(p.subrange(92, p.len() as int) =~= t1);
    assert(parse_trak_children(p, None, None) == parse_trak_children(t1, Some(v.tkhd), None));
    let ms = v.mdia.size();
    assert(t1 == ser_header(MDIA, ms as u64) + payload_mdia(v.mdia));
    lemma_header_roundtrip(BoxType::MdiaBox, ms as u64, payload_mdia(v.mdia));
    assert(t1.subrange(8, ms as int) =~= payload_mdia(v.mdia));
    lemma_mdia_roundtrip(v.mdia);
    assert(t1.subrange(ms as int, t1.len() as int) =~= Seq::<u8>::empty());
    assert(parse_trak_children(t1, Some(v.tkhd), None) == Some((Some(v.tkhd), Some(v.mdia))));
}

impl TrakBox {
    pub fn box_size(&self) -> (r: u64)
        requires
            self@.wf(),
        ensures
            r == self@.size(),
    {
        8 + self.tkhd.box_size() + self.mdia.box_size()
    }

    /// Decode a track payload of `plen` bytes at `pos`.
    pub fn read_box(data: &Vec<u8>, pos: usize, plen: usize) -> (r: Result<TrakBox, Error>)
        requires
            pos + plen <= data@.len(),
        ensures
            match r {
                Ok(b) => parse_trak(data@.subrange(pos as int, pos + plen)) == Some(b@),
                Err(e) => parse_trak(data@.subrange(pos as int, pos + plen)) is None,
            },
    {
        proof {
                }
        let n = data.len();
        let ghost p = data@.subrange(pos as int, pos + plen);
        proof {
            lemma_parse_trak(p);
        }
        let end = pos + plen;
        let mut cur = pos;
        let mut tkhd: Option<TkhdBox> = None;
        let mut mdia: Option<MdiaBox> = None;
        loop
            invariant
                pos <= cur <= end,
                end == pos + plen,
                pos + plen <= data@.len(),
                data@.len() <= usize::MAX,
                p == data@.subrange(pos as int, pos + plen),
                parse_trak_children(p, None, None) == parse_trak_children(
                    data@.subrange(cur as int, end as int),
                    tkhd,
                    opt_mdia_view(mdia),
                ),
            ensures
                parse_trak_children(p, None, None) == Some((tkhd, opt_mdia_view(mdia))),
            decreases end - cur,
        {
            let ghost region = data@.subrange(cur as int, end as int);
            proof {
                lemma_parse_trak(p);
            }
            if end - cur < 8 {
                break ;
            }
            let (header, hl) = match BoxHeader::read(data, cur, end) {
                Ok(v) => v,
                Err(e) => {
                    proof {
                        assert(parse_trak_children(region, tkhd, opt_mdia_view(mdia)) is None);
                    }
                    return Err(e);
                },
            };
            let size = header.size;
            if size == 0 {
                break ;
            }
            if size > (end - cur) as u64 {
                proof {
                    assert(parse_trak_children(region, tkhd, opt_mdia_view(mdia)) is None);
                }
                return Err(Error::InvalidData);
            }
            let szu = size as usize;
            proof {
                assert(region.subrange(hl as int, szu as int) =~= data@.subrange(
                    cur + hl,
                    cur + szu,
                ));
                assert(region.subrange(szu as int, region.len() as int) =~= data@.subrange(
                    cur + szu,
                    end as int,
                ));
            }
            match header.name {
                BoxType::TkhdBox => {
                    let x = match TkhdBox::read_box(data, cur + hl, szu - hl) {
                        Ok(x) => x,
                        Err(e) => {
                            proof {
                                assert(parse_trak_children(region, tkhd, opt_mdia_view(mdia))
                                    is None);
                            }
                            return Err(e);
                        },
                    };
                    tkhd = Some(x);
                },
                BoxType::MdiaBox => {
                    let x = match MdiaBox::read_box(data, cur + hl, szu - hl) {
                        Ok(x) => x,
                        Err(e) => {
                            proof {
                                assert(parse_trak_children(region, tkhd, opt_mdia_view(mdia))
                                    is None);
                            }
                            return Err(e);
                        },
                    };
                    mdia = Some(x);
                },
                _ => {},
            }
            cur = cur + szu;
        }
        match (tkhd, mdia) {
            (Some(t), Some(m)) => Ok(TrakBox { tkhd: t, mdia: m }),
            _ => Err(Error::InvalidData),
        }
    }

    /// Encode this box, children in canonical order. The bytes emitted are
    /// exactly the declared size.
    pub fn write_box(&self, out: &mut Vec<u8>) -> (r: Result<u64, Error>)
        requires
            self@.wf(),
        ensures
            r is Ok && r.unwrap() == self@.size(),
            final(out)@ == old(out)@ + ser_trak(self@),
    {
        let size = self.box_size();
        BoxHeader::new(BoxType::TrakBox, size).write(out);
        self.tkhd.write_box(out);
        self.mdia.write_box(out);
        proof {
            reveal(ser_trak);
            reveal(payload_trak);
            assert(out@ =~= old(out)@ + ser_trak(self@));
        }
        Ok(size)
    }
}

/// The image of an optional media box.
pub open spec fn opt_mdia_view(o: Option<MdiaBox>) -> Option<MdiaView> {
    match o {
        Some(b) => Some(b@),
        None => None,
    }
}

/// Field-by-field copy.
pub fn clone_trak(b: &TrakBox) -> (r: TrakBox)
    ensures
        r@ == b@,
{
    TrakBox { tkhd: b.tkhd, mdia: clone_mdia(&b.mdia) }
}

} // verus!

//! The movie box: whole-file metadata — movie header, the track list and
//! user data with the metadata item list.

use vstd::prelude::*;

use crate::bytes::{be16, be24, be32, pbe24, pbe32, zeros, get_u8, get_u16, get_u24, get_u32,
    get_bytes, put_u16, put_u32, put_bytes, put_zeros, clone_bytes};
use crate::header::{BoxHeader, BoxType, MVHD, TRAK, UDTA, META, ILST, MOOV, ser_header, ser_vf,
    put_vf, parse_header, lemma_header_roundtrip, lemma_pbe16_sub, lemma_pbe24_sub,
    lemma_pbe32_sub};
use crate::trak::{TrakBox, TrakView, ser_trak, payload_trak, parse_trak, lemma_trak_size,
    lemma_trak_roundtrip, clone_trak, opt_mdia_view};
use crate::{Error, FixedPointU16, FixedPointU8};

verus! {

/// The movie header box (version 0 layout).
#[derive(Clone, Copy, PartialEq, Eq, Structural, Debug)]
pub struct MvhdBox {
    pub version: u8,
    pub flags: u32,
    pub timescale: u32,
    pub duration: u32,
    pub rate: FixedPointU16,
    pub volume: FixedPointU8,
}

impl MvhdBox {
    pub open spec fn wf(self) -> bool {
        self.version == 0 && self.flags < 0x1000000
    }

    pub open spec fn size(self) -> int {
        108
    }

    pub fn box_size(&self) -> (r: u64)
        ensures
            r == self.size(),
    {
        108
    }

    /// A movie header with every field zero.
    pub fn default() -> (r: MvhdBox)
        ensures
            r.wf(),
            r == (MvhdBox {
                version: 0,
                flags: 0,
                timescale: 0,
                duration: 0,
                rate: FixedPointU16 { raw: 0 },
                volume: FixedPointU8 { raw: 0 },
            }),
    {
        MvhdBox {
            version: 0,
            flags: 0,
            timescale: 0,
            duration: 0,
            rate: FixedPointU16 { raw: 0 },
            volume: FixedPointU8 { raw: 0 },
        }
    }

    /// Decode a movie-header payload of `plen` bytes at `pos`.
    pub fn read_box(data: &Vec<u8>, pos: usize, plen: usize) -> (r: Result<MvhdBox, Error>)
        requires
            pos + plen <= data@.len(),
        ensures
            match r {
                Ok(b) => parse_mvhd(data@.subrange(pos as int, pos + plen)) == Some(b) && b.wf(),
                Err(e) => parse_mvhd(data@.subrange(pos as int, pos + plen)) is None,
            },
    {
        let n = data.len();
        let ghost p = data@.subrange(pos as int, pos + plen);
        if plen < 26 {
            return Err(Error::ShortRead);
        }
        let version = get_u8(data, pos);
        if version != 0 {
            return Err(Error::InvalidData);
        }
        let flags = get_u24(data, pos + 1);
        let timescale = get_u32(data, pos + 12);
        let duration = get_u32(data, pos + 16);
        let rate = FixedPointU16::new_raw(get_u32(data, pos + 20));
        let volume = FixedPointU8::new_raw(get_u16(data, pos + 24));
        proof {
            assert(pbe24(p, 1) == pbe24(data@, pos + 1));
            assert(pbe32(p, 12) == pbe32(data@, pos + 12));
            assert(pbe32(p, 16) == pbe32(data@, pos + 16));
            assert(pbe32(p, 20) == pbe32(data@, pos + 20));
            assert(crate::bytes::pbe16(p, 24) == crate::bytes::pbe16(data@, pos + 24));
        }
        Ok(MvhdBox { version, flags, timescale, duration, rate, volume })
    }

    /// Encode this box. The bytes emitted are exactly the declared size.
    pub fn write_box(&self, out: &mut Vec<u8>) -> (r: Result<u64, Error>)
        requires
            self.wf(),
        ensures
            r is Ok && r.unwrap() == self.size(),
            final(out)@ == old(out)@ + ser_mvhd(*self),
    {
        let size = self.box_size();
        BoxHeader::new(BoxType::MvhdBox, size).write(out);
        put_vf(out, self.version, self.flags);
        put_zeros(out, 8);
        put_u32(out, self.timescale);
        put_u32(out, self.duration);
        put_u32(out, self.rate.raw);
        put_u16(out, self.volume.raw);
        put_zeros(out, 74);
        proof {
            reveal(ser_mvhd);
            reveal(payload_mvhd);
            assert(out@ =~= old(out)@ + ser_mvhd(*self));
        }
        Ok(size)
    }
}

/// Payload image of a movie header: fields among reserved zeros.
#[verifier::opaque]
pub open spec fn payload_mvhd(v: MvhdBox) -> Seq<u8> {
    ser_vf(v.version, v.flags) + zeros(8) + be32(v.timescale) + be32(v.duration) + be32(v.rate.raw)
        + be16(v.volume.raw) + zeros(74)
}

/// Byte image of a whole movie-header box.
#[verifier::opaque]
pub open spec fn ser_mvhd(v: MvhdBox) -> Seq<u8> {
    ser_header(MVHD, v.size() as u64) + payload_mvhd(v)
}

/// Parse a movie-header payload; only version 0 is known.
pub open spec fn parse_mvhd(p: Seq<u8>) -> Option<MvhdBox> {
    if p.len() < 26 {
        None
    } else if p[0] != 0 {
        None
    } else {
        Some(
            MvhdBox {
                version: 0,
                flags: pbe24(p, 1) as u32,
                timescale: pbe32(p, 12) as u32,
                duration: pbe32(p, 16) as u32,
                rate: FixedPointU16 { raw: pbe32(p, 20) as u32 },
                volume: FixedPointU8 { raw: crate::bytes::pbe16(p, 24) as u16 },
            },
        )
    }
}

/// The declared size of a movie header equals the bytes its writer emits.
pub proof fn lemma_mvhd_size(v: MvhdBox)
    ensures
        ser_mvhd(v).len() == v.size(),
        payload_mvhd(v).len() == v.size() - 8,
{
    reveal(ser_mvhd);
    reveal(payload_mvhd);
}

/// A movie-header image is its header followed by its payload.
pub proof fn lemma_ser_mvhd_shape(v: MvhdBox)
    ensures
        ser_mvhd(v) == ser_header(MVHD, v.size() as u64) + payload_mvhd(v),
{
    reveal(ser_mvhd);
}

/// Decoding an encoded movie header gives back the same value.
pub proof fn lemma_mvhd_roundtrip(v: MvhdBox)
    requires
        v.wf(),
    ensures
        parse_mvhd(payload_mvhd(v)) == Some(v),
{
    reveal(payload_mvhd);
    let p = payload_mvhd(v);
    assert(p.subrange(1, 4) =~= be24(v.flags));
    assert(p.subrange(12, 16) =~= be32(v.timescale));
    assert(p.subrange(16, 20) =~= be32(v.duration));
    assert(p.subrange(20, 24) =~= be32(v.rate.raw));
    assert(p.subrange(24, 26) =~= be16(v.volume.raw));
    lemma_pbe24_sub(p, 1, v.flags);
    lemma_pbe32_sub(p, 12, v.timescale);
    lemma_pbe32_sub(p, 16, v.duration);
    lemma_pbe32_sub(p, 20, v.rate.raw);
    lemma_pbe16_sub(p, 24, v.volume.raw);
}

/// The metadata item list box: its items are kept verbatim.
#[derive(Debug)]
pub struct IlstBox {
    pub data: Vec<u8>,
}

/// Mathematical image of an item list box.
pub struct IlstView {
    pub data: Seq<u8>,
}

impl View for IlstBox {
    type V = IlstView;

    open spec fn view(&self) -> IlstView {
        IlstView { data: self.data@ }
    }
}

impl IlstView {
    pub open spec fn wf(self) -> bool {
        8 + self.data.len() <= 0xffffffff
    }

    pub open spec fn size(self) -> int {
        8 + self.data.len() as int
    }
}

/// Byte image of a whole item list box.
pub open spec fn ser_ilst(v: IlstView) -> Seq<u8> {
    ser_header(ILST, v.size() as u64) + v.data
}

/// An item list payload is kept verbatim: it always parses, to itself.
pub open spec fn parse_ilst(p: Seq<u8>) -> Option<IlstView> {
    Some(IlstView { data: p })
}

/// The declared size of an item list box equals the bytes emitted.
pub proof fn lemma_ilst_size(v: IlstView)
    requires
        v.wf(),
    ensures
        ser_ilst(v).len() == v.size(),
{
}

impl IlstBox {
    pub fn box_size(&self) -> (r: u64)
        requires
            self@.wf(),
        ensures
            r == self@.size(),
    {
        8 + self.data.len() as u64
    }

    /// Decode an item-list payload: the bytes are taken verbatim.
    pub fn read_box(data: &Vec<u8>, pos: usize, plen: usize) -> (r: Result<IlstBox, Error>)
        requires
            pos + plen <= data@.len(),
        ensures
            r is Ok && parse_ilst(data@.subrange(pos as int, pos + plen)) == Some(r.unwrap()@),
    {
        Ok(IlstBox { data: get_bytes(data, pos, plen) })
    }

    /// Encode this box. The bytes emitted are exactly the declared size.
    pub fn write_box(&self, out: &mut Vec<u8>) -> (r: Result<u64, Error>)
        requires
            self@.wf(),
        ensures
            r is Ok && r.unwrap() == self@.size(),
            final(out)@ == old(out)@ + ser_ilst(self@),
    {
        let size = self.box_size();
        BoxHeader::new(BoxType::IlstBox, size).write(out);
        put_bytes(out, &self.data);
        assert(out@ =~= old(out)@ + ser_ilst(self@));
        Ok(size)
    }
}

/// The metadata box: a full box that may carry an item list.
#[derive(Debug)]
pub struct MetaBox {
    pub version: u8,
    pub flags: u32,
    pub ilst: Option<IlstBox>,
}

/// Mathematical image of a metadata box.
pub struct MetaView {
    pub version: u8,
    pub flags: u32,
    pub ilst: Option<IlstView>,
}

impl View for MetaBox {
    type V = MetaView;

    open spec fn view(&self) -> MetaView {
        MetaView {
            version: self.version,
            flags: self.flags,
            ilst: match self.ilst {
                Some(ref i) => Some(i@),
                None => None,
            },
        }
    }
}

impl MetaView {
    pub open spec fn wf(self) -> bool {
        &&& self.version == 0
        &&& self.flags < 0x1000000
        &&& match self.ilst {
            Some(i) => i.wf(),
            None => true,
        }
        &&& self.size() <= 0xffffffff
    }

    pub open spec fn size(self) -> int {
        12 + match self.ilst {
            Some(i) => i.size(),
            None => 0,
        }
    }
}

/// Payload image of a metadata box.
#[verifier::opaque]
pub open spec fn payload_meta(v: MetaView) -> Seq<u8> {
    ser_vf(v.version, v.flags) + match v.ilst {
        Some(i) => ser_ilst(i),
        None => Seq::<u8>::empty(),
    }
}

/// Byte image of a whole metadata box.
#[verifier::opaque]
pub open spec fn ser_meta(v: MetaView) -> Seq<u8> {
    ser_header(META, v.size() as u64) + payload_meta(v)
}

/// Walk the children of a metadata box.
pub open spec fn parse_meta_children(b: Seq<u8>, il: Option<IlstView>) -> Option<Option<IlstView>>
    decreases b.len(),
{
    if b.len() < 8 {
        Some(il)
    } else {
        match parse_header(b) {
            None => None,
            Some((name, size, hl)) => {
                if size == 0 {
                    Some(il)
                } else if size > b.len() {
                    None
                } else if name == BoxType::IlstBox {
                    match parse_ilst(b.subrange(hl, size as int)) {
                        None => None,
                        Some(x) => parse_meta_children(
                            b.subrange(size as int, b.len() as int),
                            Some(x),
                        ),
                    }
                } else {
                    parse_meta_children(b.subrange(size as int, b.len() as int), il)
                }
            },
        }
    }
}

/// Parse a metadata payload; only version 0 is known.
#[verifier::opaque]
pub open spec fn parse_meta(p: Seq<u8>) -> Option<MetaView> {
    if p.len() < 4 {
        None
    } else if p[0] != 0 {
        None
    } else {
        match parse_meta_children(p.subrange(4, p.len() as int), None) {
            None => None,
            Some(il) => Some(MetaView { version: 0, flags: pbe24(p, 1) as u32, ilst: il }),
        }
    }
}

/// The parse of a metadata payload, written out.
pub proof fn lemma_parse_meta(p: Seq<u8>)
    ensures
        parse_meta(p) == (if p.len() < 4 {
            None
        } else if p[0] != 0 {
            None
        } else {
            match parse_meta_children(p.subrange(4, p.len() as int), None) {
                None => None,
                Some(il) => Some(MetaView { version: 0, flags: pbe24(p, 1) as u32, ilst: il }),
            }
        }),
{
    reveal(parse_meta);
}

/// The declared size of a metadata box equals the bytes emitted.
pub proof fn lemma_meta_size(v: MetaView)
    requires
        v.wf(),
    ensures
        ser_meta(v).len() == v.size(),
        payload_meta(v).len() == v.size() - 8,
{
    reveal(ser_meta);
    reveal(payload_meta);
}

/// A metadata image is its header followed by its payload.
pub proof fn lemma_ser_meta_shape(v: MetaView)
    ensures
        ser_meta(v) == ser_header(META, v.size() as u64) + payload_meta(v),
{
    reveal(ser_meta);
}

/// Decoding an encoded metadata box gives back the same value.
pub proof fn lemma_meta_roundtrip(v: MetaView)
    requires
        v.wf(),
    ensures
        parse_meta(payload_meta(v)) == Some(v),
{
    reveal_with_fuel(parse_meta_children, 2);
    reveal(payload_meta);
    let p = payload_meta(v);
    lemma_parse_meta(p);
    assert(p.subrange(1, 4) =~= be24(v.flags));
    lemma_pbe24_sub(p, 1, v.flags);
    let cs = p.subrange(4, p.len() as int);
    match v.ilst {
        Some(i) => {
            assert(cs =~= ser_header(ILST, i.size() as u64) + i.data);
            lemma_header_roundtrip(BoxType::IlstBox, i.size() as u64, i.data);
            assert(cs.subrange(8, i.size() as int) =~= i.data);
            assert(cs.subrange(i.size() as int, cs.len() as int) =~= Seq::<u8>::empty());
        },
        None => {
            assert(cs.len() == 0);
        },
    }
}

impl MetaBox {
    pub fn box_size(&self) -> (r: u64)
        requires
            self@.wf(),
        ensures
            r == self@.size(),
    {
        match self.ilst {
            Some(ref i) => 12 + i.box_size(),
            None => 12,
        }
    }

    /// Decode a metadata payload of `plen` bytes at `pos`.
    pub fn read_box(data: &Vec<u8>, pos: usize, plen: usize) -> (r: Result<MetaBox, Error>)
        requires
            pos + plen <= data@.len(),
        ensures
            match r {
                Ok(b) => parse_meta(data@.subrange(pos as int, pos + plen)) == Some(b@),
                Err(e) => parse_meta(data@.subrange(pos as int, pos + plen)) is None,
            },
    {
        let n = data.len();
        let ghost p = data@.subrange(pos as int, pos + plen);
        proof {
            lemma_parse_meta(p);
        }
        if plen < 4 {
            return Err(Error::ShortRead);
        }
        let version = get_u8(data, pos);
        if version != 0 {
            return Err(Error::InvalidData);
        }
        let flags = get_u24(data, pos + 1);
        proof {
            assert(pbe24(p, 1) == pbe24(data@, pos + 1));
        }
        let end = pos + plen;
        let mut cur = pos + 4;
        let mut ilst: Option<IlstBox> = None;
        let ghost children0 = p.subrange(4, plen as int);
        proof {
            assert(children0 =~= data@.subrange(cur as int, end as int));
        }
        loop
            invariant
                plen >= 4,
                pos + 4 <= cur <= end,
                end == pos + plen,
                pos + plen <= data@.len(),
                data@.len() <= usize::MAX,
                p == data@.subrange(pos as int, pos + plen),
                children0 == p.subrange(4, plen as int),
                parse_meta_children(children0, None) == parse_meta_children(
                    data@.subrange(cur as int, end as int),
                    opt_ilst_view(ilst),
                ),
            ensures
                parse_meta_children(children0, None) == Some(opt_ilst_view(ilst)),
            decreases end - cur,
        {
            let ghost region = data@.subrange(cur as int, end as int);
            proof {
                lemma_parse_meta(p);
            }
            if end - cur < 8 {
                break ;
            }
            let (header, hl) = match BoxHeader::read(data, cur, end) {
                Ok(v) => v,
                Err(e) => {
                    proof {
                        assert(parse_meta_children(region, opt_ilst_view(ilst)) is None);
                    }
                    return Err(e);
                },
            };
            let size = header.size;
            if size == 0 {
                break ;
            }
            if size > (end - cur) as u64 {
                proof {
                    assert(parse_meta_children(region, opt_ilst_view(ilst)) is None);
                }
                return Err(Error::InvalidData);
            }
            let szu = size as usize;
            proof {
                assert(region.subrange(hl as int, szu as int) =~= data@.subrange(
                    cur + hl,
                    cur + szu,
                ));
                assert(region.subrange(szu as int, region.len() as int) =~= data@.subrange(
                    cur + szu,
                    end as int,
                ));
            }
            match header.name {
                BoxType::IlstBox => {
                    let x = match IlstBox::read_box(data, cur + hl, szu - hl) {
                        Ok(x) => x,
                        Err(e) => {
                            proof {
                                assert(parse_meta_children(region, opt_ilst_view(ilst)) is None);
                            }
                            return Err(e);
                        },
                    };
                    ilst = Some(x);
                },
                _ => {},
            }
            cur = cur + szu;
        }
        Ok(MetaBox { version, flags, ilst })
    }

    /// Encode this box. The bytes emitted are exactly the declared size.
    pub fn write_box(&self, out: &mut Vec<u8>) -> (r: Result<u64, Error>)
        requires
            self@.wf(),
        ensures
            r is Ok && r.unwrap() == self@.size(),
            final(out)@ == old(out)@ + ser_meta(self@),
    {
        let size = self.box_size();
        BoxHeader::new(BoxType::MetaBox, size).write(out);
        put_vf(out, self.version, self.flags);
        match self.ilst {
            Some(ref i) => {
                i.write_box(out);
            },
            None => {},
        }
        proof {
            reveal(ser_meta);
            reveal(payload_meta);
            assert(out@ =~= old(out)@ + ser_meta(self@));
        }
        Ok(size)
    }
}

/// The image of an optional item list.
pub open spec fn opt_ilst_view(o: Option<IlstBox>) -> Option<IlstView> {
    match o {
        Some(b) => Some(b@),
        None => None,
    }
}

/// Field-by-field copy.
pub fn clone_meta(b: &MetaBox) -> (r: MetaBox)
    ensures
        r@ == b@,
{
    MetaBox {
        version: b.version,
        flags: b.flags,
        ilst: match b.ilst {
            Some(ref i) => Some(IlstBox { data: clone_bytes(&i.data) }),
            None => None,
        },
    }
}

/// The user data box: may carry a metadata box.
#[derive(Debug)]
pub struct UdtaBox {
    pub meta: Option<MetaBox>,
}

/// Mathematical image of a user data box.
pub struct UdtaView {
    pub meta: Option<MetaView>,
}

impl View for UdtaBox {
    type V = UdtaView;

    open spec fn view(&self) -> UdtaView {
        UdtaView {
            meta: match self.meta {
                Some(ref m) => Some(m@),
                None => None,
            },
        }
    }
}

impl UdtaView {
    pub open spec fn wf(self) -> bool {
        &&& match self.meta {
            Some(m) => m.wf(),
            None => true,
        }
        &&& self.size() <= 0xffffffff
    }

    pub open spec fn size(self) -> int {
        8 + match self.meta {
            Some(m) => m.size(),
            None => 0,
        }
    }
}

/// Payload image of a user data box.
#[verifier::opaque]
pub open spec fn payload_udta(v: UdtaView) -> Seq<u8> {
    match v.meta {
        Some(m) => ser_meta(m),
        None => Seq::<u8>::empty(),
    }
}

/// Byte image of a whole user data box.
#[verifier::opaque]
pub open spec fn ser_udta(v: UdtaView) -> Seq<u8> {
    ser_header(UDTA, v.size() as u64) + payload_udta(v)
}

/// Walk the children of a user data box.
pub open spec fn parse_udta_children(b: Seq<u8>, me: Option<MetaView>) -> Option<Option<MetaView>>
    decreases b.len(),
{
    if b.len() < 8 {
        Some(me)
    } else {
        match parse_header(b) {
            None => None,
            Some((name, size, hl)) => {
                if size == 0 {
                    Some(me)
                } else if size > b.len() {
                    None
                } else if name == BoxType::MetaBox {
                    match parse_meta(b.subrange(hl, size as int)) {
                        None => None,
                        Some(x) => parse_udta_children(
                            b.subrange(size as int, b.len() as int),
                            Some(x),
                        ),
                    }
                } else {
                    parse_udta_children(b.subrange(size as int, b.len() as int), me)
                }
            },
        }
    }
}

/// Parse a user data payload.
#[verifier::opaque]
pub open spec fn parse_udta(p: Seq<u8>) -> Option<UdtaView> {
    match parse_udta_children(p, None) {
        None => None,
        Some(me) => Some(UdtaView { meta: me }),
    }
}

/// The parse of a user-data payload, written out.
pub proof fn lemma_parse_udta(p: Seq<u8>)
    ensures
        parse_udta(p) == (match parse_udta_children(p, None) {
            None => None,
            Some(me) => Some(UdtaView { meta: me }),
        }),
{
    reveal(parse_udta);
}

/// The declared size of a user data box equals the bytes emitted.
pub proof fn lemma_udta_size(v: UdtaView)
    requires
        v.wf(),
    ensures
        ser_udta(v).len() == v.size(),
        payload_udta(v).len() == v.size() - 8,
{
    reveal(ser_udta);
    reveal(payload_udta);
    match v.meta {
        Some(m) => lemma_meta_size(m),
        None => {},
    }
}

/// A user-data image is its header followed by its payload.
pub proof fn lemma_ser_udta_shape(v: UdtaView)
    ensures
        ser_udta(v) == ser_header(UDTA, v.size() as u64) + payload_udta(v),
{
    reveal(ser_udta);
}

/// Decoding an encoded user data box gives back the same value.
pub proof fn lemma_udta_roundtrip(v: UdtaView)
    requires
        v.wf(),
    ensures
        parse_udta(payload_udta(v)) == Some(v),
{
    reveal_with_fuel(parse_udta_children, 2);
    reveal(payload_udta);
    let p = payload_udta(v);
    lemma_parse_udta(p);
    match v.meta {
        Some(m) => {
            lemma_meta_size(m);
            lemma_ser_meta_shape(m);
            assert(p =~= ser_header(META, m.size() as u64) + payload_meta(m));
            lemma_header_roundtrip(BoxType::MetaBox, m.size() as u64, payload_meta(m));
            assert(p.subrange(8, m.size() as int) =~= payload_meta(m));
            lemma_meta_roundtrip(m);
            assert(p.subrange(m.size() as int, p.len() as int) =~= Seq::<u8>::empty());
        },
        None => {
            assert(p.len() == 0);
        },
    }
}

impl UdtaBox {
    pub fn box_size(&self) -> (r: u64)
        requires
            self@.wf(),
        ensures
            r == self@.size(),
    {
        match self.meta {
            Some(ref m) => 8 + m.box_size(),
            None => 8,
        }
    }

    /// Decode a user-data payload of `plen` bytes at `pos`.
    pub fn read_box(data: &Vec<u8>, pos: usize, plen: usize) -> (r: Result<UdtaBox, Error>)
        requires
            pos + plen <= data@.len(),
        ensures
            match r {
                Ok(b) => parse_udta(data@.subrange(pos as int, pos + plen)) == Some(b@),
                Err(e) => parse_udta(data@.subrange(pos as int, pos + plen)) is None,
            },
    {
        let n = data.len();
        let ghost p = data@.subrange(pos as int, pos + plen);
        proof {
            lemma_parse_udta(p);
        }
        let end = pos + plen;
        let mut cur = pos;
        let mut meta: Option<MetaBox> = None;
        loop
            invariant
                pos <= cur <= end,
                end == pos + plen,
                pos + plen <= data@.len(),
                data@.len() <= usize::MAX,
                p == data@.subrange(pos as int, pos + plen),
                parse_udta_children(p, None) == parse_udta_children(
                    data@.subrange(cur as int, end as int),
                    opt_meta_view(meta),
                ),
            ensures
                parse_udta_children(p, None) == Some(opt_meta_view(meta)),
            decreases end - cur,
        {
            let ghost region = data@.subrange(cur as int, end as int);
            proof {
                lemma_parse_udta(p);
            }
            if end - cur < 8 {
                break ;
            }
            let (header, hl) = match BoxHeader::read(data, cur, end) {
                Ok(v) => v,
                Err(e) => {
                    proof {
                        assert(parse_udta_children(region, opt_meta_view(meta)) is None);
                    }
                    return Err(e);
                },
            };
            let size = header.size;
            if size == 0 {
                break ;
            }
            if size > (end - cur) as u64 {
                proof {
                    assert(parse_udta_children(region, opt_meta_view(meta)) is None);
                }
                return Err(Error::InvalidData);
            }
            let szu = size as usize;
            proof {
                assert(region.subrange(hl as int, szu as int) =~= data@.subrange(
                    cur + hl,
                    cur + szu,
                ));
                assert(region.subrange(szu as int, region.len() as int) =~= data@.subrange(
                    cur + szu,
                    end as int,
                ));
            }
            match header.name {
                BoxType::MetaBox => {
                    let x = match MetaBox::read_box(data, cur + hl, szu - hl) {
                        Ok(x) => x,
                        Err(e) => {
                            proof {
                                assert(parse_udta_children(region, opt_meta_view(meta)) is None);
                            }
                            return Err(e);
                        },
                    };
                    meta = Some(x);
                },
                _ => {},
            }
            cur = cur + szu;
        }
        Ok(UdtaBox { meta })
    }

    /// Encode this box. The bytes emitted are exactly the declared size.
    pub fn write_box(&self, out: &mut Vec<u8>) -> (r: Result<u64, Error>)
        requires
            self@.wf(),
        ensures
            r is Ok && r.unwrap() == self@.size(),
            final(out)@ == old(out)@ + ser_udta(self@),
    {
        let size = self.box_size();
        BoxHeader::new(BoxType::UdtaBox, size).write(out);
        match self.meta {
            Some(ref m) => {
                m.write_box(out);
            },
            None => {},
        }
        proof {
            reveal(ser_udta);
            reveal(payload_udta);
            assert(out@ =~= old(out)@ + ser_udta(self@));
        }
        Ok(size)
    }
}

/// The image of an optional metadata box.
pub open spec fn opt_meta_view(o: Option<MetaBox>) -> Option<MetaView> {
    match o {
        Some(b) => Some(b@),
        None => None,
    }
}

/// Field-by-field copy.
pub fn clone_udta(b: &UdtaBox) -> (r: UdtaBox)
    ensures
        r@ == b@,
{
    UdtaBox {
        meta: match b.meta {
            Some(ref m) => Some(clone_meta(m)),
            None => None,
        },
    }
}

/// The movie box: movie header, tracks and user data.
#[derive(Debug)]
pub struct MoovBox {
    pub mvhd: Option<MvhdBox>,
    pub traks: Vec<TrakBox>,
    pub udta: Option<UdtaBox>,
}

/// Mathematical image of a movie box.
pub struct MoovView {
    pub mvhd: Option<MvhdBox>,
    pub traks: Seq<TrakView>,
    pub udta: Option<UdtaView>,
}

impl View for MoovBox {
    type V = MoovView;

    open spec fn view(&self) -> MoovView {
        MoovView {
            mvhd: self.mvhd,
            traks: self.traks@.map_values(|t: TrakBox| t@),
            udta: opt_udta_view_ref(&self.udta),
        }
    }
}

/// The image of an optional user data box.
pub open spec fn opt_udta_view_ref(o: &Option<UdtaBox>) -> Option<UdtaView> {
    match o {
        Some(u) => Some(u@),
        None => None,
    }
}

/// Total declared size of a run of track boxes.
pub open spec fn traks_size(s: Seq<TrakView>) -> int
    decreases s.len(),
{
    if s.len() == 0 {
        0
    } else {
        s[0].size() + traks_size(s.drop_first())
    }
}

/// Byte image of a run of track boxes.
pub open spec fn ser_traks(s: Seq<TrakView>) -> Seq<u8>
    decreases s.len(),
{
    if s.len() == 0 {
        Seq::empty()
    } else {
        ser_trak(s[0]) + ser_traks(s.drop_first())
    }
}

/// The image of a track run is as long as the sizes its boxes declare.
pub proof fn lemma_traks_size(s: Seq<TrakView>)
    requires
        forall|i: int| 0 <= i < s.len() ==> (#[trigger] s[i]).wf(),
    ensures
        ser_traks(s).len() == traks_size(s),
        traks_size(s) >= 0,
    decreases s.len(),
{
    if s.len() > 0 {
        lemma_trak_size(s[0]);
        lemma_traks_size(s.drop_first());
    }
}

/// Appending one track appends its image.
pub proof fn lemma_ser_traks_snoc(s: Seq<TrakView>, t: TrakView)
    ensures
        ser_traks(s.push(t)) == ser_traks(s) + ser_trak(t),
        traks_size(s.push(t)) == traks_size(s) + t.size(),
    decreases s.len(),
{
    assert(s.push(t)[0] == if s.len() == 0 { t } else { s[0] });
    if s.len() == 0 {
        assert(s.push(t).drop_first() =~= Seq::<TrakView>::empty());
        assert(ser_traks(s.push(t).drop_first()) == Seq::<u8>::empty());
        assert(traks_size(s.push(t).drop_first()) == 0);
        assert(ser_traks(s.push(t)) =~= ser_traks(s) + ser_trak(t));
        assert(traks_size(s.push(t)) == traks_size(s) + t.size());
    } else {
        assert(s.push(t).drop_first() =~= s.drop_first().push(t));
        lemma_ser_traks_snoc(s.drop_first(), t);
        assert(ser_traks(s.push(t)) =~= ser_traks(s) + ser_trak(t));
        assert(traks_size(s.push(t)) == traks_size(s) + t.size());
    }
}

impl MoovView {
    pub open spec fn wf(self) -> bool {
        &&& match self.mvhd {
            Some(m) => m.wf(),
            None => true,
        }
        &&& forall|i: int| 0 <= i < self.traks.len() ==> (#[trigger] self.traks[i]).wf()
        &&& match self.udta {
            Some(u) => u.wf(),
            None => true,
        }
        &&& self.size() <= 0xffffffff
    }

    pub open spec fn size(self) -> int {
        8 + (match self.mvhd {
            Some(m) => m.size(),
            None => 0,
        }) + traks_size(self.traks) + (match self.udta {
            Some(u) => u.size(),
            None => 0,
        })
    }
}

/// Payload image of a movie box, children in canonical order: movie header,
/// tracks, user data.
#[verifier::opaque]
pub open spec fn payload_moov(v: MoovView) -> Seq<u8> {
    (match v.mvhd {
        Some(m) => ser_mvhd(m),
        None => Seq::<u8>::empty(),
    }) + ser_traks(v.traks) + (match v.udta {
        Some(u) => ser_udta(u),
        None => Seq::<u8>::empty(),
    })
}

/// Byte image of a whole movie box.
#[verifier::opaque]
pub open spec fn ser_moov(v: MoovView) -> Seq<u8> {
    ser_header(MOOV, v.size() as u64) + payload_moov(v)
}

/// Walk the children of a movie box: each track found joins the list in
/// stream order.
pub open spec fn parse_moov_children(
    b: Seq<u8>,
    mv: Option<MvhdBox>,
    traks: Seq<TrakView>,
    ud: Option<UdtaView>,
) -> Option<(Option<MvhdBox>, Seq<TrakView>, Option<UdtaView>)>
    decreases b.len(),
{
    if b.len() < 8 {
        Some((mv, traks, ud))
    } else {
        match parse_header(b) {
            None => None,
            Some((name, size, hl)) => {
                if size == 0 {
                    Some((mv, traks, ud))
                } else if size > b.len() {
                    None
                } else {
                    let payload = b.subrange(hl, size as int);
                    let rest = b.subrange(size as int, b.len() as int);
                    if name == BoxType::MvhdBox {
                        match parse_mvhd(payload) {
                            None => None,
                            Some(x) => parse_moov_children(rest, Some(x), traks, ud),
                        }
                    } else if name == BoxType::TrakBox {
                        match parse_trak(payload) {
                            None => None,
                            Some(x) => parse_moov_children(rest, mv, traks.push(x), ud),
                        }
                    } else if name == BoxType::UdtaBox {
                        match parse_udta(payload) {
                            None => None,
                            Some(x) => parse_moov_children(rest, mv, traks, Some(x)),
                        }
                    } else {
                        parse_moov_children(rest, mv, traks, ud)
                    }
                }
            },
        }
    }
}

/// Parse a movie payload. Every child is optional: an empty movie box is a
/// valid one.
#[verifier::opaque]
pub open spec fn parse_moov(p: Seq<u8>) -> Option<MoovView> {
    match parse_moov_children(p, None, Seq::empty(), None) {
        None => None,
        Some((mv, traks, ud)) => Some(MoovView { mvhd: mv, traks, udta: ud }),
    }
}

/// The parse of a movie payload, written out.
pub proof fn lemma_parse_moov(p: Seq<u8>)
    ensures
        parse_moov(p) == (match parse_moov_children(p, None, Seq::empty(), None) {
            None => None,
            Some((mv, traks, ud)) => Some(MoovView { mvhd: mv, traks, udta: ud }),
        }),
{
    reveal(parse_moov);
}

/// The declared size of a movie box equals the bytes emitted, tracks and
/// user data included.
pub proof fn lemma_moov_size(v: MoovView)
    requires
        v.wf(),
    ensures
        ser_moov(v).len() == v.size(),
        payload_moov(v).len() == v.size() - 8,
{
    reveal(ser_moov);
    reveal(payload_moov);
    lemma_traks_size(v.traks);
    match v.mvhd {
        Some(m) => lemma_mvhd_size(m),
        None => {},
    }
    match v.udta {
        Some(u) => lemma_udta_size(u),
        None => {},
    }
}

/// A movie image is its header followed by its payload.
pub proof fn lemma_ser_moov_shape(v: MoovView)
    ensures
        ser_moov(v) == ser_header(MOOV, v.size() as u64) + payload_moov(v),
{
    reveal(ser_moov);
}

/// Walking the image of a track run followed by the optional user data
/// appends those tracks in order and fills the user data slot.
proof fn lemma_moov_children_traks(
    b: Seq<u8>,
    mv: Option<MvhdBox>,
    acc: Seq<TrakView>,
    rest: Seq<TrakView>,
    ud: Option<UdtaView>,
)
    requires
        forall|i: int| 0 <= i < rest.len() ==> (#[trigger] rest[i]).wf(),
        match ud {
            Some(u) => u.wf(),
            None => true,
        },
        b == ser_traks(rest) + (match ud {
            Some(u) => ser_udta(u),
            None => Seq::<u8>::empty(),
        }),
    ensures
        parse_moov_children(b, mv, acc, None) == Some((mv, acc + rest, ud)),
    decreases rest.len(),
{
    reveal_with_fuel(parse_moov_children, 2);
    let udb = match ud {
        Some(u) => ser_udta(u),
        None => Seq::<u8>::empty(),
    };
    if rest.len() == 0 {
        assert(b =~= udb);
        assert(acc + rest =~= acc);
        match ud {
            Some(u) => {
                lemma_udta_size(u);
                lemma_ser_udta_shape(u);
                assert(b =~= ser_header(UDTA, u.size() as u64) + payload_udta(u));
                lemma_header_roundtrip(BoxType::UdtaBox, u.size() as u64, payload_udta(u));
                assert(b.subrange(8, u.size() as int) =~= payload_udta(u));
                lemma_udta_roundtrip(u);
                assert(b.subrange(u.size() as int, b.len() as int) =~= Seq::<u8>::empty());
                assert(parse_moov_children(b, mv, acc, None) == Some((mv, acc, Some(u))));
            },
            None => {
                assert(b.len() == 0);
            },
        }
    } else {
        let t = rest[0];
        let rest1 = rest.drop_first();
        lemma_trak_size(t);
        crate::trak::lemma_ser_trak_shape(t);
        lemma_traks_size(rest1);
        let tail = ser_traks(rest1) + udb;
        assert(b =~= ser_header(TRAK, t.size() as u64) + (payload_trak(t) + tail));
        lemma_header_roundtrip(BoxType::TrakBox, t.size() as u64, payload_trak(t) + tail);
        assert(b.subrange(8, t.size() as int) =~= payload_trak(t));
        lemma_trak_roundtrip(t);
        assert(b.subrange(t.size() as int, b.len() as int) =~= tail);
        assert(parse_moov_children(b, mv, acc, None) == parse_moov_children(
            tail,
            mv,
            acc.push(t),
            None,
        ));
        lemma_moov_children_traks(tail, mv, acc.push(t), rest1, ud);
        assert(acc.push(t) + rest1 =~= acc + rest);
    }
}

/// Decoding an encoded movie box gives back the same value, with the tracks
/// in the order they were written.
#[verifier::rlimit(60)]
pub proof fn lemma_moov_roundtrip(v: MoovView)
    requires
        v.wf(),
    ensures
        parse_moov(payload_moov(v)) == Some(v),
{
    reveal_with_fuel(parse_moov_children, 2);
    reveal(payload_moov);
    let p = payload_moov(v);
    lemma_parse_moov(p);
    let tail = ser_traks(v.traks) + (match v.udta {
        Some(u) => ser_udta(u),
        None => Seq::<u8>::empty(),
    });
    match v.mvhd {
        Some(m) => {
            lemma_ser_mvhd_shape(m);
            lemma_mvhd_size(m);
            assert(p =~= ser_header(MVHD, 108u64) + (payload_mvhd(m) + tail));
            lemma_header_roundtrip(BoxType::MvhdBox, 108u64, payload_mvhd(m) + tail);
            assert(p.subrange(8, 108) =~= payload_mvhd(m));
            lemma_mvhd_roundtrip(m);
            assert(p.subrange(108, p.len() as int) =~= tail);
            assert(parse_moov_children(p, None, Seq::empty(), None) == parse_moov_children(
                tail,
                Some(m),
                Seq::empty(),
                None,
            ));
            lemma_moov_children_traks(tail, Some(m), Seq::empty(), v.traks, v.udta);
        },
        None => {
            assert(p =~= tail);
            lemma_moov_children_traks(p, None, Seq::empty(), v.traks, v.udta);
        },
    }
    assert(Seq::<TrakView>::empty() + v.traks =~= v.traks);
}

impl MoovBox {
    pub fn box_size(&self) -> (r: u64)
        requires
            self@.wf(),
        ensures
            r == self@.size(),
    {
        let mut size: u64 = 8;
        match self.mvhd {
            Some(ref m) => {
                size = size + m.box_size();
            },
            None => {},
        }
        let ghost traks = self@.traks;
        let mut i: usize = 0;
        proof {
            lemma_traks_size(traks);
        }
        while i < self.traks.len()
            invariant
                i <= self.traks@.len(),
                traks == self@.traks,
                self@.wf(),
                size == 8 + (match self@.mvhd {
                    Some(m) => m.size(),
                    None => 0int,
                }) + traks_size(traks.subrange(0, i as int)),
                traks_size(traks.subrange(0, i as int)) <= traks_size(traks),
            decreases self.traks@.len() - i,
        {
            let ghost pre = traks.subrange(0, i as int);
            proof {
                lemma_ser_traks_snoc(pre, traks[i as int]);
                assert(traks.subrange(0, i + 1) =~= pre.push(traks[i as int]));
                lemma_traks_size_prefix(traks, i + 1);
            }
            size = size + self.traks[i].box_size();
            i = i + 1;
        }
        proof {
            assert(traks.subrange(0, traks.len() as int) =~= traks);
        }
        match self.udta {
            Some(ref u) => {
                size = size + u.box_size();
            },
            None => {},
        }
        size
    }

    /// An empty movie box.
    pub fn default() -> (r: MoovBox)
        ensures
            r@.wf(),
            r@.mvhd is None && r@.traks.len() == 0 && r@.udta is None,
    {
        let r = MoovBox { mvhd: None, traks: Vec::new(), udta: None };
        proof {
            assert(r@.traks =~= Seq::<TrakView>::empty());
        }
        r
    }

    /// Decode a movie payload of `plen` bytes at `pos`.
    pub fn read_box(data: &Vec<u8>, pos: usize, plen: usize) -> (r: Result<MoovBox, Error>)
        requires
            pos + plen <= data@.len(),
        ensures
            match r {
                Ok(b) => parse_moov(data@.subrange(pos as int, pos + plen)) == Some(b@),
                Err(e) => parse_moov(data@.subrange(pos as int, pos + plen)) is None,
            },
    {
        let n = data.len();
        let ghost p = data@.subrange(pos as int, pos + plen);
        proof {
            lemma_parse_moov(p);
        }
        let end = pos + plen;
        let mut cur = pos;
        let mut mvhd: Option<MvhdBox> = None;
        let mut traks: Vec<TrakBox> = Vec::new();
        let mut udta: Option<UdtaBox> = None;
        proof {
            assert(traks@.map_values(|t: TrakBox| t@) =~= Seq::<TrakView>::empty());
        }
        loop
            invariant
                pos <= cur <= end,
                end == pos + plen,
                pos + plen <= data@.len(),
                data@.len() <= usize::MAX,
                p == data@.subrange(pos as int, pos + plen),
                parse_moov_children(p, None, Seq::empty(), None) == parse_moov_children(
                    data@.subrange(cur as int, end as int),
                    mvhd,
                    traks@.map_values(|t: TrakBox| t@),
                    opt_udta_view_ref(&udta),
                ),
            ensures
                parse_moov_children(p, None, Seq::empty(), None) == Some(
                    (mvhd, traks@.map_values(|t: TrakBox| t@), opt_udta_view_ref(&udta)),
                ),
            decreases end - cur,
        {
            let ghost region = data@.subrange(cur as int, end as int);
            proof {
                lemma_parse_moov(p);
            }
            if end - cur < 8 {
                break ;
            }
            let (header, hl) = match BoxHeader::read(data, cur, end) {
                Ok(v) => v,
                Err(e) => {
                    proof {
                        assert(parse_moov_children(
                            region,
                            mvhd,
                            traks@.map_values(|t: TrakBox| t@),
                            opt_udta_view_ref(&udta),
                        ) is None);
                    }
                    return Err(e);
                },
            };
            let size = header.size;
            if size == 0 {
                break ;
            }
            if size > (end - cur) as u64 {
                proof {
                    assert(parse_moov_children(
                        region,
                        mvhd,
                        traks@.map_values(|t: TrakBox| t@),
                        opt_udta_view_ref(&udta),
                    ) is None);
                }
                return Err(Error::InvalidData);
            }
            let szu = size as usize;
            proof {
                assert(region.subrange(hl as int, szu as int) =~= data@.subrange(
                    cur + hl,
                    cur + szu,
                ));
                assert(region.subrange(szu as int, region.len() as int) =~= data@.subrange(
                    cur + szu,
                    end as int,
                ));
            }
            match header.name {
                BoxType::MvhdBox => {
                    let x = match MvhdBox::read_box(data, cur + hl, szu - hl) {
                        Ok(x) => x,
                        Err(e) => {
                            proof {
                                assert(parse_moov_children(
                                    region,
                                    mvhd,
                                    traks@.map_values(|t: TrakBox| t@),
                                    opt_udta_view_ref(&udta),
                                ) is None);
                            }
                            return Err(e);
                        },
                    };
                    mvhd = Some(x);
                },
                BoxType::TrakBox => {
                    let x = match TrakBox::read_box(data, cur + hl, szu - hl) {
                        Ok(x) => x,
                        Err(e) => {
                            proof {
                                assert(parse_moov_children(
                                    region,
                                    mvhd,
                                    traks@.map_values(|t: TrakBox| t@),
                                    opt_udta_view_ref(&udta),
                                ) is None);
                            }
                            return Err(e);
                        },
                    };
                    let ghost pre = traks@.map_values(|t: TrakBox| t@);
                    traks.push(x);
                    proof {
                        assert(traks@.map_values(|t: TrakBox| t@) =~= pre.push(x@));
                    }
                },
                BoxType::UdtaBox => {
                    let x = match UdtaBox::read_box(data, cur + hl, szu - hl) {
                        Ok(x) => x,
                        Err(e) => {
                            proof {
                                assert(parse_moov_children(
                                    region,
                                    mvhd,
                                    traks@.map_values(|t: TrakBox| t@),
                                    opt_udta_view_ref(&udta),
                                ) is None);
                            }
                            return Err(e);
                        },
                    };
                    udta = Some(x);
                },
                _ => {},
            }
            cur = cur + szu;
        }
        let r = MoovBox { mvhd, traks, udta };
        proof {
            assert(parse_moov(p) == Some(r@));
        }
        Ok(r)
    }

    /// Encode this box, children in canonical order. The bytes emitted are
    /// exactly the declared size.
    pub fn write_box(&self, out: &mut Vec<u8>) -> (r: Result<u64, Error>)
        requires
            self@.wf(),
        ensures
            r is Ok && r.unwrap() == self@.size(),
            final(out)@ == old(out)@ + ser_moov(self@),
    {
        let size = self.box_size();
        BoxHeader::new(BoxType::MoovBox, size).write(out);
        match self.mvhd {
            Some(ref m) => {
                m.write_box(out);
            },
            None => {},
        }
        let ghost traks = self@.traks;
        let ghost base = out@;
        let mut i: usize = 0;
        while i < self.traks.len()
            invariant
                i <= self.traks@.len(),
                traks == self@.traks,
                self@.wf(),
                out@ == base + ser_traks(traks.subrange(0, i as int)),
            decreases self.traks@.len() - i,
        {
            let ghost pre = traks.subrange(0, i as int);
            proof {
                assert(traks[i as int].wf());
            }
            self.traks[i].write_box(out);
            i = i + 1;
            proof {
                lemma_ser_traks_snoc(pre, traks[i - 1]);
                assert(traks.subrange(0, i as int) =~= pre.push(traks[i - 1]));
            }
        }
        proof {
            assert(traks.subrange(0, traks.len() as int) =~= traks);
        }
        match self.udta {
            Some(ref u) => {
                u.write_box(out);
            },
            None => {},
        }
        proof {
            reveal(ser_moov);
            reveal(payload_moov);
            assert(out@ =~= old(out)@ + ser_moov(self@));
        }
        Ok(size)
    }
}

/// A prefix of a track run never declares more bytes than the whole run.
pub proof fn lemma_traks_size_prefix(s: Seq<TrakView>, k: int)
    requires
        0 <= k <= s.len(),
        forall|i: int| 0 <= i < s.len() ==> (#[trigger] s[i]).wf(),
    ensures
        traks_size(s.subrange(0, k)) <= traks_size(s),
    decreases s.len(),
{
    lemma_traks_size(s);
    lemma_traks_size(s.subrange(0, k));
    if k > 0 && s.len() > 0 {
        assert(s.subrange(0, k).drop_first() =~= s.drop_first().subrange(0, k - 1));
        lemma_traks_size_prefix(s.drop_first(), k - 1);
    } else {
        assert(traks_size(s.subrange(0, 0)) == 0);
    }
}

/// Field-by-field copy.
pub fn clone_moov(b: &MoovBox) -> (r: MoovBox)
    ensures
        r@ == b@,
{
    let mut traks: Vec<TrakBox> = Vec::new();
    let mut i: usize = 0;
    while i < b.traks.len()
        invariant
            i <= b.traks@.len(),
            traks@.map_values(|t: TrakBox| t@) =~= b.traks@.map_values(|t: TrakBox| t@).subrange(
                0,
                i as int,
            ),
        decreases b.traks@.len() - i,
    {
        let ghost pre = traks@.map_values(|t: TrakBox| t@);
        let x = clone_trak(&b.traks[i]);
        traks.push(x);
        i = i + 1;
        proof {
            assert(traks@.map_values(|t: TrakBox| t@) =~= pre.push(x@));
            assert(traks@.map_values(|t: TrakBox| t@) =~= b.traks@.map_values(
                |t: TrakBox| t@,
            ).subrange(0, i as int));
        }
    }
    let r = MoovBox {
        mvhd: b.mvhd,
        traks,
        udta: match b.udta {
            Some(ref u) => Some(clone_udta(u)),
            None => None,
        },
    };
    proof {
        assert(b.traks@.map_values(|t: TrakBox| t@).subrange(
            0,
            b.traks@.len() as int,
        ) =~= b.traks@.map_values(|t: TrakBox| t@));
        assert(r@.traks =~= b@.traks);
    }
    r
}

} // verus!

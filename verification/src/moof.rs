//! The movie-fragment box and its fragment header child.

use vstd::prelude::*;

use crate::bytes::{be24, be32, pbe24, pbe32, get_u8, get_u24, get_u32};
use crate::bytes::put_u32;
use crate::header::{BoxHeader, BoxType, MFHD, MOOF, ser_header, ser_vf, put_vf, parse_header,
    lemma_header_roundtrip, lemma_pbe24_sub, lemma_pbe32_sub};
use crate::Error;

verus! {

/// The movie-fragment header box: the fragment's sequence number.
#[derive(Clone, Copy, PartialEq, Eq, Structural, Debug)]
pub struct MfhdBox {
    pub version: u8,
    pub flags: u32,
    pub sequence_number: u32,
}

impl MfhdBox {
    pub open spec fn wf(self) -> bool {
        self.version == 0 && self.flags < 0x1000000
    }

    pub open spec fn size(self) -> int {
        16
    }

    pub fn box_size(&self) -> (r: u64)
        ensures
            r == self.size(),
    {
        16
    }

    /// Decode a fragment-header payload of `plen` bytes at `pos`.
    pub fn read_box(data: &Vec<u8>, pos: usize, plen: usize) -> (r: Result<MfhdBox, Error>)
        requires
            pos + plen <= data@.len(),
        ensures
            match r {
                Ok(b) => parse_mfhd(data@.subrange(pos as int, pos + plen)) == Some(b) && b.wf(),
                Err(e) => parse_mfhd(data@.subrange(pos as int, pos + plen)) is None,
            },
    {
        let n = data.len();
        let ghost p = data@.subrange(pos as int, pos + plen);
        if plen < 8 {
            return Err(Error::ShortRead);
        }
        let version = get_u8(data, pos);
        if version != 0 {
            return Err(Error::InvalidData);
        }
        let flags = get_u24(data, pos + 1);
        let sequence_number = get_u32(data, pos + 4);
        proof {
            assert(pbe24(p, 1) == pbe24(data@, pos + 1));
            assert(pbe32(p, 4) == pbe32(data@, pos + 4));
        }
        Ok(MfhdBox { version, flags, sequence_number })
    }

    /// Encode this box. The bytes emitted are exactly the declared size.
    pub fn write_box(&self, out: &mut Vec<u8>) -> (r: Result<u64, Error>)
        requires
            self.wf(),
        ensures
            r is Ok && r.unwrap() == self.size(),
            final(out)@ == old(out)@ + ser_mfhd(*self),
    {
        let size = self.box_size();
        BoxHeader::new(BoxType::MfhdBox, size).write(out);
        put_vf(out, self.version, self.flags);
        put_u32(out, self.sequence_number);
        assert(out@ =~= old(out)@ + ser_mfhd(*self));
        Ok(size)
    }
}

/// Payload image of a fragment header.
pub open spec fn payload_mfhd(v: MfhdBox) -> Seq<u8> {
    ser_vf(v.version, v.flags) + be32(v.sequence_number)
}

/// Byte image of a whole fragment-header box.
pub open spec fn ser_mfhd(v: MfhdBox) -> Seq<u8> {
    ser_header(MFHD, v.size() as u64) + payload_mfhd(v)
}

/// Parse a fragment-header payload; only version 0 is known.
pub open spec fn parse_mfhd(p: Seq<u8>) -> Option<MfhdBox> {
    if p.len() < 8 {
        None
    } else if p[0] != 0 {
        None
    } else {
        Some(
            MfhdBox {
                version: 0,
                flags: pbe24(p, 1) as u32,
                sequence_number: pbe32(p, 4) as u32,
            },
        )
    }
}

/// The declared size of a fragment header equals the bytes emitted.
pub proof fn lemma_mfhd_size(v: MfhdBox)
    ensures
        ser_mfhd(v).len() == v.size(),
        payload_mfhd(v).len() == v.size() - 8,
{
}

/// Decoding an encoded fragment header gives back the same value.
pub proof fn lemma_mfhd_roundtrip(v: MfhdBox)
    requires
        v.wf(),
    ensures
        parse_mfhd(payload_mfhd(v)) == Some(v),
{
    let p = payload_mfhd(v);
    assert(p.subrange(1, 4) =~= be24(v.flags));
    assert(p.subrange(4, 8) =~= be32(v.sequence_number));
    lemma_pbe24_sub(p, 1, v.flags);
    lemma_pbe32_sub(p, 4, v.sequence_number);
}

/// The movie-fragment box: per-fragment metadata. The library models its
/// fragment header; track-fragment children are skipped.
#[derive(Clone, Copy, PartialEq, Eq, Structural, Debug)]
pub struct MoofBox {
    pub mfhd: MfhdBox,
}

impl MoofBox {
    pub open spec fn wf(self) -> bool {
        self.mfhd.wf()
    }

    pub open spec fn size(self) -> int {
        8 + self.mfhd.size()
    }

    pub fn box_size(&self) -> (r: u64)
        ensures
            r == self.size(),
    {
        8 + self.mfhd.box_size()
    }

    /// Decode a movie-fragment payload of `plen` bytes at `pos`.
    pub fn read_box(data: &Vec<u8>, pos: usize, plen: usize) -> (r: Result<MoofBox, Error>)
        requires
            pos + plen <= data@.len(),
        ensures
            match r {
                Ok(b) => parse_moof(data@.subrange(pos as int, pos + plen)) == Some(b) && b.wf(),
                Err(e) => parse_moof(data@.subrange(pos as int, pos + plen)) is None,
            },
    {
        let n = data.len();
        let ghost p = data@.subrange(pos as int, pos + plen);
        let end = pos + plen;
        let mut cur = pos;
        let mut mfhd: Option<MfhdBox> = None;
        loop
            invariant
                pos <= cur <= end,
                end == pos + plen,
                pos + plen <= data@.len(),
                data@.len() <= usize::MAX,
                p == data@.subrange(pos as int, pos + plen),
                match mfhd {
                    Some(m) => m.wf(),
                    None => true,
                },
                parse_moof_children(p, None) == parse_moof_children(
                    data@.subrange(cur as int, end as int),
                    mfhd,
                ),
            ensures
                parse_moof_children(p, None) == Some(mfhd),
                match mfhd {
                    Some(m) => m.wf(),
                    None => true,
                },
            decreases end - cur,
        {
            let ghost region = data@.subrange(cur as int, end as int);
            if end - cur < 8 {
                break ;
            }
            let (header, hl) = match BoxHeader::read(data, cur, end) {
                Ok(v) => v,
                Err(e) => {
                    proof {
                        assert(parse_moof_children(region, mfhd) is None);
                    }
                    return Err(e);
                },
            };
            let size = header.size;
            if size == 0 {
                break ;
            }
            if size > (end - cur) as u64 {
                proof {
                    assert(parse_moof_children(region, mfhd) is None);
                }
                return Err(Error::InvalidData);
            }
            let szu = size as usize;
            proof {
                assert(region.subrange(hl as int, szu as int) =~= data@.subrange(
                    cur + hl,
                    cur + szu,
                ));
                assert(region.subrange(szu as int, region.len() as int) =~= data@.subrange(
                    cur + szu,
                    end as int,
                ));
            }
            match header.name {
                BoxType::MfhdBox => {
                    let x = match MfhdBox::read_box(data, cur + hl, szu - hl) {
                        Ok(x) => x,
                        Err(e) => {
                            proof {
                                assert(parse_moof_children(region, mfhd) is None);
                            }
                            return Err(e);
                        },
                    };
                    mfhd = Some(x);
                },
                _ => {},
            }
            cur = cur + szu;
        }
        match mfhd {
            Some(m) => Ok(MoofBox { mfhd: m }),
            None => Err(Error::InvalidData),
        }
    }

    /// Encode this box. The bytes emitted are exactly the declared size.
    pub fn write_box(&self, out: &mut Vec<u8>) -> (r: Result<u64, Error>)
        requires
            self.wf(),
        ensures
            r is Ok && r.unwrap() == self.size(),
            final(out)@ == old(out)@ + ser_moof(*self),
    {
        let size = self.box_size();
        BoxHeader::new(BoxType::MoofBox, size).write(out);
        self.mfhd.write_box(out);
        assert(out@ =~= old(out)@ + ser_moof(*self));
        Ok(size)
    }
}

/// Payload image of a movie-fragment box.
pub open spec fn payload_moof(v: MoofBox) -> Seq<u8> {
    ser_mfhd(v.mfhd)
}

/// Byte image of a whole movie-fragment box.
pub open spec fn ser_moof(v: MoofBox) -> Seq<u8> {
    ser_header(MOOF, v.size() as u64) + payload_moof(v)
}

/// Walk the children of a movie-fragment box.
pub open spec fn parse_moof_children(b: Seq<u8>, mf: Option<MfhdBox>) -> Option<Option<MfhdBox>>
    decreases b.len(),
{
    if b.len() < 8 {
        Some(mf)
    } else {
        match parse_header(b) {
            None => None,
            Some((name, size, hl)) => {
                if size == 0 {
                    Some(mf)
                } else if size > b.len() {
                    None
                } else if name == BoxType::MfhdBox {
                    match parse_mfhd(b.subrange(hl, size as int)) {
                        None => None,
                        Some(x) => parse_moof_children(
                            b.subrange(size as int, b.len() as int),
                            Some(x),
                        ),
                    }
                } else {
                    parse_moof_children(b.subrange(size as int, b.len() as int), mf)
                }
            },
        }
    }
}

/// Parse a movie-fragment payload. A missing fragment header is malformed:
/// the child is required.
pub open spec fn parse_moof(p: Seq<u8>) -> Option<MoofBox> {
    match parse_moof_children(p, None) {
        None => None,
        Some(None) => None,
        Some(Some(mfhd)) => Some(MoofBox { mfhd }),
    }
}

/// The declared size of a movie-fragment box equals the bytes emitted.
pub proof fn lemma_moof_size(v: MoofBox)
    ensures
        ser_moof(v).len() == v.size(),
        payload_moof(v).len() == v.size() - 8,
{
}

/// Decoding an encoded movie-fragment box gives back the same value.
pub proof fn lemma_moof_roundtrip(v: MoofBox)
    requires
        v.wf(),
    ensures
        parse_moof(payload_moof(v)) == Some(v),
{
    reveal_with_fuel(parse_moof_children, 2);
    let p = payload_moof(v);
    assert(p =~= ser_header(MFHD, 16u64) + payload_mfhd(v.mfhd));
    lemma_header_roundtrip(BoxType::MfhdBox, 16u64, payload_mfhd(v.mfhd));
    assert(p.subrange(8, 16) =~= payload_mfhd(v.mfhd));
    lemma_mfhd_roundtrip(v.mfhd);
    assert(p.subrange(16, p.len() as int) =~= Seq::<u8>::empty());
}

} // verus!

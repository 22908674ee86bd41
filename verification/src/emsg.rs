//! The event-message box: a version-gated timing layout (32-bit delta in
//! version 0, 64-bit presentation time in version 1) and a verbatim message
//! payload.

use vstd::prelude::*;

use crate::bytes::{be24, be32, be64, pbe24, pbe32, pbe64, get_u8, get_u24, get_u32, get_u64,
    get_bytes, put_u32, put_u64, put_bytes, clone_bytes};
use crate::header::{BoxHeader, BoxType, EMSG, ser_header, ser_vf, put_vf, lemma_pbe24_sub,
    lemma_pbe32_sub, lemma_pbe64_sub};
use crate::Error;

verus! {

/// The event-message box.
#[derive(Debug)]
pub struct EmsgBox {
    pub version: u8,
    pub flags: u32,
    pub timescale: u32,
    pub presentation_time: u64,
    pub event_duration: u32,
    pub id: u32,
    pub message_data: Vec<u8>,
}

/// Mathematical image of an event-message box.
pub struct EmsgView {
    pub version: u8,
    pub flags: u32,
    pub timescale: u32,
    pub presentation_time: u64,
    pub event_duration: u32,
    pub id: u32,
    pub message_data: Seq<u8>,
}

impl View for EmsgBox {
    type V = EmsgView;

    open spec fn view(&self) -> EmsgView {
        EmsgView {
            version: self.version,
            flags: self.flags,
            timescale: self.timescale,
            presentation_time: self.presentation_time,
            event_duration: self.event_duration,
            id: self.id,
            message_data: self.message_data@,
        }
    }
}

impl EmsgView {
    /// Version 0 carries a 32-bit time delta, version 1 a 64-bit time; any
    /// other version is unknown.
    pub open spec fn wf(self) -> bool {
        &&& (self.version == 0 || self.version == 1)
        &&& self.flags < 0x1000000
        &&& (self.version == 0 ==> self.presentation_time <= 0xffffffff)
        &&& self.size() <= 0xffffffff
    }

    /// Declared size: header, full-box extension, the version's fixed
    /// fields, then the message bytes.
    pub open spec fn size(self) -> int {
        (if self.version == 1 {
            32int
        } else {
            28int
        }) + self.message_data.len() as int
    }
}

/// Payload image of an event-message box, fields per its version.
pub open spec fn payload_emsg(v: EmsgView) -> Seq<u8> {
    if v.version == 1 {
        ser_vf(v.version, v.flags) + be32(v.timescale) + be64(v.presentation_time) + be32(
            v.event_duration,
        ) + be32(v.id) + v.message_data
    } else {
        ser_vf(v.version, v.flags) + be32(v.timescale) + be32(v.presentation_time as u32) + be32(
            v.event_duration,
        ) + be32(v.id) + v.message_data
    }
}

/// Byte image of a whole event-message box.
pub open spec fn ser_emsg(v: EmsgView) -> Seq<u8> {
    ser_header(EMSG, v.size() as u64) + payload_emsg(v)
}

/// Parse an event-message payload, branch-decoding on the version byte; an
/// unrecognized version is malformed.
pub open spec fn parse_emsg(p: Seq<u8>) -> Option<EmsgView> {
    if p.len() < 4 {
        None
    } else if p[0] == 0 {
        if p.len() < 20 {
            None
        } else {
            Some(
                EmsgView {
                    version: 0,
                    flags: pbe24(p, 1) as u32,
                    timescale: pbe32(p, 4) as u32,
                    presentation_time: pbe32(p, 8) as u64,
                    event_duration: pbe32(p, 12) as u32,
                    id: pbe32(p, 16) as u32,
                    message_data: p.subrange(20, p.len() as int),
                },
            )
        }
    } else if p[0] == 1 {
        if p.len() < 24 {
            None
        } else {
            Some(
                EmsgView {
                    version: 1,
                    flags: pbe24(p, 1) as u32,
                    timescale: pbe32(p, 4) as u32,
                    presentation_time: pbe64(p, 8) as u64,
                    event_duration: pbe32(p, 16) as u32,
                    id: pbe32(p, 20) as u32,
                    message_data: p.subrange(24, p.len() as int),
                },
            )
        }
    } else {
        None
    }
}

/// The declared size of an event-message box equals the bytes emitted.
pub proof fn lemma_emsg_size(v: EmsgView)
    requires
        v.wf(),
    ensures
        ser_emsg(v).len() == v.size(),
        payload_emsg(v).len() == v.size() - 8,
{
}

/// Decoding an encoded event-message box gives back the same value, in both
/// version layouts.
pub proof fn lemma_emsg_roundtrip(v: EmsgView)
    requires
        v.wf(),
    ensures
        parse_emsg(payload_emsg(v)) == Some(v),
{
    let p = payload_emsg(v);
    assert(p.subrange(1, 4) =~= be24(v.flags));
    assert(p.subrange(4, 8) =~= be32(v.timescale));
    lemma_pbe24_sub(p, 1, v.flags);
    lemma_pbe32_sub(p, 4, v.timescale);
    if v.version == 1 {
        assert(p.subrange(8, 16) =~= be64(v.presentation_time));
        assert(p.subrange(16, 20) =~= be32(v.event_duration));
        assert(p.subrange(20, 24) =~= be32(v.id));
        lemma_pbe64_sub(p, 8, v.presentation_time);
        lemma_pbe32_sub(p, 16, v.event_duration);
        lemma_pbe32_sub(p, 20, v.id);
        assert(p.subrange(24, p.len() as int) =~= v.message_data);
    } else {
        assert(p.subrange(8, 12) =~= be32(v.presentation_time as u32));
        assert(p.subrange(12, 16) =~= be32(v.event_duration));
        assert(p.subrange(16, 20) =~= be32(v.id));
        lemma_pbe32_sub(p, 8, v.presentation_time as u32);
        lemma_pbe32_sub(p, 12, v.event_duration);
        lemma_pbe32_sub(p, 16, v.id);
        assert(p.subrange(20, p.len() as int) =~= v.message_data);
    }
}

impl EmsgBox {
    pub fn box_size(&self) -> (r: u64)
        requires
            self@.wf(),
        ensures
            r == self@.size(),
    {
        let fixed: u64 = if self.version == 1 {
            32
        } else {
            28
        };
        fixed + self.message_data.len() as u64
    }

    /// Decode an event-message payload of `plen` bytes at `pos`.
    pub fn read_box(data: &Vec<u8>, pos: usize, plen: usize) -> (r: Result<EmsgBox, Error>)
        requires
            pos + plen <= data@.len(),
        ensures
            match r {
                Ok(b) => parse_emsg(data@.subrange(pos as int, pos + plen)) == Some(b@),
                Err(e) => parse_emsg(data@.subrange(pos as int, pos + plen)) is None,
            },
    {
        let n = data.len();
        let ghost p = data@.subrange(pos as int, pos + plen);
        if plen < 4 {
            return Err(Error::ShortRead);
        }
        let version = get_u8(data, pos);
        if version == 0 {
            if plen < 20 {
                return Err(Error::ShortRead);
            }
            let flags = get_u24(data, pos + 1);
            let timescale = get_u32(data, pos + 4);
            let presentation_time = get_u32(data, pos + 8) as u64;
            let event_duration = get_u32(data, pos + 12);
            let id = get_u32(data, pos + 16);
            let message_data = get_bytes(data, pos + 20, plen - 20);
            proof {
                assert(pbe24(p, 1) == pbe24(data@, pos + 1));
                assert(pbe32(p, 4) == pbe32(data@, pos + 4));
                assert(pbe32(p, 8) == pbe32(data@, pos + 8));
                assert(pbe32(p, 12) == pbe32(data@, pos + 12));
                assert(pbe32(p, 16) == pbe32(data@, pos + 16));
                assert(data@.subrange(pos + 20, pos + plen) =~= p.subrange(20, p.len() as int));
            }
            Ok(
                EmsgBox {
                    version,
                    flags,
                    timescale,
                    presentation_time,
                    event_duration,
                    id,
                    message_data,
                },
            )
        } else if version == 1 {
            if plen < 24 {
                return Err(Error::ShortRead);
            }
            let flags = get_u24(data, pos + 1);
            let timescale = get_u32(data, pos + 4);
            let presentation_time = get_u64(data, pos + 8);
            let event_duration = get_u32(data, pos + 16);
            let id = get_u32(data, pos + 20);
            let message_data = get_bytes(data, pos + 24, plen - 24);
            proof {
                assert(pbe24(p, 1) == pbe24(data@, pos + 1));
                assert(pbe32(p, 4) == pbe32(data@, pos + 4));
                assert(pbe64(p, 8) == pbe64(data@, pos + 8));
                assert(pbe32(p, 16) == pbe32(data@, pos + 16));
                assert(pbe32(p, 20) == pbe32(data@, pos + 20));
                assert(data@.subrange(pos + 24, pos + plen) =~= p.subrange(24, p.len() as int));
            }
            Ok(
                EmsgBox {
                    version,
                    flags,
                    timescale,
                    presentation_time,
                    event_duration,
                    id,
                    message_data,
                },
            )
        } else {
            Err(Error::InvalidData)
        }
    }

    /// Encode this box in its version's layout. The bytes emitted are
    /// exactly the declared size.
    pub fn write_box(&self, out: &mut Vec<u8>) -> (r: Result<u64, Error>)
        requires
            self@.wf(),
        ensures
            r is Ok && r.unwrap() == self@.size(),
            final(out)@ == old(out)@ + ser_emsg(self@),
    {
        let size = self.box_size();
        BoxHeader::new(BoxType::EmsgBox, size).write(out);
        put_vf(out, self.version, self.flags);
        put_u32(out, self.timescale);
        if self.version == 1 {
            put_u64(out, self.presentation_time);
        } else {
            put_u32(out, self.presentation_time as u32);
        }
        put_u32(out, self.event_duration);
        put_u32(out, self.id);
        put_bytes(out, &self.message_data);
        assert(out@ =~= old(out)@ + ser_emsg(self@));
        Ok(size)
    }
}

/// Field-by-field copy.
pub fn clone_emsg(b: &EmsgBox) -> (r: EmsgBox)
    ensures
        r@ == b@,
{
    EmsgBox {
        version: b.version,
        flags: b.flags,
        timescale: b.timescale,
        presentation_time: b.presentation_time,
        event_duration: b.event_duration,
        id: b.id,
        message_data: clone_bytes(&b.message_data),
    }
}

} // verus!

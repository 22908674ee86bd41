//! The media-data box: raw sample bytes, consumed and re-emitted verbatim,
//! never interpreted.

use vstd::prelude::*;

use crate::bytes::{get_bytes, put_bytes, clone_bytes};
use crate::header::{BoxHeader, BoxType, MDAT, ser_header};
use crate::Error;

verus! {

#[derive(Debug)]
pub struct MdatBox {
    data: Vec<u8>,
}

/// Mathematical image of a media-data box: the payload bytes.
pub struct MdatView {
    pub data: Seq<u8>,
}

impl View for MdatBox {
    type V = MdatView;

    closed spec fn view(&self) -> MdatView {
        MdatView { data: self.data@ }
    }
}

impl MdatView {
    /// The declared size leaves room for the large header if one is needed.
    pub open spec fn wf(self) -> bool {
        self.data.len() + 16 <= u64::MAX
    }

    /// Declared size: the header (large when the payload forces it), then the
    /// payload verbatim.
    pub open spec fn size(self) -> int {
        if 8 + self.data.len() <= 0xffffffff {
            8 + self.data.len() as int
        } else {
            16 + self.data.len() as int
        }
    }
}

/// Byte image of a whole media-data box.
pub open spec fn ser_mdat(v: MdatView) -> Seq<u8> {
    ser_header(MDAT, v.size() as u64) + v.data
}

/// A media-data payload is any byte run: it always parses, to itself.
pub open spec fn parse_mdat(payload: Seq<u8>) -> Option<MdatView> {
    Some(MdatView { data: payload })
}

/// The declared size of a media-data box equals the bytes its writer emits.
pub proof fn lemma_mdat_size(v: MdatView)
    requires
        v.wf(),
    ensures
        ser_mdat(v).len() == v.size(),
{
}

/// Decoding an encoded media-data box gives back the same value.
pub proof fn lemma_mdat_roundtrip(v: MdatView)
    ensures
        parse_mdat(v.data) == Some(v),
{
}

impl MdatBox {
    /// A media-data box holding the given payload bytes.
    pub fn new(data: Vec<u8>) -> (r: MdatBox)
        ensures
            r@.data == data@,
    {
        MdatBox { data }
    }

    pub fn get_type(&self) -> (r: BoxType)
        ensures
            r == BoxType::MdatBox,
    {
        BoxType::MdatBox
    }

    pub fn get_size(&self) -> (r: u64)
        requires
            self@.wf(),
        ensures
            r == self@.size(),
    {
        let n = self.data.len() as u64;
        if n <= 0xffffffff - 8 {
            8 + n
        } else {
            16 + n
        }
    }

    pub fn box_type(&self) -> (r: BoxType)
        ensures
            r == BoxType::MdatBox,
    {
        BoxType::MdatBox
    }

    pub fn box_size(&self) -> (r: u64)
        requires
            self@.wf(),
        ensures
            r == self@.size(),
    {
        self.get_size()
    }

    /// The payload bytes.
    pub fn data(&self) -> (r: &Vec<u8>)
        ensures
            r@ == self@.data,
    {
        &self.data
    }

    /// Decode a media-data payload of `plen` bytes starting at `pos`: the
    /// bytes are taken verbatim.
    pub fn read_box(data: &Vec<u8>, pos: usize, plen: usize) -> (r: Result<MdatBox, Error>)
        requires
            pos + plen <= data@.len(),
        ensures
            r is Ok && parse_mdat(data@.subrange(pos as int, pos + plen)) == Some(r.unwrap()@),
    {
        Ok(MdatBox { data: get_bytes(data, pos, plen) })
    }

    /// Encode this box: header then payload verbatim. The bytes emitted are
    /// exactly the declared size.
    pub fn write_box(&self, out: &mut Vec<u8>) -> (r: Result<u64, Error>)
        requires
            self@.wf(),
        ensures
            r is Ok && r.unwrap() == self@.size(),
            final(out)@ == old(out)@ + ser_mdat(self@),
    {
        let size = self.box_size();
        BoxHeader::new(BoxType::MdatBox, size).write(out);
        put_bytes(out, &self.data);
        assert(out@ =~= old(out)@ + ser_mdat(self@));
        Ok(size)
    }
}

/// Field-by-field copy.
pub fn clone_mdat(b: &MdatBox) -> (r: MdatBox)
    ensures
        r@ == b@,
{
    MdatBox { data: clone_bytes(&b.data) }
}

} // verus!

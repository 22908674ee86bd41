//! The file-type box: format brand, minor version and compatible brands.

use vstd::prelude::*;

use crate::bytes::{be32, pbe32, get_u32, put_u32};
use crate::header::{BoxHeader, BoxType, FTYP, ser_header, lemma_pbe32_sub};
use crate::{Error, FourCC};

verus! {

#[derive(Debug)]
pub struct FtypBox {
    pub major_brand: FourCC,
    pub minor_version: u32,
    pub compatible_brands: Vec<FourCC>,
}

/// Mathematical image of a file-type box.
pub struct FtypView {
    pub major_brand: FourCC,
    pub minor_version: u32,
    pub compatible_brands: Seq<FourCC>,
}

impl View for FtypBox {
    type V = FtypView;

    open spec fn view(&self) -> FtypView {
        FtypView {
            major_brand: self.major_brand,
            minor_version: self.minor_version,
            compatible_brands: self.compatible_brands@,
        }
    }
}

impl FtypView {
    /// The declared size stays below the 32-bit limit of the short header.
    pub open spec fn wf(self) -> bool {
        16 + 4 * self.compatible_brands.len() as int <= 0xffffffff
    }

    /// Declared size: header, major brand, minor version, then the brands.
    pub open spec fn size(self) -> int {
        16 + 4 * self.compatible_brands.len() as int
    }
}

/// Byte image of the compatible-brand list.
pub open spec fn ser_brands(s: Seq<FourCC>) -> Seq<u8>
    decreases s.len(),
{
    if s.len() == 0 {
        Seq::empty()
    } else {
        be32(s[0].value) + ser_brands(s.drop_first())
    }
}

/// The brand list image is four bytes per brand, each brand at its slot.
pub proof fn lemma_ser_brands(s: Seq<FourCC>)
    ensures
        ser_brands(s).len() == 4 * s.len(),
        forall|i: int|
            0 <= i < s.len() ==> #[trigger] ser_brands(s).subrange(4 * i, 4 * i + 4) == be32(
                s[i].value,
            ),
    decreases s.len(),
{
    if s.len() > 0 {
        lemma_ser_brands(s.drop_first());
        assert forall|i: int| 0 <= i < s.len() implies #[trigger] ser_brands(s).subrange(
            4 * i,
            4 * i + 4,
        ) == be32(s[i].value) by {
            if i == 0 {
                assert(ser_brands(s).subrange(0, 4) =~= be32(s[0].value));
            } else {
                let tail = s.drop_first();
                assert(tail.subrange(4 * (i - 1), 4 * (i - 1) + 4) == tail.subrange(
                    4 * (i - 1),
                    4 * (i - 1) + 4,
                ));
                assert(ser_brands(s).subrange(4 * i, 4 * i + 4) =~= ser_brands(tail).subrange(
                    4 * (i - 1),
                    4 * (i - 1) + 4,
                ));
                assert(tail[i - 1] == s[i]);
            }
        }
    }
}

/// Payload image: major brand, minor version, compatible brands.
pub open spec fn payload_ftyp(v: FtypView) -> Seq<u8> {
    be32(v.major_brand.value) + be32(v.minor_version) + ser_brands(v.compatible_brands)
}

/// Byte image of a whole file-type box.
pub open spec fn ser_ftyp(v: FtypView) -> Seq<u8> {
    ser_header(FTYP, v.size() as u64) + payload_ftyp(v)
}

/// Parse a file-type payload: brands fill every whole 4-byte group after the
/// two fixed fields; a trailing fragment shorter than a brand is ignored.
pub open spec fn parse_ftyp(payload: Seq<u8>) -> Option<FtypView> {
    if payload.len() < 8 {
        None
    } else {
        Some(
            FtypView {
                major_brand: FourCC { value: pbe32(payload, 0) as u32 },
                minor_version: pbe32(payload, 4) as u32,
                compatible_brands: Seq::new(
                    ((payload.len() - 8) / 4) as nat,
                    |i: int| FourCC { value: pbe32(payload, 8 + 4 * i) as u32 },
                ),
            },
        )
    }
}

/// The declared size of a file-type box equals the bytes its writer emits.
pub proof fn lemma_ftyp_size(v: FtypView)
    requires
        v.wf(),
    ensures
        ser_ftyp(v).len() == v.size(),
        payload_ftyp(v).len() == v.size() - 8,
{
    lemma_ser_brands(v.compatible_brands);
}

/// Decoding an encoded file-type box gives back the same value.
pub proof fn lemma_ftyp_roundtrip(v: FtypView)
    requires
        v.wf(),
    ensures
        parse_ftyp(payload_ftyp(v)) == Some(v),
{
    let p = payload_ftyp(v);
    lemma_ser_brands(v.compatible_brands);
    assert(p.subrange(0, 4) =~= be32(v.major_brand.value));
    assert(p.subrange(4, 8) =~= be32(v.minor_version));
    lemma_pbe32_sub(p, 0, v.major_brand.value);
    lemma_pbe32_sub(p, 4, v.minor_version);
    let n = v.compatible_brands.len() as int;
    assert((p.len() - 8) as int / 4 == n);
    assert forall|i: int| 0 <= i < n implies pbe32(p, 8 + 4 * i)
        == v.compatible_brands[i].value by {
        assert(p.subrange(8 + 4 * i, 8 + 4 * i + 4) =~= ser_brands(v.compatible_brands).subrange(
            4 * i,
            4 * i + 4,
        ));
        lemma_pbe32_sub(p, 8 + 4 * i, v.compatible_brands[i].value);
    }
    let parsed = parse_ftyp(p).unwrap();
    assert(parsed.compatible_brands =~= v.compatible_brands);
}

impl FtypBox {
    pub fn get_type(&self) -> (r: BoxType)
        ensures
            r == BoxType::FtypBox,
    {
        BoxType::FtypBox
    }

    pub fn get_size(&self) -> (r: u64)
        requires
            self@.wf(),
        ensures
            r == self@.size(),
    {
        16 + 4 * (self.compatible_brands.len() as u64)
    }

    pub fn box_type(&self) -> (r: BoxType)
        ensures
            r == BoxType::FtypBox,
    {
        BoxType::FtypBox
    }

    pub fn box_size(&self) -> (r: u64)
        requires
            self@.wf(),
        ensures
            r == self@.size(),
    {
        self.get_size()
    }

    /// Decode a file-type payload of `plen` bytes starting at `pos`.
    pub fn read_box(data: &Vec<u8>, pos: usize, plen: usize) -> (r: Result<FtypBox, Error>)
        requires
            pos + plen <= data@.len(),
        ensures
            match r {
                Ok(b) => parse_ftyp(data@.subrange(pos as int, pos + plen)) == Some(b@),
                Err(e) => parse_ftyp(data@.subrange(pos as int, pos + plen)) is None && e
                    == Error::ShortRead,
            },
    {
        let n = data.len();
        let ghost p = data@.subrange(pos as int, pos + plen);
        if plen < 8 {
            return Err(Error::ShortRead);
        }
        let major_brand = FourCC::new(get_u32(data, pos));
        let minor_version = get_u32(data, pos + 4);
        let count = (plen - 8) / 4;
        let mut compatible_brands: Vec<FourCC> = Vec::new();
        let mut i: usize = 0;
        proof {
            assert(pbe32(p, 0) == pbe32(data@, pos as int));
            assert(pbe32(p, 4) == pbe32(data@, pos + 4));
        }
        while i < count
            invariant
                i <= count,
                count == (plen - 8) as int / 4,
                pos + plen <= data@.len(),
                data@.len() <= usize::MAX,
                plen >= 8,
                p == data@.subrange(pos as int, pos + plen),
                compatible_brands@ =~= Seq::new(
                    i as nat,
                    |k: int| FourCC { value: pbe32(p, 8 + 4 * k) as u32 },
                ),
            decreases count - i,
        {
            proof {
                vstd::arithmetic::div_mod::lemma_fundamental_div_mod(plen - 8, 4);
                assert(4 * count <= plen - 8);
                assert(8 + 4 * (i as int) + 4 <= plen);
                assert(pbe32(p, 8 + 4 * (i as int)) == pbe32(data@, pos + 8 + 4 * (i as int)));
            }
            let b = FourCC::new(get_u32(data, pos + 8 + 4 * i));
            compatible_brands.push(b);
            i = i + 1;
        }
        let r = FtypBox { major_brand, minor_version, compatible_brands };
        proof {
            assert(r@.compatible_brands.len() == count);
            assert(parse_ftyp(p) == Some(r@));
        }
        Ok(r)
    }

    /// Encode this box. The bytes emitted are exactly the declared size.
    pub fn write_box(&self, out: &mut Vec<u8>) -> (r: Result<u64, Error>)
        requires
            self@.wf(),
        ensures
            r is Ok && r.unwrap() == self@.size(),
            final(out)@ == old(out)@ + ser_ftyp(self@),
    {
        let size = self.box_size();
        BoxHeader::new(BoxType::FtypBox, size).write(out);
        put_u32(out, self.major_brand.value);
        put_u32(out, self.minor_version);
        let mut i: usize = 0;
        let ghost brands = self.compatible_brands@;
        let ghost base = out@;
        while i < self.compatible_brands.len()
            invariant
                i <= brands.len(),
                self.compatible_brands@ == brands,
                out@ == base + ser_brands(brands.subrange(0, i as int)),
            decreases brands.len() - i,
        {
            let ghost pre = brands.subrange(0, i as int);
            put_u32(out, self.compatible_brands[i].value);
            i = i + 1;
            proof {
                let cur = brands.subrange(0, i as int);
                lemma_ser_brands_snoc(pre, brands[i - 1]);
                assert(cur =~= pre.push(brands[i - 1]));
            }
        }
        proof {
            assert(brands.subrange(0, brands.len() as int) =~= brands);
            assert(out@ =~= old(out)@ + ser_ftyp(self@));
        }
        Ok(size)
    }

    /// One-line account of the box: its brand fields.
    pub fn summary_code(&self) -> (r: u32)
        ensures
            r == self.major_brand.value,
    {
        self.major_brand.value
    }
}

/// Appending one brand appends its four bytes.
pub proof fn lemma_ser_brands_snoc(s: Seq<FourCC>, c: FourCC)
    ensures
        ser_brands(s.push(c)) == ser_brands(s) + be32(c.value),
    decreases s.len(),
{
    assert(s.push(c)[0] == if s.len() == 0 { c } else { s[0] });
    if s.len() == 0 {
        assert(s.push(c).drop_first() =~= Seq::<FourCC>::empty());
        assert(ser_brands(s.push(c).drop_first()) == Seq::<u8>::empty());
        assert(ser_brands(s.push(c)) =~= ser_brands(s) + be32(c.value));
    } else {
        assert(s.push(c).drop_first() =~= s.drop_first().push(c));
        lemma_ser_brands_snoc(s.drop_first(), c);
        assert(ser_brands(s.push(c)) =~= ser_brands(s) + be32(c.value));
    }
}

/// Field-by-field copy.
pub fn clone_ftyp(b: &FtypBox) -> (r: FtypBox)
    ensures
        r@ == b@,
{
    let mut brands: Vec<FourCC> = Vec::new();
    let mut i: usize = 0;
    while i < b.compatible_brands.len()
        invariant
            i <= b.compatible_brands@.len(),
            brands@ =~= b.compatible_brands@.subrange(0, i as int),
        decreases b.compatible_brands@.len() - i,
    {
        brands.push(b.compatible_brands[i]);
        i = i + 1;
    }
    proof {
        assert(brands@ =~= b.compatible_brands@);
    }
    FtypBox {
        major_brand: b.major_brand,
        minor_version: b.minor_version,
        compatible_brands: brands,
    }
}

} // verus!

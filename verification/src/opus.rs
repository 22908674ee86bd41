//! The Opus sample-entry box and its codec-configuration child box, with the
//! channel-mapping table that exists exactly when the mapping family is
//! non-zero.

use vstd::prelude::*;

use crate::bytes::{be16, be32, pbe16, pbe32, get_u8, get_u16, get_u32, get_bytes, put_u8, put_u16,
    put_u32, put_bytes, clone_bytes};
use crate::header::{BoxHeader, BoxType, OPUS, DOPS, ser_header, parse_header,
    lemma_header_roundtrip, lemma_pbe16_sub, lemma_pbe32_sub};
use crate::{Error, FixedPointU16};

verus! {

/// Layout of output channels: present exactly when the channel-mapping
/// family byte is non-zero, occupying `2 + output_channel_count` bytes.
#[derive(Debug)]
pub struct ChannelMappingTable {
    pub stream_count: u8,
    pub coupled_count: u8,
    pub channel_mapping: Vec<u8>,
}

/// Mathematical image of a channel-mapping table.
pub struct CmtView {
    pub stream_count: u8,
    pub coupled_count: u8,
    pub channel_mapping: Seq<u8>,
}

impl View for ChannelMappingTable {
    type V = CmtView;

    open spec fn view(&self) -> CmtView {
        CmtView {
            stream_count: self.stream_count,
            coupled_count: self.coupled_count,
            channel_mapping: self.channel_mapping@,
        }
    }
}

/// The Opus codec-configuration box.
#[derive(Debug)]
pub struct OpusSpecificBox {
    pub version: u8,
    pub output_channel_count: u8,
    pub pre_skip: u16,
    pub input_sample_rate: u32,
    pub outupt_gain: i16,
    pub channel_mapping_family: u8,
    pub channel_mapping_table: Option<ChannelMappingTable>,
}

/// Mathematical image of a codec-configuration box.
pub struct DopsView {
    pub version: u8,
    pub output_channel_count: u8,
    pub pre_skip: u16,
    pub input_sample_rate: u32,
    pub outupt_gain: i16,
    pub channel_mapping_family: u8,
    pub channel_mapping_table: Option<CmtView>,
}

impl View for OpusSpecificBox {
    type V = DopsView;

    open spec fn view(&self) -> DopsView {
        DopsView {
            version: self.version,
            output_channel_count: self.output_channel_count,
            pre_skip: self.pre_skip,
            input_sample_rate: self.input_sample_rate,
            outupt_gain: self.outupt_gain,
            channel_mapping_family: self.channel_mapping_family,
            channel_mapping_table: match self.channel_mapping_table {
                Some(ref t) => Some(t@),
                None => None,
            },
        }
    }
}

impl DopsView {
    /// Only version 0 exists; the mapping table is present exactly when the
    /// family is non-zero and holds one byte per output channel.
    pub open spec fn wf(self) -> bool {
        &&& self.version == 0
    &&& (self.channel_mapping_family == 0 <==> self.channel_mapping_table is None)
        &&& match self.channel_mapping_table {
            Some(t) => t.channel_mapping.len() == self.output_channel_count,
            None => true,
        }
    }

    /// Declared size: header, the 11 fixed bytes, and the mapping table's
    /// `2 + output_channel_count` bytes when one is present.
    pub open spec fn size(self) -> int {
        8 + 11 + match self.channel_mapping_table {
            Some(t) => 2 + t.channel_mapping.len() as int,
            None => 0,
        }
    }
}

/// Payload image of a codec-configuration box.
pub open spec fn payload_dops(v: DopsView) -> Seq<u8> {
    seq![v.version, v.output_channel_count] + be16(v.pre_skip) + be32(v.input_sample_rate) + be16(
        v.outupt_gain as u16,
    ) + seq![v.channel_mapping_family] + match v.channel_mapping_table {
        Some(t) => seq![t.stream_count, t.coupled_count] + t.channel_mapping,
        None => Seq::empty(),
    }
}

/// Byte image of a whole codec-configuration box.
pub open spec fn ser_dops(v: DopsView) -> Seq<u8> {
    ser_header(DOPS, v.size() as u64) + payload_dops(v)
}

/// Parse a codec-configuration payload. A version other than 0 is malformed;
/// the mapping table is read exactly when the family byte is non-zero, and a
/// payload shorter than the table it declares is malformed.
pub open spec fn parse_dops(p: Seq<u8>) -> Option<DopsView> {
    if p.len() < 11 {
        None
    } else if p[0] != 0 {
        None
    } else {
        let occ = p[1];
        let family = p[10];
        if family == 0 {
            Some(
                DopsView {
                    version: 0,
                    output_channel_count: occ,
                    pre_skip: pbe16(p, 2) as u16,
                    input_sample_rate: pbe32(p, 4) as u32,
                    outupt_gain: pbe16(p, 8) as u16 as i16,
                    channel_mapping_family: family,
                    channel_mapping_table: None,
                },
            )
        } else if p.len() < 13 + occ {
            None
        } else {
            Some(
                DopsView {
                    version: 0,
                    output_channel_count: occ,
                    pre_skip: pbe16(p, 2) as u16,
                    input_sample_rate: pbe32(p, 4) as u32,
                    outupt_gain: pbe16(p, 8) as u16 as i16,
                    channel_mapping_family: family,
                    channel_mapping_table: Some(
                        CmtView {
                            stream_count: p[11],
                            coupled_count: p[12],
                            channel_mapping: p.subrange(13, 13 + occ),
                        },
                    ),
                },
            )
        }
    }
}

/// The declared size of a codec-configuration box equals the bytes its
/// writer emits.
pub proof fn lemma_dops_size(v: DopsView)
    requires
        v.wf(),
    ensures
        ser_dops(v).len() == v.size(),
        payload_dops(v).len() == v.size() - 8,
{
}

/// Decoding an encoded codec-configuration box gives back the same value.
pub proof fn lemma_dops_roundtrip(v: DopsView)
    requires
        v.wf(),
    ensures
        parse_dops(payload_dops(v)) == Some(v),
{
    let p = payload_dops(v);
    assert(p.subrange(2, 4) =~= be16(v.pre_skip));
    assert(p.subrange(4, 8) =~= be32(v.input_sample_rate));
    assert(p.subrange(8, 10) =~= be16(v.outupt_gain as u16));
    lemma_pbe16_sub(p, 2, v.pre_skip);
    lemma_pbe32_sub(p, 4, v.input_sample_rate);
    lemma_pbe16_sub(p, 8, v.outupt_gain as u16);
    let g = v.outupt_gain;
    assert(g as u16 as i16 == g) by (bit_vector);
    match v.channel_mapping_table {
        Some(t) => {
            assert(p[10] == v.channel_mapping_family);
            assert(p[11] == t.stream_count);
            assert(p[12] == t.coupled_count);
            assert(p.subrange(13, 13 + v.output_channel_count) =~= t.channel_mapping);
        },
        None => {},
    }
}

impl OpusSpecificBox {
    pub fn box_type(&self) -> (r: BoxType)
        ensures
            r == BoxType::DopsBox,
    {
        BoxType::DopsBox
    }

    pub fn box_size(&self) -> (r: u64)
        requires
            self@.wf(),
        ensures
            r == self@.size(),
    {
        match self.channel_mapping_table {
            Some(ref cmt) => 8 + 11 + 2 + cmt.channel_mapping.len() as u64,
            None => 8 + 11,
        }
    }

    /// Decode a codec-configuration payload of `plen` bytes at `pos`.
    pub fn read_box(data: &Vec<u8>, pos: usize, plen: usize) -> (r: Result<
        OpusSpecificBox,
        Error,
    >)
        requires
            pos + plen <= data@.len(),
        ensures
            match r {
                Ok(b) => parse_dops(data@.subrange(pos as int, pos + plen)) == Some(b@) && b@.wf(),
                Err(e) => parse_dops(data@.subrange(pos as int, pos + plen)) is None,
            },
    {
        let n = data.len();
        let ghost p = data@.subrange(pos as int, pos + plen);
        if plen < 11 {
            return Err(Error::ShortRead);
        }
        let version = get_u8(data, pos);
        if version != 0 {
            return Err(Error::InvalidData);
        }
        let output_channel_count = get_u8(data, pos + 1);
        let pre_skip = get_u16(data, pos + 2);
        let input_sample_rate = get_u32(data, pos + 4);
        let outupt_gain = get_u16(data, pos + 8) as i16;
        let channel_mapping_family = get_u8(data, pos + 10);
        proof {
            assert(pbe16(p, 2) == pbe16(data@, pos + 2));
            assert(pbe32(p, 4) == pbe32(data@, pos + 4));
            assert(pbe16(p, 8) == pbe16(data@, pos + 8));
        }
        let channel_mapping_table = if channel_mapping_family == 0 {
            None
        } else {
            if plen < 13 || plen - 13 < output_channel_count as usize {
                return Err(Error::ShortRead);
            }
            let stream_count = get_u8(data, pos + 11);
            let coupled_count = get_u8(data, pos + 12);
            let channel_mapping = get_bytes(data, pos + 13, output_channel_count as usize);
            proof {
                assert(data@.subrange(pos + 13, pos + 13 + output_channel_count) =~= p.subrange(
                    13,
                    13 + output_channel_count,
                ));
            }
            Some(ChannelMappingTable { stream_count, coupled_count, channel_mapping })
        };
        Ok(
            OpusSpecificBox {
                version,
                output_channel_count,
                pre_skip,
                input_sample_rate,
                outupt_gain,
                channel_mapping_family,
                channel_mapping_table,
            },
        )
    }

    /// Encode this box. The bytes emitted are exactly the declared size.
    pub fn write_box(&self, out: &mut Vec<u8>) -> (r: Result<u64, Error>)
        requires
            self@.wf(),
        ensures
            r is Ok && r.unwrap() == self@.size(),
            final(out)@ == old(out)@ + ser_dops(self@),
    {
        let size = self.box_size();
        BoxHeader::new(BoxType::DopsBox, size).write(out);
        put_u8(out, self.version);
        put_u8(out, self.output_channel_count);
        put_u16(out, self.pre_skip);
        put_u32(out, self.input_sample_rate);
        put_u16(out, self.outupt_gain as u16);
        put_u8(out, self.channel_mapping_family);
        match self.channel_mapping_table {
            Some(ref cmt) => {
                put_u8(out, cmt.stream_count);
                put_u8(out, cmt.coupled_count);
                put_bytes(out, &cmt.channel_mapping);
            },
            None => {},
        }
        assert(out@ =~= old(out)@ + ser_dops(self@));
        Ok(size)
    }
}

/// Field-by-field copy.
pub fn clone_dops(b: &OpusSpecificBox) -> (r: OpusSpecificBox)
    ensures
        r@ == b@,
{
    OpusSpecificBox {
        version: b.version,
        output_channel_count: b.output_channel_count,
        pre_skip: b.pre_skip,
        input_sample_rate: b.input_sample_rate,
        outupt_gain: b.outupt_gain,
        channel_mapping_family: b.channel_mapping_family,
        channel_mapping_table: match b.channel_mapping_table {
            Some(ref t) => Some(
                ChannelMappingTable {
                    stream_count: t.stream_count,
                    coupled_count: t.coupled_count,
                    channel_mapping: clone_bytes(&t.channel_mapping),
                },
            ),
            None => None,
        },
    }
}

/// The Opus sample-entry box.
#[derive(Debug)]
pub struct OpusBox {
    pub data_reference_index: u16,
    pub channelcount: u16,
    pub samplesize: u16,
    pub samplerate: FixedPointU16,
    pub dops: Option<OpusSpecificBox>,
}

/// Mathematical image of an Opus sample entry.
pub struct OpusView {
    pub data_reference_index: u16,
    pub channelcount: u16,
    pub samplesize: u16,
    pub samplerate: FixedPointU16,
    pub dops: Option<DopsView>,
}

impl View for OpusBox {
    type V = OpusView;

    open spec fn view(&self) -> OpusView {
        OpusView {
            data_reference_index: self.data_reference_index,
            channelcount: self.channelcount,
            samplesize: self.samplesize,
            samplerate: self.samplerate,
            dops: match self.dops {
                Some(ref d) => Some(d@),
                None => None,
            },
        }
    }
}

impl OpusView {
    pub open spec fn wf(self) -> bool {
        match self.dops {
            Some(d) => d.wf(),
            None => true,
        }
    }

    /// Declared size: header, 8 reserved-and-index bytes, 20 audio sample
    /// entry bytes, then the configuration child if present.
    pub open spec fn size(self) -> int {
        8 + 8 + 20 + match self.dops {
            Some(d) => d.size(),
            None => 0,
        }
    }
}

/// Payload image of an Opus sample entry: reserved fields as zeros, the
/// audio fields, then the configuration child box.
#[verifier::opaque]
pub open spec fn payload_opus(v: OpusView) -> Seq<u8> {
    be32(0) + be16(0) + be16(v.data_reference_index) + be32(0) + be32(0) + be16(v.channelcount)
        + be16(v.samplesize) + be32(0) + be32(v.samplerate.raw) + match v.dops {
        Some(d) => ser_dops(d),
        None => Seq::empty(),
    }
}

/// Byte image of a whole Opus sample entry.
#[verifier::opaque]
pub open spec fn ser_opus(v: OpusView) -> Seq<u8> {
    ser_header(OPUS, v.size() as u64) + payload_opus(v)
}

/// Walk the child region of a sample entry: skip unrecognized children until
/// a configuration box is found (the walk then stops, as the box is unique),
/// a zero declared size ends the walk, an oversized child is malformed.
pub open spec fn parse_opus_children(b: Seq<u8>, acc: Option<DopsView>) -> Option<Option<DopsView>>
    decreases b.len(),
{
    if b.len() < 8 {
        Some(acc)
    } else {
        match parse_header(b) {
            None => None,
            Some((name, size, hl)) => {
                if size == 0 {
                    Some(acc)
                } else if size > b.len() {
                    None
                } else if name == BoxType::DopsBox {
                    match parse_dops(b.subrange(hl, size as int)) {
                        None => None,
                        Some(d) => Some(Some(d)),
                    }
                } else {
                    parse_opus_children(b.subrange(size as int, b.len() as int), acc)
                }
            },
        }
    }
}

/// Parse an Opus sample-entry payload: the fixed audio fields (a version-1
/// entry carries 16 extra bytes to step over), then the child walk.
#[verifier::opaque]
pub open spec fn parse_opus(p: Seq<u8>) -> Option<OpusView> {
    if p.len() < 28 {
        None
    } else {
        let ver = pbe16(p, 8);
        let fe: int = if ver == 1 {
            44
        } else {
            28
        };
        if p.len() < fe {
            None
        } else {
            match parse_opus_children(p.subrange(fe, p.len() as int), None) {
                None => None,
                Some(dops) => Some(
                    OpusView {
                        data_reference_index: pbe16(p, 6) as u16,
                        channelcount: pbe16(p, 16) as u16,
                        samplesize: pbe16(p, 18) as u16,
                        samplerate: FixedPointU16 { raw: pbe32(p, 24) as u32 },
                        dops,
                    },
                ),
            }
        }
    }
}

/// The parse of an Opus sample-entry payload, written out: the fixed audio
/// fields, then the child walk.
pub proof fn lemma_parse_opus(p: Seq<u8>)
    ensures
        parse_opus(p) == (if p.len() < 28 {
            None
        } else {
            let ver = pbe16(p, 8);
            let fe: int = if ver == 1 {
                44
            } else {
                28
            };
            if p.len() < fe {
                None
            } else {
                match parse_opus_children(p.subrange(fe, p.len() as int), None) {
                    None => None,
                    Some(dops) => Some(
                        OpusView {
                            data_reference_index: pbe16(p, 6) as u16,
                            channelcount: pbe16(p, 16) as u16,
                            samplesize: pbe16(p, 18) as u16,
                            samplerate: (FixedPointU16 { raw: pbe32(p, 24) as u32 }),
                            dops,
                        },
                    ),
                }
            }
        }),
{
    reveal(parse_opus);
}

/// The declared size of an Opus sample entry equals the bytes its writer
/// emits, child included.
pub proof fn lemma_opus_size(v: OpusView)
    requires
        v.wf(),
    ensures
        ser_opus(v).len() == v.size(),
        payload_opus(v).len() == v.size() - 8,
{
    reveal(ser_opus);
    reveal(payload_opus);
    match v.dops {
        Some(d) => lemma_dops_size(d),
        None => {},
    }
}

/// An Opus sample-entry image is its header followed by its payload.
pub proof fn lemma_ser_opus_shape(v: OpusView)
    ensures
        ser_opus(v) == ser_header(OPUS, v.size() as u64) + payload_opus(v),
{
    reveal(ser_opus);
}

/// Decoding an encoded Opus sample entry gives back the same value,
/// configuration child included.
pub proof fn lemma_opus_roundtrip(v: OpusView)
    requires
        v.wf(),
    ensures
        parse_opus(payload_opus(v)) == Some(v),
{
    reveal(payload_opus);
    let p = payload_opus(v);
    lemma_parse_opus(p);
    lemma_opus_size(v);
    assert(p.subrange(6, 8) =~= be16(v.data_reference_index));
    assert(p.subrange(8, 10) =~= be16(0u16));
    assert(p.subrange(16, 18) =~= be16(v.channelcount));
    assert(p.subrange(18, 20) =~= be16(v.samplesize));
    assert(p.subrange(24, 28) =~= be32(v.samplerate.raw));
    lemma_pbe16_sub(p, 6, v.data_reference_index);
    lemma_pbe16_sub(p, 8, 0u16);
    lemma_pbe16_sub(p, 16, v.channelcount);
    lemma_pbe16_sub(p, 18, v.samplesize);
    lemma_pbe32_sub(p, 24, v.samplerate.raw);
    let rest = p.subrange(28, p.len() as int);
    match v.dops {
        Some(d) => {
            lemma_dops_size(d);
            assert(rest =~= ser_dops(d));
            assert(ser_dops(d) =~= ser_header(DOPS, d.size() as u64) + payload_dops(d));
            lemma_header_roundtrip(BoxType::DopsBox, d.size() as u64, payload_dops(d));
            assert(parse_header(rest) == Some((BoxType::DopsBox, d.size() as u64, 8int)));
            assert(rest.subrange(8, d.size() as int) =~= payload_dops(d));
            lemma_dops_roundtrip(d);
            assert(parse_opus_children(rest, None) == Some(Some(d)));
        },
        None => {
            assert(rest.len() == 0);
            assert(parse_opus_children(rest, None) == Some(None::<DopsView>));
        },
    }
}

impl OpusBox {
    /// A sample entry for one audio stream, configuration child included.
    pub fn new() -> (r: OpusBox)
        ensures
            r@.data_reference_index == 1,
            r@.channelcount == 0,
            r@.samplesize == 16,
            r@.samplerate.raw == 48000 * 0x10000,
            r@.dops matches Some(d) && d.wf(),
            r@.wf(),
    {
        OpusBox {
            data_reference_index: 1,
            channelcount: 0,
            samplesize: 16,
            samplerate: FixedPointU16::new(48000),
            dops: Some(default_dops()),
        }
    }

    pub fn get_type(&self) -> (r: BoxType)
        ensures
            r == BoxType::OpusBox,
    {
        BoxType::OpusBox
    }

    pub fn get_size(&self) -> (r: u64)
        requires
            self@.wf(),
        ensures
            r == self@.size(),
    {
        let mut size: u64 = 8 + 8 + 20;
        match self.dops {
            Some(ref dops) => {
                size = size + dops.box_size();
            },
            None => {},
        }
        size
    }

    pub fn box_type(&self) -> (r: BoxType)
        ensures
            r == BoxType::OpusBox,
    {
        BoxType::OpusBox
    }

    pub fn box_size(&self) -> (r: u64)
        requires
            self@.wf(),
        ensures
            r == self@.size(),
    {
        self.get_size()
    }

    /// Decode an Opus sample-entry payload of `plen` bytes at `pos`.
    #[verifier::rlimit(60)]
    pub fn read_box(data: &Vec<u8>, pos: usize, plen: usize) -> (r: Result<OpusBox, Error>)
        requires
            pos + plen <= data@.len(),
        ensures
            match r {
                Ok(b) => parse_opus(data@.subrange(pos as int, pos + plen)) == Some(b@) && b@.wf(),
                Err(e) => parse_opus(data@.subrange(pos as int, pos + plen)) is None,
            },
    {
        let n = data.len();
        let ghost p = data@.subrange(pos as int, pos + plen);
        proof {
            lemma_parse_opus(p);
        }
        if plen < 28 {
            return Err(Error::ShortRead);
        }
        let data_reference_index = get_u16(data, pos + 6);
        let version = get_u16(data, pos + 8);
        let channelcount = get_u16(data, pos + 16);
        let samplesize = get_u16(data, pos + 18);
        let samplerate = FixedPointU16::new_raw(get_u32(data, pos + 24));
        proof {
            assert(pbe16(p, 6) == pbe16(data@, pos + 6));
            assert(pbe16(p, 8) == pbe16(data@, pos + 8));
            assert(pbe16(p, 16) == pbe16(data@, pos + 16));
            assert(pbe16(p, 18) == pbe16(data@, pos + 18));
            assert(pbe32(p, 24) == pbe32(data@, pos + 24));
        }
        let fixed_end: usize = if version == 1 {
            44
        } else {
            28
        };
        if plen < fixed_end {
            return Err(Error::ShortRead);
        }
        let end = pos + plen;
        let mut cur = pos + fixed_end;
        let mut dops: Option<OpusSpecificBox> = None;
        let ghost children0 = p.subrange(fixed_end as int, plen as int);
        proof {
            assert(children0 =~= data@.subrange(cur as int, end as int));
        }
        loop
            invariant_except_break
                dops is None,
                parse_opus_children(children0, None) == parse_opus_children(
                    data@.subrange(cur as int, end as int),
                    None,
                ),
            invariant
                plen >= 28,
                fixed_end == if pbe16(p, 8) == 1 { 44int } else { 28int },
                fixed_end <= plen,
                pos + fixed_end <= cur <= end,
                end == pos + plen,
                pos + plen <= data@.len(),
                data@.len() <= usize::MAX,
                p == data@.subrange(pos as int, pos + plen),
                children0 == p.subrange(fixed_end as int, plen as int),
            ensures
                match dops {
                    Some(d) => parse_opus_children(children0, None) == Some(Some(d@)) && d@.wf(),
                    None => parse_opus_children(children0, None) == Some(None::<DopsView>),
                },
            decreases end - cur,
        {
            let ghost region = data@.subrange(cur as int, end as int);
            proof {
                lemma_parse_opus(p);
            }
            if end - cur < 8 {
                break ;
            }
            let (header, hl) = match BoxHeader::read(data, cur, end) {
                Ok(v) => v,
                Err(e) => {
                    proof {
                        assert(parse_opus_children(region, None) is None);
                    }
                    return Err(e);
                },
            };
            let size = header.size;
            if size == 0 {
                break ;
            }
            if size > (end - cur) as u64 {
                proof {
                    assert(parse_opus_children(region, None) is None);
                }
                return Err(Error::InvalidData);
            }
            let szu = size as usize;
            match header.name {
                BoxType::DopsBox => {
                    proof {
                        assert(region.subrange(hl as int, szu as int) =~= data@.subrange(
                            cur + hl,
                            cur + szu,
                        ));
                    }
                    let d = match OpusSpecificBox::read_box(data, cur + hl, szu - hl) {
                        Ok(d) => d,
                        Err(e) => {
                            proof {
                                assert(parse_opus_children(region, None) is None);
                            }
                            return Err(e);
                        },
                    };
                    proof {
                        assert(parse_opus_children(region, None) == Some(Some(d@)));
                    }
                    dops = Some(d);
                    break ;
                },
                _ => {
                    proof {
                        assert(region.subrange(szu as int, region.len() as int) =~= data@.subrange(
                            cur + szu,
                            end as int,
                        ));
                        assert(parse_opus_children(region, None) == parse_opus_children(
                            data@.subrange(cur + szu, end as int),
                            None,
                        ));
                    }
                    cur = cur + szu;
                },
            }
        }
        let r = OpusBox { data_reference_index, channelcount, samplesize, samplerate, dops };
        proof {
            assert(parse_opus(p) == Some(r@));
        }
        Ok(r)
    }

    /// Encode this box, configuration child included. The bytes emitted are
    /// exactly the declared size.
    pub fn write_box(&self, out: &mut Vec<u8>) -> (r: Result<u64, Error>)
        requires
            self@.wf(),
        ensures
            r is Ok && r.unwrap() == self@.size(),
            final(out)@ == old(out)@ + ser_opus(self@),
    {
        let size = self.box_size();
        BoxHeader::new(BoxType::OpusBox, size).write(out);
        put_u32(out, 0);
        put_u16(out, 0);
        put_u16(out, self.data_reference_index);
        put_u32(out, 0);
        put_u32(out, 0);
        put_u16(out, self.channelcount);
        put_u16(out, self.samplesize);
        put_u32(out, 0);
        put_u32(out, self.samplerate.raw);
        match self.dops {
            Some(ref dops) => {
                dops.write_box(out);
            },
            None => {},
        }
        proof {
            reveal(ser_opus);
            reveal(payload_opus);
            assert(out@ =~= old(out)@ + ser_opus(self@));
        }
        Ok(size)
    }
}

/// The configuration values a fresh sample entry starts from.
pub fn default_dops() -> (r: OpusSpecificBox)
    ensures
        r@.wf(),
        r@.version == 0 && r@.output_channel_count == 0 && r@.pre_skip == 0
            && r@.input_sample_rate == 0 && r@.outupt_gain == 0 && r@.channel_mapping_family == 0,
        r@.channel_mapping_table is None,
{
    OpusSpecificBox {
        version: 0,
        output_channel_count: 0,
        pre_skip: 0,
        input_sample_rate: 0,
        outupt_gain: 0,
        channel_mapping_family: 0,
        channel_mapping_table: None,
    }
}

/// Field-by-field copy.
pub fn clone_opus(b: &OpusBox) -> (r: OpusBox)
    ensures
        r@ == b@,
{
    OpusBox {
        data_reference_index: b.data_reference_index,
        channelcount: b.channelcount,
        samplesize: b.samplesize,
        samplerate: b.samplerate,
        dops: match b.dops {
            Some(ref d) => Some(clone_dops(d)),
            None => None,
        },
    }
}

} // verus!

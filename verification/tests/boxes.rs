//! Byte-level tests for the box codecs: exact images, declared sizes, and
//! decode-of-encode round trips.

use mp4::header::{BoxHeader, BoxType};
use mp4::ftyp::FtypBox;
use mp4::mdat::MdatBox;
use mp4::opus::{ChannelMappingTable, OpusBox, OpusSpecificBox};
use mp4::{Error, FourCC, FixedPointU16};

fn be32(v: u32) -> [u8; 4] {
    v.to_be_bytes()
}

fn push_header(out: &mut Vec<u8>, size: u32, tag: u32) {
    out.extend_from_slice(&be32(size));
    out.extend_from_slice(&be32(tag));
}

#[test]
fn header_roundtrip_short_form() {
    let mut out: Vec<u8> = Vec::new();
    let h = BoxHeader::new(BoxType::MdatBox, 24);
    let hl = h.write(&mut out);
    assert_eq!(hl, 8);
    assert_eq!(out, vec![0, 0, 0, 24, 0x6d, 0x64, 0x61, 0x74]);
    let (back, len) = BoxHeader::read(&out, 0, out.len()).unwrap();
    assert_eq!(len, 8);
    assert_eq!(back.size, 24);
    assert!(matches!(back.name, BoxType::MdatBox));
}

#[test]
fn header_large_size_extension_roundtrip() {
    // Outer size field 1, then a 64-bit extended size of 5,000,000,000.
    let big: u64 = 5_000_000_000;
    let mut out: Vec<u8> = Vec::new();
    let h = BoxHeader::new(BoxType::MdatBox, big);
    let hl = h.write(&mut out);
    assert_eq!(hl, 16);
    assert_eq!(&out[0..4], &[0, 0, 0, 1]);
    assert_eq!(&out[8..16], &big.to_be_bytes());
    let (back, len) = BoxHeader::read(&out, 0, out.len()).unwrap();
    assert_eq!(len, 16);
    assert_eq!(back.size, big);
}

#[test]
fn header_size_below_minimum_is_malformed() {
    let mut data: Vec<u8> = Vec::new();
    push_header(&mut data, 5, 0x66747970);
    assert_eq!(BoxHeader::read(&data, 0, data.len()), Err(Error::InvalidData));
}

#[test]
fn header_unknown_tag_is_kept_verbatim() {
    let mut data: Vec<u8> = Vec::new();
    push_header(&mut data, 8, 0x61626364);
    let (h, _) = BoxHeader::read(&data, 0, data.len()).unwrap();
    assert!(matches!(h.name, BoxType::UnknownBox(0x61626364)));
    let mut out: Vec<u8> = Vec::new();
    h.write(&mut out);
    assert_eq!(out, data);
}

#[test]
fn ftyp_roundtrip_and_size() {
    let b = FtypBox {
        major_brand: FourCC::new(0x6d703432),
        minor_version: 512,
        compatible_brands: vec![FourCC::new(0x6d703431), FourCC::new(0x69736f6d)],
    };
    assert_eq!(b.box_size(), 16 + 8);
    let mut out: Vec<u8> = Vec::new();
    let written = b.write_box(&mut out).unwrap();
    assert_eq!(written, 24);
    assert_eq!(out.len() as u64, written);
    let back = FtypBox::read_box(&out, 8, out.len() - 8).unwrap();
    assert_eq!(back.major_brand, b.major_brand);
    assert_eq!(back.minor_version, 512);
    assert_eq!(back.compatible_brands, b.compatible_brands);
}

#[test]
fn ftyp_short_payload_is_short_read() {
    let data: Vec<u8> = vec![0, 0, 0, 1];
    assert_eq!(
        FtypBox::read_box(&data, 0, data.len()).unwrap_err(),
        Error::ShortRead
    );
}

#[test]
fn mdat_roundtrip_and_size() {
    let payload: Vec<u8> = vec![9, 8, 7, 6, 5];
    let b = MdatBox::new(payload.clone());
    assert_eq!(b.get_size(), 13);
    assert!(matches!(b.get_type(), BoxType::MdatBox));
    let mut out: Vec<u8> = Vec::new();
    let written = b.write_box(&mut out).unwrap();
    assert_eq!(written, 13);
    assert_eq!(out.len() as u64, written);
    assert_eq!(&out[8..], &payload[..]);
    let back = MdatBox::read_box(&out, 8, out.len() - 8).unwrap();
    assert_eq!(back.data(), &payload);
}

#[test]
fn dops_family_zero_has_no_mapping_table() {
    // Channel-mapping-family 0: no table, and the declared size counts none.
    let b = OpusSpecificBox {
        version: 0,
        output_channel_count: 2,
        pre_skip: 312,
        input_sample_rate: 48000,
        outupt_gain: -3,
        channel_mapping_family: 0,
        channel_mapping_table: None,
    };
    assert_eq!(b.box_size(), 8 + 11);
    let mut out: Vec<u8> = Vec::new();
    let written = b.write_box(&mut out).unwrap();
    assert_eq!(written, 19);
    assert_eq!(out.len(), 19);
    let back = OpusSpecificBox::read_box(&out, 8, out.len() - 8).unwrap();
    assert_eq!(back.output_channel_count, 2);
    assert_eq!(back.pre_skip, 312);
    assert_eq!(back.input_sample_rate, 48000);
    assert_eq!(back.outupt_gain, -3);
    assert!(back.channel_mapping_table.is_none());
}

#[test]
fn dops_family_nonzero_table_takes_two_plus_channel_count_bytes() {
    // Family 1 with 3 output channels: the table occupies exactly 2 + 3 bytes.
    let b = OpusSpecificBox {
        version: 0,
        output_channel_count: 3,
        pre_skip: 0,
        input_sample_rate: 44100,
        outupt_gain: 0,
        channel_mapping_family: 1,
        channel_mapping_table: Some(ChannelMappingTable {
            stream_count: 2,
            coupled_count: 1,
            channel_mapping: vec![0, 1, 2],
        }),
    };
    assert_eq!(b.box_size(), 8 + 11 + 2 + 3);
    let mut out: Vec<u8> = Vec::new();
    let written = b.write_box(&mut out).unwrap();
    assert_eq!(written, 24);
    assert_eq!(out.len(), 24);
    let back = OpusSpecificBox::read_box(&out, 8, out.len() - 8).unwrap();
    let cmt = back.channel_mapping_table.unwrap();
    assert_eq!(cmt.stream_count, 2);
    assert_eq!(cmt.coupled_count, 1);
    assert_eq!(cmt.channel_mapping, vec![0, 1, 2]);
}

#[test]
fn dops_bad_version_is_malformed() {
    let data: Vec<u8> = vec![1, 0, 0, 0, 0, 0, 0, 0, 0, 0, 0];
    assert_eq!(
        OpusSpecificBox::read_box(&data, 0, data.len()).unwrap_err(),
        Error::InvalidData
    );
}

#[test]
fn dops_truncated_mapping_table_is_short_read() {
    // Family 1 declares a table, but only one of the 2 + 4 table bytes follows.
    let data: Vec<u8> = vec![0, 4, 0, 0, 0, 0, 0, 0, 0, 0, 1, 2];
    assert_eq!(
        OpusSpecificBox::read_box(&data, 0, data.len()).unwrap_err(),
        Error::ShortRead
    );
}

#[test]
fn opus_sample_entry_roundtrip_with_config_child() {
    let b = OpusBox {
        data_reference_index: 1,
        channelcount: 2,
        samplesize: 16,
        samplerate: FixedPointU16::new(48000),
        dops: Some(OpusSpecificBox {
            version: 0,
            output_channel_count: 2,
            pre_skip: 120,
            input_sample_rate: 48000,
            outupt_gain: 0,
            channel_mapping_family: 0,
            channel_mapping_table: None,
        }),
    };
    assert_eq!(b.get_size(), 8 + 8 + 20 + 19);
    let mut out: Vec<u8> = Vec::new();
    let written = b.write_box(&mut out).unwrap();
    assert_eq!(written, b.get_size());
    assert_eq!(out.len() as u64, written);
    let back = OpusBox::read_box(&out, 8, out.len() - 8).unwrap();
    assert_eq!(back.data_reference_index, 1);
    assert_eq!(back.channelcount, 2);
    assert_eq!(back.samplesize, 16);
    assert_eq!(back.samplerate.raw_value(), 48000 << 16);
    let d = back.dops.unwrap();
    assert_eq!(d.pre_skip, 120);
    assert_eq!(d.input_sample_rate, 48000);
}

#[test]
fn opus_new_defaults() {
    let b = OpusBox::new();
    assert!(matches!(b.get_type(), BoxType::OpusBox));
    assert_eq!(b.data_reference_index, 1);
    assert_eq!(b.channelcount, 0);
    assert_eq!(b.samplesize, 16);
    assert_eq!(b.samplerate.value(), 48000);
    assert!(b.dops.is_some());
}

#[test]
fn opus_oversized_child_is_malformed() {
    // A sample entry whose configuration child declares more bytes than the
    // region holds.
    let mut out: Vec<u8> = Vec::new();
    for _ in 0..28 {
        out.push(0);
    }
    push_header(&mut out, 100, 0x644f7073);
    assert_eq!(
        OpusBox::read_box(&out, 0, out.len()).unwrap_err(),
        Error::InvalidData
    );
}

#[test]
fn fixed_point_values() {
    let r = FixedPointU16::new(48000);
    assert_eq!(r.value(), 48000);
    assert_eq!(r.raw_value(), 48000 << 16);
    let raw = FixedPointU16::new_raw(0x00010000);
    assert_eq!(raw.value(), 1);
}

//! Stream-level tests: the top-level walk, the fragment entry point, the
//! traversal guards and the initialization-segment writer.

use mp4::header::BoxType;
use mp4::moov::MoovBox;
use mp4::muxer::{AudioTrack, AvcConfig, Codec, H264, Muxer, Opus, Track, VideoTrack};
use mp4::reader::Mp4Reader;
use mp4::{Error, FourCC};

fn push_header(out: &mut Vec<u8>, size: u32, tag: u32) {
    out.extend_from_slice(&size.to_be_bytes());
    out.extend_from_slice(&tag.to_be_bytes());
}

fn ftyp_bytes() -> Vec<u8> {
    // ftyp(major_brand = "mp42", minor 0, compatible = ["mp41", "mp42", "isom"])
    let mut out: Vec<u8> = Vec::new();
    push_header(&mut out, 28, 0x66747970);
    out.extend_from_slice(&0x6d703432u32.to_be_bytes());
    out.extend_from_slice(&0u32.to_be_bytes());
    out.extend_from_slice(&0x6d703431u32.to_be_bytes());
    out.extend_from_slice(&0x6d703432u32.to_be_bytes());
    out.extend_from_slice(&0x69736f6du32.to_be_bytes());
    out
}

fn moof_bytes(sequence_number: u32) -> Vec<u8> {
    let mut out: Vec<u8> = Vec::new();
    push_header(&mut out, 24, 0x6d6f6f66);
    push_header(&mut out, 16, 0x6d666864);
    out.extend_from_slice(&0u32.to_be_bytes());
    out.extend_from_slice(&sequence_number.to_be_bytes());
    out
}

fn mdat_bytes(payload: &[u8]) -> Vec<u8> {
    let mut out: Vec<u8> = Vec::new();
    push_header(&mut out, 8 + payload.len() as u32, 0x6d646174);
    out.extend_from_slice(payload);
    out
}

#[test]
fn scenario_ftyp_then_empty_moov() {
    // Parsing ftyp followed by an empty moov yields an aggregate with both
    // present and no fragments, and re-encoding the file-type box reproduces
    // its bytes exactly.
    let ftyp = ftyp_bytes();
    let mut data = ftyp.clone();
    push_header(&mut data, 8, 0x6d6f6f76);
    let rd = Mp4Reader::read_header(&data, data.len() as u64).unwrap();
    let c = rd.container();
    assert!(c.ftyp.is_some());
    assert!(c.moov.is_some());
    assert!(c.moofs.is_empty());
    assert!(!c.is_fragmented());
    let f = c.ftyp.as_ref().unwrap();
    assert_eq!(f.major_brand, FourCC::new(0x6d703432));
    assert_eq!(
        f.compatible_brands,
        vec![
            FourCC::new(0x6d703431),
            FourCC::new(0x6d703432),
            FourCC::new(0x69736f6d)
        ]
    );
    let mut re: Vec<u8> = Vec::new();
    f.write_box(&mut re).unwrap();
    assert_eq!(re, ftyp);
}

#[test]
fn scenario_fragment_stream() {
    // A fragment-only stream of one movie-fragment box and one media-data box
    // of 1024 zero bytes, parsed through the fragment entry point.
    let init = ftyp_bytes();
    let mut stream = init.clone();
    push_header(&mut stream, 8, 0x6d6f6f76);
    let rd = Mp4Reader::read_header(&stream, stream.len() as u64).unwrap();

    let mut frag = moof_bytes(1);
    frag.extend_from_slice(&mdat_bytes(&[0u8; 1024]));
    let frag_rd = rd.read_fragment_header(&frag, frag.len() as u64).unwrap();
    assert_eq!(frag_rd.mp4.moofs.len(), 1);
    assert_eq!(frag_rd.mp4.moofs[0].mfhd.sequence_number, 1);
    assert_eq!(frag_rd.mp4.mdat.as_ref().unwrap().data().len(), 1024);
    assert_eq!(frag_rd.moof_offsets, vec![0u64]);
    assert!(frag_rd.mp4.is_fragmented());
    // The initialization boxes are carried over by copy.
    assert!(frag_rd.mp4.ftyp.is_some());
    assert!(frag_rd.mp4.moov.is_some());
    assert!(frag_rd.mp4.emsgs.is_empty());
}

#[test]
fn fragment_offset_reflects_position_in_stream() {
    // A fragment box that is not first: its recorded offset is its absolute
    // start position.
    let mut stream = mdat_bytes(&[7u8; 16]);
    let at = stream.len() as u64;
    stream.extend_from_slice(&moof_bytes(9));
    let init = Mp4Reader::read_header(&ftyp_bytes(), 28).unwrap();
    let rd = init.read_fragment_header(&stream, stream.len() as u64).unwrap();
    assert_eq!(rd.moof_offsets, vec![at]);
    assert_eq!(rd.mp4.moofs[0].mfhd.sequence_number, 9);
}

#[test]
fn zero_size_header_terminates_traversal() {
    // A declared size of 0 ends the walk at once: the boxes found before it
    // are returned, and the garbage after it is never consumed.
    let mut data = ftyp_bytes();
    push_header(&mut data, 0, 0x6d6f6f76);
    data.extend_from_slice(&[0xff; 32]);
    let rd = Mp4Reader::read_header(&data, data.len() as u64).unwrap();
    assert!(rd.mp4.ftyp.is_some());
    assert!(rd.mp4.moov.is_none());
    assert!(rd.mp4.moofs.is_empty());
}

#[test]
fn oversized_child_is_rejected() {
    // A top-level box that declares more bytes than the stream holds.
    let mut data = ftyp_bytes();
    push_header(&mut data, 1000, 0x6d6f6f76);
    assert_eq!(
        Mp4Reader::read_header(&data, data.len() as u64).unwrap_err(),
        Error::InvalidData
    );
}

#[test]
fn trailing_fragment_shorter_than_header_is_tolerated() {
    let mut data = ftyp_bytes();
    data.extend_from_slice(&[0, 0, 0]);
    let rd = Mp4Reader::read_header(&data, data.len() as u64).unwrap();
    assert!(rd.mp4.ftyp.is_some());
}

#[test]
fn unrecognized_top_level_boxes_are_skipped() {
    let mut data: Vec<u8> = Vec::new();
    push_header(&mut data, 12, 0x61626364);
    data.extend_from_slice(&[1, 2, 3, 4]);
    data.extend_from_slice(&ftyp_bytes());
    let rd = Mp4Reader::read_header(&data, data.len() as u64).unwrap();
    assert!(rd.mp4.ftyp.is_some());
}

#[test]
fn fragmentation_flag_follows_fragment_count() {
    let data = ftyp_bytes();
    let rd = Mp4Reader::read_header(&data, data.len() as u64).unwrap();
    assert!(!rd.mp4.is_fragmented());
    let frag = moof_bytes(1);
    let rd2 = rd.read_fragment_header(&frag, frag.len() as u64).unwrap();
    assert!(rd2.mp4.is_fragmented());
}

#[test]
fn write_init_roundtrips_through_reader() {
    // A muxed initialization segment parses back to the same shape.
    let mut muxer = Muxer::new(
        FourCC::new(0x6d703432),
        512,
        vec![FourCC::new(0x6d703432), FourCC::new(0x69736f6d)],
    );
    muxer.push_track(Track::Video(VideoTrack {
        id: 1,
        max_bitrate: 0,
        avg_bitrate: 0,
        width: 640,
        height: 480,
        codec: Codec::H264(H264::new(&AvcConfig {
            width: 640,
            height: 480,
        })),
    }));
    muxer.push_track(Track::Audio(AudioTrack {
        id: 2,
        max_bitrate: 0,
        avg_bitrate: 0,
        volume: 1,
        codec: Codec::Opus(Opus {}),
    }));
    let mut out: Vec<u8> = Vec::new();
    muxer.write_init(&mut out).unwrap();
    let rd = Mp4Reader::read_header(&out, out.len() as u64).unwrap();
    let moov: &MoovBox = rd.mp4.moov.as_ref().unwrap();
    assert_eq!(moov.traks.len(), 2);
    let mvhd = moov.mvhd.as_ref().unwrap();
    assert_eq!(mvhd.timescale, 1000);
    assert_eq!(mvhd.rate.value(), 1);
    let video = &moov.traks[0];
    assert_eq!(video.tkhd.width.value(), 640);
    assert_eq!(video.tkhd.height.value(), 480);
    assert_eq!(video.mdia.mdhd.timescale, 90000);
    assert_eq!(video.mdia.hdlr.handler_type, FourCC::new(0x76696465));
    assert!(video.mdia.minf.vmhd.is_some());
    assert!(video.mdia.minf.stbl.stsd.avc1.is_some());
    let audio = &moov.traks[1];
    assert_eq!(audio.mdia.mdhd.timescale, 48000);
    assert_eq!(audio.mdia.hdlr.handler_type, FourCC::new(0x736f756e));
    assert!(audio.mdia.minf.smhd.is_some());
    let opus = audio.mdia.minf.stbl.stsd.opus.as_ref().unwrap();
    assert_eq!(opus.channelcount, 2);
    assert_eq!(opus.samplerate.value(), 48000);
    // The written stream's total length equals the two declared sizes.
    let f = rd.mp4.ftyp.as_ref().unwrap();
    assert_eq!(out.len() as u64, f.box_size() + moov.box_size());
}

#[test]
fn timescales_are_fixed_per_medium() {
    let v = VideoTrack {
        id: 1,
        max_bitrate: 0,
        avg_bitrate: 0,
        width: 1,
        height: 1,
        codec: Codec::Opus(Opus {}),
    };
    assert_eq!(v.timescale(), 90000);
    let a = AudioTrack {
        id: 1,
        max_bitrate: 0,
        avg_bitrate: 0,
        volume: 0,
        codec: Codec::Opus(Opus {}),
    };
    assert_eq!(a.timescale(), 48000);
}

#[test]
fn track_dispatch_builds_the_right_subtree() {
    let t = Track::Audio(AudioTrack {
        id: 1,
        max_bitrate: 0,
        avg_bitrate: 0,
        volume: 1,
        codec: Codec::Opus(Opus {}),
    });
    let trak = t.get_trak_box();
    assert_eq!(trak.tkhd.alternate_group, 1);
    assert!(trak.mdia.minf.smhd.is_some());
    assert!(trak.mdia.minf.vmhd.is_none());
    assert!(matches!(trak.mdia.minf.stbl.stsd.opus.as_ref().unwrap().get_type(), BoxType::OpusBox));
}

#[test]
fn metadata_follows_the_user_data_chain() {
    // An empty moov has no user data, so no metadata item list.
    let mut data: Vec<u8> = Vec::new();
    push_header(&mut data, 8, 0x6d6f6f76);
    let rd = Mp4Reader::read_header(&data, data.len() as u64).unwrap();
    assert!(rd.metadata().is_none());

    // A moov carrying udta/meta/ilst hands the item list out.
    let mut data2: Vec<u8> = Vec::new();
    push_header(&mut data2, 44, 0x6d6f6f76);
    push_header(&mut data2, 36, 0x75647461);
    push_header(&mut data2, 28, 0x6d657461);
    data2.extend_from_slice(&0u32.to_be_bytes());
    push_header(&mut data2, 16, 0x696c7374);
    data2.extend_from_slice(&[1, 2, 3, 4, 5, 6, 7, 8]);
    let rd2 = Mp4Reader::read_header(&data2, data2.len() as u64).unwrap();
    let ilst = rd2.metadata().unwrap();
    assert_eq!(ilst.data, vec![1, 2, 3, 4, 5, 6, 7, 8]);
}

#[test]
fn moov_size_matches_bytes_written() {
    let mut muxer = Muxer::new(FourCC::new(0x69736f6d), 0, vec![]);
    muxer.push_track(Track::Audio(AudioTrack {
        id: 1,
        max_bitrate: 0,
        avg_bitrate: 0,
        volume: 1,
        codec: Codec::Opus(Opus {}),
    }));
    let mut out: Vec<u8> = Vec::new();
    muxer.write_init(&mut out).unwrap();
    let rd = Mp4Reader::read_header(&out, out.len() as u64).unwrap();
    let moov = rd.mp4.moov.as_ref().unwrap();
    let mut re: Vec<u8> = Vec::new();
    let written = moov.write_box(&mut re).unwrap();
    assert_eq!(written as usize, re.len());
    // Re-encoding the parsed movie box reproduces its bytes.
    assert_eq!(&out[16..], &re[..]);
}

//! The track builders and the initialization-segment writer: assemble movie
//! and track structures from codec parameters and emit them through the
//! verified box writers.

use vstd::prelude::*;

use crate::ftyp::{FtypBox, FtypView, ser_ftyp};
use crate::moov::{MoovBox, MoovView, MvhdBox, ser_moov};
use crate::opus::{OpusBox, OpusView, DopsView, default_dops};
use crate::trak::{TrakBox, TrakView, TkhdBox, MdiaBox, MdiaView, MdhdBox, HdlrBox, HdlrView,
    MinfBox, MinfView, VmhdBox, SmhdBox, DinfBox, StblBox, StblView, StsdBox, StsdView, Avc1Box};
use crate::{Error, FourCC, FixedPointU16, FixedPointU8};

verus! {

/// The AVC codec parameters the builders consume.
#[derive(Clone, Copy, PartialEq, Eq, Structural, Debug)]
pub struct AvcConfig {
    pub width: u16,
    pub height: u16,
}

/// An AVC codec choice.
#[derive(Clone, Copy, Debug)]
pub struct H264 {
    pub config: AvcConfig,
}

/// An Opus codec choice.
#[derive(Clone, Copy, Debug)]
pub struct Opus {
}

/// The codec of one track.
#[derive(Clone, Copy, Debug)]
pub enum Codec {
    H264(H264),
    Opus(Opus),
}

/// The sample-entry configuration a fresh Opus track starts from.
pub open spec fn opus_default_view() -> OpusView {
    OpusView {
        data_reference_index: 0,
        channelcount: 2,
        samplesize: 16,
        samplerate: FixedPointU16 { raw: 0xbb800000u32 },
        dops: Some(
            DopsView {
                version: 0,
                output_channel_count: 0,
                pre_skip: 0,
                input_sample_rate: 0,
                outupt_gain: 0,
                channel_mapping_family: 0,
                channel_mapping_table: None,
            },
        ),
    }
}

/// The sample table an AVC track starts from: one visual sample entry.
pub open spec fn h264_stbl_view() -> StblView {
    StblView {
        stsd: StsdView {
            version: 0,
            flags: 0,
            entry_count: 1,
            avc1: Some(Avc1Box { data_reference_index: 0, width: 0, height: 0 }),
            opus: None,
        },
    }
}

/// The sample table an Opus track starts from: one audio sample entry.
pub open spec fn opus_stbl_view() -> StblView {
    StblView {
        stsd: StsdView {
            version: 0,
            flags: 0,
            entry_count: 1,
            avc1: None,
            opus: Some(opus_default_view()),
        },
    }
}

/// The sample table a codec choice yields.
pub open spec fn stbl_of(c: Codec) -> StblView {
    match c {
        Codec::H264(_) => h264_stbl_view(),
        Codec::Opus(_) => opus_stbl_view(),
    }
}

impl H264 {
    pub fn new(config: &AvcConfig) -> (r: H264)
        ensures
            r.config == *config,
    {
        H264 { config: *config }
    }

    /// The sample table of a fresh AVC track.
    pub fn get_box(&self) -> (r: StblBox)
        ensures
            r@ == h264_stbl_view(),
            r@.wf(),
    {
        StblBox {
            stsd: StsdBox {
                version: 0,
                flags: 0,
                entry_count: 1,
                avc1: Some(Avc1Box::default()),
                opus: None,
            },
        }
    }
}

impl Opus {
    /// The sample table of a fresh Opus track.
    pub fn get_box(&self) -> (r: StblBox)
        ensures
            r@ == opus_stbl_view(),
            r@.wf(),
    {
        StblBox {
            stsd: StsdBox {
                version: 0,
                flags: 0,
                entry_count: 1,
                avc1: None,
                opus: Some(
                    OpusBox {
                        data_reference_index: 0,
                        channelcount: 2,
                        samplesize: 16,
                        samplerate: FixedPointU16::new(48000),
                        dops: Some(default_dops()),
                    },
                ),
            },
        }
    }
}

impl Codec {
    /// The sample table of a fresh track of this codec.
    pub fn get_box(&self) -> (r: StblBox)
        ensures
            r@ == stbl_of(*self),
            r@.wf(),
    {
        match self {
            Codec::H264(h264) => h264.get_box(),
            Codec::Opus(opus) => opus.get_box(),
        }
    }
}

/// A video track to assemble.
#[derive(Clone, Copy, Debug)]
pub struct VideoTrack {
    pub id: u32,
    pub max_bitrate: u32,
    pub avg_bitrate: u32,
    pub width: u16,
    pub height: u16,
    pub codec: Codec,
}

/// An audio track to assemble.
#[derive(Clone, Copy, Debug)]
pub struct AudioTrack {
    pub id: u32,
    pub max_bitrate: u32,
    pub avg_bitrate: u32,
    pub volume: u8,
    pub codec: Codec,
}

/// A track to assemble.
#[derive(Clone, Copy, Debug)]
pub enum Track {
    Video(VideoTrack),
    Audio(AudioTrack),
}

/// The handler name a video track carries.
pub open spec fn video_handler_name() -> Seq<u8> {
    seq![0x56u8, 0x69u8, 0x64u8, 0x65u8, 0x6fu8, 0x48u8, 0x61u8, 0x6eu8, 0x64u8, 0x6cu8, 0x65u8,
        0x72u8]
}

/// The handler name an audio track carries.
pub open spec fn sound_handler_name() -> Seq<u8> {
    seq![0x53u8, 0x6fu8, 0x75u8, 0x6eu8, 0x64u8, 0x48u8, 0x61u8, 0x6eu8, 0x64u8, 0x6cu8, 0x65u8,
        0x72u8]
}

/// The track box a video track builds.
pub open spec fn video_trak_view(t: VideoTrack) -> TrakView {
    TrakView {
        tkhd: TkhdBox {
            version: 0,
            flags: 0,
            track_id: 0,
            duration: 0,
            layer: 0,
            alternate_group: 0,
            volume: FixedPointU8 { raw: 0 },
            width: FixedPointU16 { raw: (t.width * 0x10000) as u32 },
            height: FixedPointU16 { raw: (t.height * 0x10000) as u32 },
        },
        mdia: MdiaView {
            mdhd: MdhdBox { version: 0, flags: 0, timescale: 90000, duration: 0, language: 0x55c4 },
            hdlr: HdlrView {
                version: 0,
                flags: 0,
                handler_type: FourCC { value: 0x76696465 },
                name: video_handler_name(),
            },
            minf: MinfView {
                vmhd: Some(
                    VmhdBox {
                        version: 0,
                        flags: 1,
                        graphics_mode: 0,
                        op_color_red: 0,
                        op_color_green: 0,
                        op_color_blue: 0,
                    },
                ),
                smhd: None,
                dinf: DinfBox {  },
                stbl: stbl_of(t.codec),
            },
        },
    }
}

/// The track box an audio track builds.
pub open spec fn audio_trak_view(t: AudioTrack) -> TrakView {
    TrakView {
        tkhd: TkhdBox {
            version: 0,
            flags: 0,
            track_id: 0,
            duration: 0,
            layer: 0,
            alternate_group: 1,
            volume: FixedPointU8 { raw: (t.volume * 0x100) as u16 },
            width: FixedPointU16 { raw: 0 },
            height: FixedPointU16 { raw: 0 },
        },
        mdia: MdiaView {
            mdhd: MdhdBox { version: 0, flags: 0, timescale: 48000, duration: 0, language: 0x55c4 },
            hdlr: HdlrView {
                version: 0,
                flags: 0,
                handler_type: FourCC { value: 0x736f756e },
                name: sound_handler_name(),
            },
            minf: MinfView {
                vmhd: None,
                smhd: Some(SmhdBox { version: 0, flags: 0, balance: FixedPointU8 { raw: 0 } }),
                dinf: DinfBox {  },
                stbl: stbl_of(t.codec),
            },
        },
    }
}

/// The track box a track builds.
pub open spec fn trak_of(t: Track) -> TrakView {
    match t {
        Track::Video(v) => video_trak_view(v),
        Track::Audio(a) => audio_trak_view(a),
    }
}

/// Every built track box is well formed.
pub proof fn lemma_trak_of_wf(t: Track)
    ensures
        trak_of(t).wf(),
{
}

impl VideoTrack {
    /// Video timing runs at a fixed tick rate.
    pub fn timescale(&self) -> (r: u32)
        ensures
            r == 90000,
    {
        90000
    }

    /// Assemble the track box: track header and media subtree with a video
    /// media header.
    pub fn get_trak_box(&self) -> (r: TrakBox)
        ensures
            r@ == video_trak_view(*self),
            r@.wf(),
    {
        let name: Vec<u8> = vec![0x56u8, 0x69u8, 0x64u8, 0x65u8, 0x6fu8, 0x48u8, 0x61u8, 0x6eu8,
            0x64u8, 0x6cu8, 0x65u8, 0x72u8];
        proof {
            assert(name@ =~= video_handler_name());
        }
        let mut tkhd = TkhdBox::default();
        tkhd.width = FixedPointU16::new(self.width);
        tkhd.height = FixedPointU16::new(self.height);
        TrakBox {
            tkhd,
            mdia: MdiaBox {
                mdhd: MdhdBox {
                    version: 0,
                    flags: 0,
                    timescale: self.timescale(),
                    duration: 0,
                    language: 0x55c4,
                },
                hdlr: HdlrBox {
                    version: 0,
                    flags: 0,
                    handler_type: FourCC::new(0x76696465),
                    name,
                },
                minf: MinfBox {
                    vmhd: Some(
                        VmhdBox {
                            version: 0,
                            flags: 1,
                            graphics_mode: 0,
                            op_color_red: 0,
                            op_color_green: 0,
                            op_color_blue: 0,
                        },
                    ),
                    smhd: None,
                    dinf: DinfBox::default(),
                    stbl: self.codec.get_box(),
                },
            },
        }
    }
}

impl AudioTrack {
    /// Audio timing runs at the sample rate.
    pub fn timescale(&self) -> (r: u32)
        ensures
            r == 48000,
    {
        48000
    }

    /// Assemble the track box: track header and media subtree with a sound
    /// media header.
    pub fn get_trak_box(&self) -> (r: TrakBox)
        ensures
            r@ == audio_trak_view(*self),
            r@.wf(),
    {
        let name: Vec<u8> = vec![0x53u8, 0x6fu8, 0x75u8, 0x6eu8, 0x64u8, 0x48u8, 0x61u8, 0x6eu8,
            0x64u8, 0x6cu8, 0x65u8, 0x72u8];
        proof {
            assert(name@ =~= sound_handler_name());
        }
        let mut tkhd = TkhdBox::default();
        tkhd.volume = FixedPointU8::new(self.volume);
        tkhd.alternate_group = 1;
        TrakBox {
            tkhd,
            mdia: MdiaBox {
                mdhd: MdhdBox {
                    version: 0,
                    flags: 0,
                    timescale: self.timescale(),
                    duration: 0,
                    language: 0x55c4,
                },
                hdlr: HdlrBox {
                    version: 0,
                    flags: 0,
                    handler_type: FourCC::new(0x736f756e),
                    name,
                },
                minf: MinfBox {
                    vmhd: None,
                    smhd: Some(SmhdBox::default()),
                    dinf: DinfBox::default(),
                    stbl: self.codec.get_box(),
                },
            },
        }
    }
}

impl Track {
    /// Assemble the track box for this track's kind.
    pub fn get_trak_box(&self) -> (r: TrakBox)
        ensures
            r@ == trak_of(*self),
            r@.wf(),
    {
        match self {
            Track::Video(video) => video.get_trak_box(),
            Track::Audio(audio) => audio.get_trak_box(),
        }
    }
}

/// Assembles an initialization segment: a file-type box and a movie box
/// holding one track subtree per pushed track.
#[derive(Debug)]
pub struct Muxer {
    pub major_brand: FourCC,
    pub minor_version: u32,
    pub compatible_brands: Vec<FourCC>,
    pub tracks: Vec<Track>,
}

/// The file-type box the writer emits.
pub open spec fn muxer_ftyp_view(m: &Muxer) -> FtypView {
    FtypView {
        major_brand: m.major_brand,
        minor_version: m.minor_version,
        compatible_brands: m.compatible_brands@,
    }
}

/// The movie box the writer emits: a fixed movie header and the pushed
/// tracks in order.
pub open spec fn muxer_moov_view(m: &Muxer) -> MoovView {
    MoovView {
        mvhd: Some(
            MvhdBox {
                version: 0,
                flags: 0,
                timescale: 1000,
                duration: 0,
                rate: FixedPointU16 { raw: 0x10000 },
                volume: FixedPointU8 { raw: 0x100 },
            },
        ),
        traks: m.tracks@.map_values(|t: Track| trak_of(t)),
        udta: None,
    }
}

impl Muxer {
    pub fn new(major_brand: FourCC, minor_version: u32, compatible_brands: Vec<FourCC>) -> (r:
        Muxer)
        ensures
            r.major_brand == major_brand,
            r.minor_version == minor_version,
            r.compatible_brands@ == compatible_brands@,
            r.tracks@.len() == 0,
    {
        Muxer { major_brand, minor_version, compatible_brands, tracks: Vec::new() }
    }

    /// Add one track to the initialization segment.
    pub fn push_track(&mut self, track: Track)
        ensures
            final(self).tracks@ == old(self).tracks@.push(track),
            final(self).major_brand == old(self).major_brand,
            final(self).minor_version == old(self).minor_version,
            final(self).compatible_brands@ == old(self).compatible_brands@,
    {
        self.tracks.push(track);
    }

    /// Emit the initialization segment: the file-type box then the movie
    /// box, each exactly as long as its declared size.
    pub fn write_init(&self, out: &mut Vec<u8>) -> (r: Result<(), Error>)
        requires
            muxer_ftyp_view(self).wf(),
            muxer_moov_view(self).size() <= 0xffffffff,
        ensures
            r is Ok,
            final(out)@ == old(out)@ + ser_ftyp(muxer_ftyp_view(self)) + ser_moov(
                muxer_moov_view(self),
            ),
    {
        let mut brands: Vec<FourCC> = Vec::new();
        let mut i: usize = 0;
        while i < self.compatible_brands.len()
            invariant
                i <= self.compatible_brands@.len(),
                brands@ =~= self.compatible_brands@.subrange(0, i as int),
            decreases self.compatible_brands@.len() - i,
        {
            brands.push(self.compatible_brands[i]);
            i = i + 1;
        }
        proof {
            assert(brands@ =~= self.compatible_brands@);
        }
        let ftyp = FtypBox {
            major_brand: self.major_brand,
            minor_version: self.minor_version,
            compatible_brands: brands,
        };
        ftyp.write_box(out);
        let mut traks: Vec<TrakBox> = Vec::new();
        let mut j: usize = 0;
        proof {
            assert(traks@.map_values(|t: TrakBox| t@) =~= Seq::<TrakView>::empty());
        }
        while j < self.tracks.len()
            invariant
                j <= self.tracks@.len(),
                traks@.map_values(|t: TrakBox| t@) =~= self.tracks@.map_values(
                    |t: Track| trak_of(t),
                ).subrange(0, j as int),
            decreases self.tracks@.len() - j,
        {
            let ghost pre = traks@.map_values(|t: TrakBox| t@);
            let tb = self.tracks[j].get_trak_box();
            traks.push(tb);
            j = j + 1;
            proof {
                assert(traks@.map_values(|t: TrakBox| t@) =~= pre.push(tb@));
                assert(traks@.map_values(|t: TrakBox| t@) =~= self.tracks@.map_values(
                    |t: Track| trak_of(t),
                ).subrange(0, j as int));
            }
        }
        let moov = MoovBox {
            mvhd: Some(
                MvhdBox {
                    version: 0,
                    flags: 0,
                    timescale: 1000,
                    duration: 0,
                    rate: FixedPointU16::new(1),
                    volume: FixedPointU8::new(1),
                },
            ),
            traks,
            udta: None,
        };
        proof {
            assert(self.tracks@.map_values(|t: Track| trak_of(t)).subrange(
                0,
                self.tracks@.len() as int,
            ) =~= self.tracks@.map_values(|t: Track| trak_of(t)));
            assert(moov@ == muxer_moov_view(self));
            assert forall|k: int| 0 <= k < moov@.traks.len() implies (#[trigger] moov@.traks[k]).wf() by {
                assert(moov@.traks[k] == trak_of(self.tracks@[k]));
                lemma_trak_of_wf(self.tracks@[k]);
            }
            assert(moov@.wf());
        }
        moov.write_box(out);
        proof {
            assert(out@ =~= old(out)@ + ser_ftyp(muxer_ftyp_view(self)) + ser_moov(
                muxer_moov_view(self),
            ));
        }
        Ok(())
    }
}

} // verus!

//! The top-level reader: walks a bounded byte stream into a container
//! aggregate, and the fragment entry point that parses one media segment
//! against an already-parsed initialization segment, recording each
//! fragment's absolute offset.

use vstd::prelude::*;

use crate::container::{Mp4Container, ContainerView, clone_container};
use crate::ftyp::{FtypBox, parse_ftyp};
use crate::mdat::{MdatBox, parse_mdat};
use crate::moov::{MoovBox, IlstBox, IlstView, MoovView, parse_moov};
use crate::moof::{MoofBox, parse_moof};
use crate::emsg::{EmsgBox, EmsgView, parse_emsg};
use crate::header::{BoxHeader, BoxType, parse_header};
use crate::Error;

verus! {

/// A reader and what it parsed: the aggregate, and the absolute start
/// offset of each movie-fragment box, in the order found.
#[derive(Debug)]
pub struct Mp4Reader {
    pub mp4: Mp4Container,
    pub moof_offsets: Vec<u64>,
}

/// Mathematical image of a reader.
pub struct ReaderView {
    pub mp4: ContainerView,
    pub moof_offsets: Seq<u64>,
}

impl View for Mp4Reader {
    type V = ReaderView;

    open spec fn view(&self) -> ReaderView {
        ReaderView { mp4: self.mp4@, moof_offsets: self.moof_offsets@ }
    }
}

/// Walk a top-level region starting at absolute offset `off`: read a header,
/// stop without error on a zero declared size or a trailing fragment shorter
/// than a header, reject a child whose declared size exceeds the remaining
/// region, dispatch recognized tags, skip the rest. Each movie fragment also
/// records the absolute offset its box starts at.
pub open spec fn parse_top(b: Seq<u8>, off: int, acc: ReaderView) -> Option<ReaderView>
    decreases b.len(),
{
    if b.len() < 8 {
        Some(acc)
    } else {
        match parse_header(b) {
            None => None,
            Some((name, size, hl)) => {
                if size == 0 {
                    Some(acc)
                } else if size > b.len() {
                    None
                } else {
                    let payload = b.subrange(hl, size as int);
                    let rest = b.subrange(size as int, b.len() as int);
                    let off2 = off + size;
                    if name == BoxType::FtypBox {
                        match parse_ftyp(payload) {
                            None => None,
                            Some(x) => parse_top(
                                rest,
                                off2,
                                ReaderView {
                                    mp4: ContainerView { ftyp: Some(x), ..acc.mp4 },
                                    ..acc
                                },
                            ),
                        }
                    } else if name == BoxType::MoovBox {
                        match parse_moov(payload) {
                            None => None,
                            Some(x) => parse_top(
                                rest,
                                off2,
                                ReaderView {
                                    mp4: ContainerView { moov: Some(x), ..acc.mp4 },
                                    ..acc
                                },
                            ),
                        }
                    } else if name == BoxType::MdatBox {
                        match parse_mdat(payload) {
                            None => None,
                            Some(x) => parse_top(
                                rest,
                                off2,
                                ReaderView {
                                    mp4: ContainerView { mdat: Some(x), ..acc.mp4 },
                                    ..acc
                                },
                            ),
                        }
                    } else if name == BoxType::MoofBox {
                        match parse_moof(payload) {
                            None => None,
                            Some(x) => parse_top(
                                rest,
                                off2,
                                ReaderView {
                                    mp4: ContainerView { moofs: acc.mp4.moofs.push(x), ..acc.mp4 },
                                    moof_offsets: acc.moof_offsets.push(off as u64),
                                },
                            ),
                        }
                    } else if name == BoxType::EmsgBox {
                        match parse_emsg(payload) {
                            None => None,
                            Some(x) => parse_top(
                                rest,
                                off2,
                                ReaderView {
                                    mp4: ContainerView { emsgs: acc.mp4.emsgs.push(x), ..acc.mp4 },
                                    ..acc
                                },
                            ),
                        }
                    } else {
                        parse_top(rest, off2, acc)
                    }
                }
            },
        }
    }
}

/// Walk a fragment region: only media-data and movie-fragment tags are
/// recognized, everything else is skipped; the same termination and
/// oversized-child rules hold as at top level.
pub open spec fn parse_fragment(b: Seq<u8>, off: int, acc: ReaderView) -> Option<ReaderView>
    decreases b.len(),
{
    if b.len() < 8 {
        Some(acc)
    } else {
        match parse_header(b) {
            None => None,
            Some((name, size, hl)) => {
                if size == 0 {
                    Some(acc)
                } else if size > b.len() {
                    None
                } else {
                    let payload = b.subrange(hl, size as int);
                    let rest = b.subrange(size as int, b.len() as int);
                    let off2 = off + size;
                    if name == BoxType::MdatBox {
                        match parse_mdat(payload) {
                            None => None,
                            Some(x) => parse_fragment(
                                rest,
                                off2,
                                ReaderView {
                                    mp4: ContainerView { mdat: Some(x), ..acc.mp4 },
                                    ..acc
                                },
                            ),
                        }
                    } else if name == BoxType::MoofBox {
                        match parse_moof(payload) {
                            None => None,
                            Some(x) => parse_fragment(
                                rest,
                                off2,
                                ReaderView {
                                    mp4: ContainerView { moofs: acc.mp4.moofs.push(x), ..acc.mp4 },
                                    moof_offsets: acc.moof_offsets.push(off as u64),
                                },
                            ),
                        }
                    } else {
                        parse_fragment(rest, off2, acc)
                    }
                }
            },
        }
    }
}

/// The aggregate a walk starts from: nothing found yet.
pub open spec fn empty_reader_view() -> ReaderView {
    ReaderView {
        mp4: ContainerView {
            ftyp: None,
            moov: None,
            moofs: Seq::empty(),
            emsgs: Seq::empty(),
            mdat: None,
        },
        moof_offsets: Seq::empty(),
    }
}

/// A zero declared size ends the top-level walk at once: what was found so
/// far is returned and nothing after the zero-size header is consumed.
pub proof fn lemma_top_zero_size_terminates(b: Seq<u8>, off: int, acc: ReaderView)
    requires
        b.len() >= 8,
        parse_header(b) matches Some((name, size, hl)) && size == 0,
    ensures
        parse_top(b, off, acc) == Some(acc),
        parse_fragment(b, off, acc) == Some(acc),
{
}

/// A child whose declared size exceeds the remaining region makes the whole
/// walk fail: no aggregate is returned and the boundary is never read past.
pub proof fn lemma_top_oversized_child_rejected(b: Seq<u8>, off: int, acc: ReaderView)
    requires
        b.len() >= 8,
        parse_header(b) matches Some((name, size, hl)) && size > b.len(),
    ensures
        parse_top(b, off, acc) is None,
        parse_fragment(b, off, acc) is None,
{
}

/// The image of an optional item list reference.
pub open spec fn opt_ilst_ref_view(o: Option<&IlstBox>) -> Option<IlstView> {
    match o {
        Some(i) => Some(i@),
        None => None,
    }
}

/// The item list a movie box carries in its user data, if any.
pub open spec fn moov_ilst(m: MoovView) -> Option<IlstView> {
    match m.udta {
        Some(u) => match u.meta {
            Some(me) => me.ilst,
            None => None,
        },
        None => None,
    }
}

impl Mp4Reader {
    /// Parse a whole stream of `size` bytes: walk the top level, dispatching
    /// file-type, movie, media-data, movie-fragment and event-message boxes,
    /// skipping free space and unrecognized tags, and recording each movie
    /// fragment's absolute start offset.
    pub fn read_header(data: &Vec<u8>, size: u64) -> (r: Result<Mp4Reader, Error>)
        requires
            size <= data@.len(),
        ensures
            match r {
                Ok(rd) => parse_top(data@.subrange(0, size as int), 0, empty_reader_view())
                    == Some(rd@),
                Err(e) => parse_top(data@.subrange(0, size as int), 0, empty_reader_view())
                    is None,
            },
    {
        let n = data.len();
        let end = size as usize;
        let ghost p = data@.subrange(0, size as int);
        let mut cur: usize = 0;
        let mut ftyp: Option<FtypBox> = None;
        let mut moov: Option<MoovBox> = None;
        let mut mdat: Option<MdatBox> = None;
        let mut moofs: Vec<MoofBox> = Vec::new();
        let mut moof_offsets: Vec<u64> = Vec::new();
        let mut emsgs: Vec<EmsgBox> = Vec::new();
        proof {
            assert(moofs@ =~= Seq::<MoofBox>::empty());
            assert(moof_offsets@ =~= Seq::<u64>::empty());
            assert(emsgs@.map_values(|e: EmsgBox| e@) =~= Seq::<EmsgView>::empty());
            assert(data@.subrange(0, end as int) == p);
        }
        loop
            invariant
                cur <= end,
                end == size,
                size <= data@.len(),
                data@.len() <= usize::MAX,
                p == data@.subrange(0, size as int),
                parse_top(p, 0, empty_reader_view()) == parse_top(
                    data@.subrange(cur as int, end as int),
                    cur as int,
                    ReaderView {
                        mp4: ContainerView {
                            ftyp: match ftyp {
                                Some(f) => Some(f@),
                                None => None,
                            },
                            moov: match moov {
                                Some(m) => Some(m@),
                                None => None,
                            },
                            moofs: moofs@,
                            emsgs: emsgs@.map_values(|e: EmsgBox| e@),
                            mdat: match mdat {
                                Some(m) => Some(m@),
                                None => None,
                            },
                        },
                        moof_offsets: moof_offsets@,
                    },
                ),
            ensures
                parse_top(p, 0, empty_reader_view()) == Some(
                    ReaderView {
                        mp4: ContainerView {
                            ftyp: match ftyp {
                                Some(f) => Some(f@),
                                None => None,
                            },
                            moov: match moov {
                                Some(m) => Some(m@),
                                None => None,
                            },
                            moofs: moofs@,
                            emsgs: emsgs@.map_values(|e: EmsgBox| e@),
                            mdat: match mdat {
                                Some(m) => Some(m@),
                                None => None,
                            },
                        },
                        moof_offsets: moof_offsets@,
                    },
                ),
            decreases end - cur,
        {
            let ghost region = data@.subrange(cur as int, end as int);
            if end - cur < 8 {
                break ;
            }
            let (header, hl) = match BoxHeader::read(data, cur, end) {
                Ok(v) => v,
                Err(e) => {
                    return Err(e);
                },
            };
            let s = header.size;
            if s == 0 {
                break ;
            }
            if s > (end - cur) as u64 {
                return Err(Error::InvalidData);
            }
            let szu = s as usize;
            proof {
                assert(region.subrange(hl as int, szu as int) =~= data@.subrange(
                    cur + hl,
                    cur + szu,
                ));
                assert(region.subrange(szu as int, region.len() as int) =~= data@.subrange(
                    cur + szu,
                    end as int,
                ));
            }
            match header.name {
                BoxType::FtypBox => {
                    match FtypBox::read_box(data, cur + hl, szu - hl) {
                        Ok(x) => {
                            ftyp = Some(x);
                        },
                        Err(e) => {
                            return Err(e);
                        },
                    }
                },
                BoxType::MoovBox => {
                    match MoovBox::read_box(data, cur + hl, szu - hl) {
                        Ok(x) => {
                            moov = Some(x);
                        },
                        Err(e) => {
                            return Err(e);
                        },
                    }
                },
                BoxType::MdatBox => {
                    match MdatBox::read_box(data, cur + hl, szu - hl) {
                        Ok(x) => {
                            mdat = Some(x);
                        },
                        Err(e) => {
                            return Err(e);
                        },
                    }
                },
                BoxType::MoofBox => {
                    match MoofBox::read_box(data, cur + hl, szu - hl) {
                        Ok(x) => {
                            let ghost premap = moofs@;
                            let ghost preoff = moof_offsets@;
                            moofs.push(x);
                            moof_offsets.push(cur as u64);
                            proof {
                                assert(moofs@ =~= premap.push(x));
                                assert(moof_offsets@ =~= preoff.push(cur as u64));
                            }
                        },
                        Err(e) => {
                            return Err(e);
                        },
                    }
                },
                BoxType::EmsgBox => {
                    match EmsgBox::read_box(data, cur + hl, szu - hl) {
                        Ok(x) => {
                            let ghost premap = emsgs@.map_values(|e: EmsgBox| e@);
                            emsgs.push(x);
                            proof {
                                assert(emsgs@.map_values(|e: EmsgBox| e@) =~= premap.push(x@));
                            }
                        },
                        Err(e) => {
                            return Err(e);
                        },
                    }
                },
                _ => {},
            }
            cur = cur + szu;
        }
        let r = Mp4Reader {
            mp4: Mp4Container { ftyp, moov, moofs, emsgs, mdat },
            moof_offsets,
        };
        Ok(r)
    }

    /// Parse one fragment region against this reader's initialization boxes:
    /// only media-data and movie-fragment tags are read, the file-type and
    /// movie boxes are carried over by copy (fragments never repeat them),
    /// event messages start empty, and each fragment's offset is recorded.
    pub fn read_fragment_header(&self, data: &Vec<u8>, size: u64) -> (r: Result<Mp4Reader, Error>)
        requires
            size <= data@.len(),
        ensures
            match r {
                Ok(rd) => parse_fragment(
                    data@.subrange(0, size as int),
                    0,
                    ReaderView {
                        mp4: ContainerView {
                            ftyp: self@.mp4.ftyp,
                            moov: self@.mp4.moov,
                            moofs: Seq::empty(),
                            emsgs: Seq::empty(),
                            mdat: None,
                        },
                        moof_offsets: Seq::empty(),
                    },
                ) == Some(rd@),
                Err(e) => parse_fragment(
                    data@.subrange(0, size as int),
                    0,
                    ReaderView {
                        mp4: ContainerView {
                            ftyp: self@.mp4.ftyp,
                            moov: self@.mp4.moov,
                            moofs: Seq::empty(),
                            emsgs: Seq::empty(),
                            mdat: None,
                        },
                        moof_offsets: Seq::empty(),
                    },
                ) is None,
            },
    {
        let n = data.len();
        let end = size as usize;
        let ghost p = data@.subrange(0, size as int);
        let carried = clone_container(&self.mp4);
        let ftyp = carried.ftyp;
        let moov = carried.moov;
        let mut cur: usize = 0;
        let mut mdat: Option<MdatBox> = None;
        let mut moofs: Vec<MoofBox> = Vec::new();
        let mut moof_offsets: Vec<u64> = Vec::new();
        proof {
            assert(moofs@ =~= Seq::<MoofBox>::empty());
            assert(moof_offsets@ =~= Seq::<u64>::empty());
        }
        let ghost acc0 = ReaderView {
            mp4: ContainerView {
                ftyp: self@.mp4.ftyp,
                moov: self@.mp4.moov,
                moofs: Seq::empty(),
                emsgs: Seq::empty(),
                mdat: None,
            },
            moof_offsets: Seq::empty(),
        };
        loop
            invariant
                cur <= end,
                end == size,
                size <= data@.len(),
                data@.len() <= usize::MAX,
                p == data@.subrange(0, size as int),
                (match ftyp {
                    Some(f) => Some(f@),
                    None => None,
                }) == acc0.mp4.ftyp,
                (match moov {
                    Some(m) => Some(m@),
                    None => None,
                }) == acc0.mp4.moov,
                acc0.mp4.ftyp == self@.mp4.ftyp,
                acc0.mp4.moov == self@.mp4.moov,
                acc0 == (ReaderView {
                    mp4: ContainerView {
                        ftyp: acc0.mp4.ftyp,
                        moov: acc0.mp4.moov,
                        moofs: Seq::<MoofBox>::empty(),
                        emsgs: Seq::<EmsgView>::empty(),
                        mdat: None,
                    },
                    moof_offsets: Seq::<u64>::empty(),
                }),
                parse_fragment(p, 0, acc0) == parse_fragment(
                    data@.subrange(cur as int, end as int),
                    cur as int,
                    ReaderView {
                        mp4: ContainerView {
                            ftyp: acc0.mp4.ftyp,
                            moov: acc0.mp4.moov,
                            moofs: moofs@,
                            emsgs: Seq::empty(),
                            mdat: match mdat {
                                Some(m) => Some(m@),
                                None => None,
                            },
                        },
                        moof_offsets: moof_offsets@,
                    },
                ),
            ensures
                parse_fragment(p, 0, acc0) == Some(
                    ReaderView {
                        mp4: ContainerView {
                            ftyp: acc0.mp4.ftyp,
                            moov: acc0.mp4.moov,
                            moofs: moofs@,
                            emsgs: Seq::empty(),
                            mdat: match mdat {
                                Some(m) => Some(m@),
                                None => None,
                            },
                        },
                        moof_offsets: moof_offsets@,
                    },
                ),
            decreases end - cur,
        {
            let ghost region = data@.subrange(cur as int, end as int);
            if end - cur < 8 {
                break ;
            }
            let (header, hl) = match BoxHeader::read(data, cur, end) {
                Ok(v) => v,
                Err(e) => {
                    return Err(e);
                },
            };
            let s = header.size;
            if s == 0 {
                break ;
            }
            if s > (end - cur) as u64 {
                return Err(Error::InvalidData);
            }
            let szu = s as usize;
            proof {
                assert(region.subrange(hl as int, szu as int) =~= data@.subrange(
                    cur + hl,
                    cur + szu,
                ));
                assert(region.subrange(szu as int, region.len() as int) =~= data@.subrange(
                    cur + szu,
                    end as int,
                ));
            }
            match header.name {
                BoxType::MdatBox => {
                    match MdatBox::read_box(data, cur + hl, szu - hl) {
                        Ok(x) => {
                            mdat = Some(x);
                        },
                        Err(e) => {
                            return Err(e);
                        },
                    }
                },
                BoxType::MoofBox => {
                    match MoofBox::read_box(data, cur + hl, szu - hl) {
                        Ok(x) => {
                            let ghost premap = moofs@;
                            let ghost preoff = moof_offsets@;
                            moofs.push(x);
                            moof_offsets.push(cur as u64);
                            proof {
                                assert(moofs@ =~= premap.push(x));
                                assert(moof_offsets@ =~= preoff.push(cur as u64));
                            }
                        },
                        Err(e) => {
                            return Err(e);
                        },
                    }
                },
                _ => {},
            }
            cur = cur + szu;
        }
        let r = Mp4Reader {
            mp4: Mp4Container { ftyp, moov, moofs, emsgs: Vec::new(), mdat },
            moof_offsets,
        };
        proof {
            assert(r@.mp4.emsgs =~= Seq::<EmsgView>::empty());
        }
        Ok(r)
    }

    /// The parsed aggregate.
    pub fn container(&self) -> (r: &Mp4Container)
        ensures
            r == &self.mp4,
    {
        &self.mp4
    }

    /// The metadata item list of the parsed movie box, if its user data
    /// carries one. The movie box must be present.
    pub fn metadata(&self) -> (r: Option<&IlstBox>)
        requires
            self.mp4.moov is Some,
        ensures
            opt_ilst_ref_view(r) == moov_ilst(self@.mp4.moov.unwrap()),
    {
        match self.mp4.moov {
            Some(ref moov) => match moov.udta {
                Some(ref udta) => match udta.meta {
                    Some(ref meta) => match meta.ilst {
                        Some(ref ilst) => Some(ilst),
                        None => None,
                    },
                    None => None,
                },
                None => None,
            },
            None => None,
        }
    }
}

} // verus!

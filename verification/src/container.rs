//! The container aggregate: the top-level boxes one parse of a stream
//! found, and the derived fragmentation flag.

use vstd::prelude::*;

use crate::ftyp::{FtypBox, FtypView, clone_ftyp};
use crate::moov::{MoovBox, MoovView, clone_moov};
use crate::moof::MoofBox;
use crate::emsg::{EmsgBox, EmsgView, clone_emsg};
use crate::mdat::{MdatBox, MdatView, clone_mdat};

verus! {

/// The top-level boxes of one parsed stream: file type, movie, movie
/// fragments, event messages and the most recently parsed media data.
#[derive(Debug)]
pub struct Mp4Container {
    pub ftyp: Option<FtypBox>,
    pub moov: Option<MoovBox>,
    pub moofs: Vec<MoofBox>,
    pub emsgs: Vec<EmsgBox>,
    pub mdat: Option<MdatBox>,
}

/// Mathematical image of a container aggregate.
pub struct ContainerView {
    pub ftyp: Option<FtypView>,
    pub moov: Option<MoovView>,
    pub moofs: Seq<MoofBox>,
    pub emsgs: Seq<EmsgView>,
    pub mdat: Option<MdatView>,
}

impl View for Mp4Container {
    type V = ContainerView;

    open spec fn view(&self) -> ContainerView {
        ContainerView {
            ftyp: match self.ftyp {
                Some(ref f) => Some(f@),
                None => None,
            },
            moov: match self.moov {
                Some(ref m) => Some(m@),
                None => None,
            },
            moofs: self.moofs@,
            emsgs: self.emsgs@.map_values(|e: EmsgBox| e@),
            mdat: match self.mdat {
                Some(ref m) => Some(m@),
                None => None,
            },
        }
    }
}

impl Mp4Container {
    /// An aggregate with nothing parsed yet.
    pub fn default() -> (r: Mp4Container)
        ensures
            r@.ftyp is None && r@.moov is None && r@.mdat is None,
            r@.moofs.len() == 0 && r@.emsgs.len() == 0,
    {
        let r = Mp4Container {
            ftyp: None,
            moov: None,
            moofs: Vec::new(),
            emsgs: Vec::new(),
            mdat: None,
        };
        proof {
            assert(r@.emsgs =~= Seq::<EmsgView>::empty());
        }
        r
    }

    /// A stream is fragmented exactly when it carried at least one
    /// movie-fragment box.
    pub fn is_fragmented(&self) -> (r: bool)
        ensures
            r == (self@.moofs.len() > 0),
    {
        self.moofs.len() > 0
    }
}

/// Field-by-field copy.
pub fn clone_container(b: &Mp4Container) -> (r: Mp4Container)
    ensures
        r@ == b@,
{
    let mut moofs: Vec<MoofBox> = Vec::new();
    let mut i: usize = 0;
    while i < b.moofs.len()
        invariant
            i <= b.moofs@.len(),
            moofs@ =~= b.moofs@.subrange(0, i as int),
        decreases b.moofs@.len() - i,
    {
        moofs.push(b.moofs[i]);
        i = i + 1;
    }
    let mut emsgs: Vec<EmsgBox> = Vec::new();
    let mut j: usize = 0;
    while j < b.emsgs.len()
        invariant
            j <= b.emsgs@.len(),
            emsgs@.map_values(|e: EmsgBox| e@) =~= b.emsgs@.map_values(|e: EmsgBox| e@).subrange(
                0,
                j as int,
            ),
        decreases b.emsgs@.len() - j,
    {
        let ghost pre = emsgs@.map_values(|e: EmsgBox| e@);
        let x = clone_emsg(&b.emsgs[j]);
        emsgs.push(x);
        j = j + 1;
        proof {
            assert(emsgs@.map_values(|e: EmsgBox| e@) =~= pre.push(x@));
            assert(emsgs@.map_values(|e: EmsgBox| e@) =~= b.emsgs@.map_values(
                |e: EmsgBox| e@,
            ).subrange(0, j as int));
        }
    }
    let r = Mp4Container {
        ftyp: match b.ftyp {
            Some(ref f) => Some(clone_ftyp(f)),
            None => None,
        },
        moov: match b.moov {
            Some(ref m) => Some(clone_moov(m)),
            None => None,
        },
        moofs,
        emsgs,
        mdat: match b.mdat {
            Some(ref m) => Some(clone_mdat(m)),
            None => None,
        },
    };
    proof {
        assert(r@.moofs =~= b@.moofs);
        assert(b.emsgs@.map_values(|e: EmsgBox| e@).subrange(
            0,
            b.emsgs@.len() as int,
        ) =~= b.emsgs@.map_values(|e: EmsgBox| e@));
        assert(r@.emsgs =~= b@.emsgs);
    }
    r
}

} // verus!

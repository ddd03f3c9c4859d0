//! The cell content model.
//!
//! The grid core treats laying out one cell as a single operation from a
//! piece of content and a region sequence to a list of frames. Content is
//! modelled by its natural extent: a block of some width and height. Its
//! width adapts to the width offered; its height falls greedily across the
//! offered regions, as `split_heights` describes.

use vstd::prelude::*;

use crate::frame::Frame;
use crate::geom::{Abs, Point, Size};
use crate::regions::{split_heights, Regions};

verus! {

/// A piece of content to be laid out, described by its natural extent.
#[derive(Clone, Copy, PartialEq, Eq, Structural, Debug, Hash)]
pub struct Content {
    /// The natural width of the content; it wraps at narrower widths.
    pub width: Abs,
    /// The total height of the content, split across regions as needed.
    pub height: Abs,
}

impl Content {
    /// Content of the given natural extent.
    pub fn new(width: Abs, height: Abs) -> (r: Content)
        ensures
            r == (Content { width, height }),
    {
        Content { width, height }
    }

    /// Content that occupies no space at all.
    pub fn empty() -> (r: Content)
        ensures
            r.width@ == 0,
            r.height@ == 0,
    {
        Content { width: Abs::zero(), height: Abs::zero() }
    }
}

/// The width content occupies in a pod: the pod's width when the pod expands
/// horizontally, and otherwise the content's natural width capped by it.
pub open spec fn cell_width(c: Content, pod: Regions) -> int {
    if pod.expand.x {
        pod.size.x@
    } else if c.width@ <= pod.size.x@ {
        c.width@
    } else {
        pod.size.x@
    }
}

/// The heights of the frames produced when a block of height `h` is laid
/// into the regions of `r`: the slice heights themselves, except that a
/// vertically expanding pod forces each frame to its region's height.
pub open spec fn frame_heights(h: int, r: Regions) -> Seq<int>
    decreases r.backlog@.len() - r.bidx + if r.spec_in_last() { 0int } else { 1int }
        when r.wf()
        via frame_heights_decreases
{
    if r.spec_in_last() || h <= r.size.y@ {
        seq![if r.expand.y { r.size.y@ } else { h }]
    } else {
        let slice = if r.size.y@ > 0 { r.size.y@ } else { 0int };
        seq![if r.expand.y { r.size.y@ } else { slice }] + frame_heights(h - slice, r.spec_next())
    }
}

#[via_fn]
proof fn frame_heights_decreases(h: int, r: Regions) {
    crate::regions::lemma_next_measure(r);
}

/// Without vertical expansion, the frames of a laid-out block are exactly
/// as tall as its slices.
pub proof fn lemma_frame_heights_no_expand(h: int, r: Regions)
    requires
        r.wf(),
        !r.expand.y,
    ensures
        frame_heights(h, r) == split_heights(h, r),
    decreases r.backlog@.len() - r.bidx + if r.spec_in_last() { 0int } else { 1int },
{
    if !(r.spec_in_last() || h <= r.size.y@) {
        let slice = if r.size.y@ > 0 { r.size.y@ } else { 0int };
        crate::regions::lemma_next_measure(r);
        lemma_frame_heights_no_expand(h - slice, r.spec_next());
    }
}

/// Whether the loop laying a cell may stop at the current region: the region
/// is the last one or the rest of the content fits into it.
fn step_done(backlog_len: usize, b: usize, last: Option<Abs>, fullh: Abs, rem: Abs, avail: Abs) -> (r: bool)
    ensures
        r == ((b == backlog_len && match last {
            None => true,
            Some(h) => fullh == h,
        }) || rem@ <= avail@),
{
    let islast = b == backlog_len && match last {
        None => true,
        Some(h) => fullh == h,
    };
    islast || rem.le(avail)
}

/// Lay one cell into the given region sequence: one frame per region the
/// content occupies. Frame widths follow `cell_width`; frame heights follow
/// `frame_heights`; a frame holds an item exactly when its slice of the
/// content is not empty.
pub fn layout_cell(cell: &Content, pod: &Regions) -> (frames: Vec<Frame>)
    requires
        pod.wf(),
    ensures
        frames@.len() == split_heights(cell.height@, *pod).len(),
        frames@.len() >= 1,
        forall|i: int|
            0 <= i < frames@.len() ==> (#[trigger] frames@[i]).size.x@ == cell_width(*cell, *pod),
        forall|i: int|
            0 <= i < frames@.len() ==> (#[trigger] frames@[i]).size.y@ == frame_heights(
                cell.height@,
                *pod,
            )[i],
        forall|i: int|
            0 <= i < frames@.len() ==> ((#[trigger] frames@[i]).items@.len() > 0 <==> split_heights(
                cell.height@,
                *pod,
            )[i] > 0),
        forall|i: int|
            0 <= i < frames@.len() ==> (#[trigger] frames@[i]).items@.len() <= 1 && (frames@[
                i
            ].items@.len() == 1 ==> frames@[i].items@[0].pos.x@ == 0 && frames@[i].items@[
                0
            ].pos.y@ == 0 && frames@[i].items@[0].item is Block),
{
    let ghost slices0 = split_heights(cell.height@, *pod);
    let ghost fheights0 = frame_heights(cell.height@, *pod);
    let w: Abs = if pod.expand.x {
        pod.size.x
    } else {
        cell.width.min(pod.size.x)
    };
    let mut frames: Vec<Frame> = Vec::new();
    let mut rem: Abs = cell.height;
    let mut avail: Abs = pod.size.y;
    let mut fullh: Abs = pod.full;
    let mut b: usize = pod.bidx;
    let ghost mut cur: Regions = *pod;
    let ghost mut gsl: Seq<int> = Seq::empty();
    let mut done: bool = step_done(pod.backlog.len(), b, pod.last, fullh, rem, avail);

    while !done
        invariant
            pod.wf(),
            cur.wf(),
            cur.backlog@ == pod.backlog@,
            cur.last == pod.last,
            cur.expand == pod.expand,
            avail == cur.size.y,
            fullh == cur.full,
            b == cur.bidx,
            done == (cur.spec_in_last() || rem@ <= cur.size.y@),
            gsl.len() == frames@.len(),
            slices0 =~= gsl + split_heights(rem@, cur),
            fheights0 =~= frame_height_views(frames@) + frame_heights(rem@, cur),
            forall|i: int|
                0 <= i < frames@.len() ==> (#[trigger] frames@[i]).size.x@ == cell_width(
                    *cell,
                    *pod,
                ),
            forall|i: int|
                0 <= i < frames@.len() ==> ((#[trigger] frames@[i]).items@.len() > 0 <==> gsl[i]
                    > 0),
            forall|i: int|
                0 <= i < frames@.len() ==> (#[trigger] frames@[i]).items@.len() <= 1 && (frames@[
                    i
                ].items@.len() == 1 ==> frames@[i].items@[0].pos.x@ == 0 && frames@[i].items@[
                    0
                ].pos.y@ == 0 && frames@[i].items@[0].item is Block),
            w@ == cell_width(*cell, *pod),
        decreases cur.backlog@.len() - cur.bidx + if cur.spec_in_last() { 0int } else { 1int },
    {
        let slice: Abs = avail.max(Abs::zero());
        let fh: Abs = if pod.expand.y {
            avail
        } else {
            slice
        };
        let ghost rem0: int = rem@;
        let ghost cur0: Regions = cur;
        let ghost gsl0: Seq<int> = gsl;
        let ghost fhp0: Seq<int> = frame_height_views(frames@);
        let mut fr = Frame::new(Size::new(w, fh));
        if Abs::zero().lt(slice) {
            fr.push_block(Point::zero(), Size::new(w, slice));
        }
        frames.push(fr);
        proof {
            use_type_invariant(&rem);
            use_type_invariant(&avail);
            use_type_invariant(&slice);
            crate::geom::lemma_abs_bounds(rem);
            crate::geom::lemma_abs_bounds(avail);
            crate::geom::lemma_abs_bounds(slice);
            assert(rem0 > cur0.size.y@);
            assert(split_heights(rem0, cur0) == seq![slice@] + split_heights(
                rem0 - slice@,
                cur0.spec_next(),
            ));
            assert(frame_heights(rem0, cur0) == seq![fh@] + frame_heights(
                rem0 - slice@,
                cur0.spec_next(),
            ));
            assert(0 <= slice@ <= crate::geom::INF_RAW as int);
            assert(avail@ == cur0.size.y@ && avail@ < rem0);
            assert(slice@ == if avail@ >= 0 { avail@ } else { 0int });
            assert(-(crate::geom::INF_RAW as int) <= rem0 - slice@ <= crate::geom::INF_RAW as int);
            assert(crate::geom::clamped(rem0 - slice@) == rem0 - slice@);
            assert(frame_height_views(frames@) =~= fhp0.push(fh@));
        }
        rem = rem.sub(slice);
        if b < pod.backlog.len() {
            let h = pod.backlog[b];
            fullh = h;
            avail = h;
            b = b + 1;
        } else {
            match pod.last {
                Some(h) => {
                    fullh = h;
                    avail = h;
                }
                None => {
                    proof {
                        assert(false);
                    }
                }
            }
        }
        proof {
            gsl = gsl0.push(slice@);
            cur = cur0.spec_next();
            assert(rem@ == rem0 - slice@);
            assert(gsl + split_heights(rem@, cur) =~= gsl0 + split_heights(rem0, cur0));
            assert(slices0 =~= gsl + split_heights(rem@, cur));
            assert(fhp0.push(fh@) + frame_heights(rem@, cur) =~= fhp0 + frame_heights(
                rem0,
                cur0,
            ));
            assert(fheights0 =~= frame_height_views(frames@) + frame_heights(rem@, cur));
        }
        done = step_done(pod.backlog.len(), b, pod.last, fullh, rem, avail);
    }

    let fh: Abs = if pod.expand.y {
        avail
    } else {
        rem
    };
    let mut fr = Frame::new(Size::new(w, fh));
    if Abs::zero().lt(rem) {
        fr.push_block(Point::zero(), Size::new(w, rem));
    }
    frames.push(fr);
    proof {
        assert(split_heights(rem@, cur) =~= seq![rem@]);
        assert(frame_heights(rem@, cur) =~= seq![fh@]);
        gsl = gsl.push(rem@);
        assert(slices0 =~= gsl);
        assert(fheights0 =~= frame_height_views(frames@));
        assert forall|i: int| 0 <= i < frames@.len() implies (#[trigger] frames@[i]).size.y@
            == frame_heights(cell.height@, *pod)[i] by {
            assert(frame_height_views(frames@)[i] == frames@[i].size.y@);
        }
    }
    frames
}

/// The heights of a list of frames.
pub open spec fn frame_height_views(frames: Seq<Frame>) -> Seq<int> {
    frames.map_values(|f: Frame| f.size.y@)
}

} // verus!

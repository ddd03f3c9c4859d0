//! Nodes that transform their content without affecting layout.

use vstd::prelude::*;

use crate::content::{cell_width, frame_heights, layout_cell, Content};
use crate::frame::Frame;
use crate::geom::{Abs, Angle, Axes, Point, Ratio, Rel, Transform};
use crate::regions::{split_heights, Regions};

verus! {

/// Move content without affecting layout.
#[derive(Debug)]
pub struct MoveNode {
    /// The offset by which to move the content.
    pub delta: Axes<Rel>,
    /// The content that should be moved.
    pub body: Content,
}

impl MoveNode {
    /// Lay out the body and shift everything in each frame by the offset,
    /// resolved against the frame's size. The frames keep their extents:
    /// moving does not affect layout.
    pub fn layout(&self, regions: &Regions) -> (r: Vec<Frame>)
        requires
            regions.wf(),
        ensures
            r@.len() == split_heights(self.body.height@, *regions).len(),
            r@.len() >= 1,
            forall|i: int|
                0 <= i < r@.len() ==> (#[trigger] r@[i]).size.x@ == cell_width(
                    self.body,
                    *regions,
                ) && r@[i].size.y@ == frame_heights(self.body.height@, *regions)[i],
            forall|i: int|
                0 <= i < r@.len() ==> (#[trigger] r@[i]).items@.len() <= 1 && (r@[i].items@.len()
                    == 1 ==> r@[i].items@[0].pos.x@ == self.delta.x.spec_relative_to(
                    r@[i].size.x@,
                ) && r@[i].items@[0].pos.y@ == self.delta.y.spec_relative_to(r@[i].size.y@)),
    {
        let mut frames = layout_cell(&self.body, regions);
        let n = frames.len();
        let ghost frames0 = frames@;
        let mut out: Vec<Frame> = Vec::new();
        let mut i: usize = 0;
        while i < n
            invariant
                i <= n,
                n >= 1,
                n == frames0.len(),
                frames@.len() == n - i,
                frames@ =~= frames0.skip(i as int),
                out@.len() == i as int,
                forall|t: int|
                    0 <= t < i as int ==> (#[trigger] out@[t]).size == frames0[t].size,
                forall|t: int|
                    0 <= t < i as int ==> (#[trigger] out@[t]).items@.len() <= 1 && (out@[
                        t
                    ].items@.len() == 1 ==> out@[t].items@[0].pos.x@
                        == self.delta.x.spec_relative_to(out@[t].size.x@) && out@[t].items@[
                        0
                    ].pos.y@ == self.delta.y.spec_relative_to(out@[t].size.y@)),
                forall|t: int|
                    0 <= t < n ==> (#[trigger] frames0[t]).items@.len() <= 1 && (frames0[
                        t
                    ].items@.len() == 1 ==> frames0[t].items@[0].pos.x@ == 0 && frames0[
                        t
                    ].items@[0].pos.y@ == 0),
            decreases n - i,
        {
            let mut frame = frames.remove(0);
            let dx = self.delta.x.relative_to(frame.width());
            let dy = self.delta.y.relative_to(frame.height());
            proof {
                use_type_invariant(&dx);
                use_type_invariant(&dy);
                crate::geom::lemma_abs_bounds(dx);
                crate::geom::lemma_abs_bounds(dy);
            }
            frame.translate(Point::new(dx, dy));
            out.push(frame);
            i = i + 1;
        }
        proof {
            assert forall|t: int| 0 <= t < n implies (#[trigger] out@[t]).size == frames0[t].size
                && out@[t].size.x@ == cell_width(self.body, *regions) && out@[t].size.y@
                == frame_heights(self.body.height@, *regions)[t] by {}
        }
        out
    }
}

/// Rotate content without affecting layout.
#[derive(Debug)]
pub struct RotateNode {
    /// The angle by which to rotate the content.
    pub angle: Angle,
    /// The content that should be rotated.
    pub body: Content,
}

impl RotateNode {
    /// Lay out the body and record, on each frame, a rotation around the
    /// frame's center.
    pub fn layout(&self, regions: &Regions) -> (r: Vec<Frame>)
        requires
            regions.wf(),
        ensures
            r@.len() == split_heights(self.body.height@, *regions).len(),
            r@.len() >= 1,
            forall|i: int|
                0 <= i < r@.len() ==> (#[trigger] r@[i]).size.x@ == cell_width(
                    self.body,
                    *regions,
                ) && r@[i].size.y@ == frame_heights(self.body.height@, *regions)[i],
            forall|i: int|
                0 <= i < r@.len() ==> (#[trigger] r@[i]).items@.len() == 1 && r@[i].items@[0].item
                    is Transformed,
    {
        let mut frames = layout_cell(&self.body, regions);
        let n = frames.len();
        let ghost frames0 = frames@;
        let mut out: Vec<Frame> = Vec::new();
        let mut i: usize = 0;
        while i < n
            invariant
                i <= n,
                n >= 1,
                n == frames0.len(),
                frames@.len() == n - i,
                frames@ =~= frames0.skip(i as int),
                out@.len() == i as int,
                forall|t: int|
                    0 <= t < i as int ==> (#[trigger] out@[t]).size == frames0[t].size,
                forall|j: int|
                    0 <= j < i as int ==> (#[trigger] out@[j]).items@.len() == 1
                        && out@[j].items@[0].item is Transformed,
            decreases n - i,
        {
            let frame = frames.remove(0);
            let x = frame.width().div_count(2);
            let y = frame.height().div_count(2);
            let transform = Transform::translate(x, y).pre_concat(
                Transform::rotate(self.angle),
            ).pre_concat(Transform::translate(Abs::zero().sub(x), Abs::zero().sub(y)));
            out.push(frame.transformed(transform));
            i = i + 1;
        }
        proof {
            assert forall|t: int| 0 <= t < n implies (#[trigger] out@[t]).size.x@ == cell_width(
                self.body,
                *regions,
            ) && out@[t].size.y@ == frame_heights(self.body.height@, *regions)[t] by {}
        }
        out
    }
}

/// Scale content without affecting layout.
#[derive(Debug)]
pub struct ScaleNode {
    /// The scaling factor per axis.
    pub factor: Axes<Ratio>,
    /// The content that should be scaled.
    pub body: Content,
}

impl ScaleNode {
    /// Lay out the body and record, on each frame, a scaling around the
    /// frame's center.
    pub fn layout(&self, regions: &Regions) -> (r: Vec<Frame>)
        requires
            regions.wf(),
        ensures
            r@.len() == split_heights(self.body.height@, *regions).len(),
            r@.len() >= 1,
            forall|i: int|
                0 <= i < r@.len() ==> (#[trigger] r@[i]).size.x@ == cell_width(
                    self.body,
                    *regions,
                ) && r@[i].size.y@ == frame_heights(self.body.height@, *regions)[i],
            forall|i: int|
                0 <= i < r@.len() ==> (#[trigger] r@[i]).items@.len() == 1 && r@[i].items@[0].item
                    is Transformed,
    {
        let mut frames = layout_cell(&self.body, regions);
        let n = frames.len();
        let ghost frames0 = frames@;
        let mut out: Vec<Frame> = Vec::new();
        let mut i: usize = 0;
        while i < n
            invariant
                i <= n,
                n >= 1,
                n == frames0.len(),
                frames@.len() == n - i,
                frames@ =~= frames0.skip(i as int),
                out@.len() == i as int,
                forall|t: int|
                    0 <= t < i as int ==> (#[trigger] out@[t]).size == frames0[t].size,
                forall|j: int|
                    0 <= j < i as int ==> (#[trigger] out@[j]).items@.len() == 1
                        && out@[j].items@[0].item is Transformed,
            decreases n - i,
        {
            let frame = frames.remove(0);
            let x = frame.width().div_count(2);
            let y = frame.height().div_count(2);
            let transform = Transform::translate(x, y).pre_concat(
                Transform::scale(self.factor.x, self.factor.y),
            ).pre_concat(Transform::translate(Abs::zero().sub(x), Abs::zero().sub(y)));
            out.push(frame.transformed(transform));
            i = i + 1;
        }
        proof {
            assert forall|t: int| 0 <= t < n implies (#[trigger] out@[t]).size.x@ == cell_width(
                self.body,
                *regions,
            ) && out@[t].size.y@ == frame_heights(self.body.height@, *regions)[t] by {}
        }
        out
    }
}

} // verus!

//! Multi-column layouts.

use vstd::prelude::*;

use crate::content::layout_cell;
use crate::frame::Frame;
use crate::geom::{Abs, Axes, Point, Ratio, Size};
use crate::regions::Regions;
use crate::style::Style;
use crate::tree::LayoutNode;

verus! {

/// The ratio of the base width that separates two columns.
pub const COLUMN_GUTTER_PERMYRIAD: i64 = 400;

/// Separate a region into multiple equally sized columns.
#[derive(Debug)]
pub struct ColumnsNode {
    /// How many columns there should be.
    pub columns: usize,
    /// The child to be laid out into the columns; most likely a flow or
    /// stack node.
    pub child: LayoutNode,
}

/// A column break.
#[derive(Debug)]
pub struct ColbreakNode;

impl ColumnsNode {
    /// Lay the child into equally wide columns and stitch the columns of
    /// each region together into one frame per region.
    ///
    /// Separating infinite space into infinitely wide columns makes no
    /// sense, so against an infinite width the child is laid out directly.
    pub fn layout(&self, regions: &Regions, styles: &Style) -> (r: Vec<Frame>)
        requires
            1 <= self.columns,
            regions.wf(),
        ensures
            r@.len() >= 1,
            -(crate::geom::INF_RAW as int) < regions.size.x@ < crate::geom::INF_RAW as int
                ==> forall|i: int|
                0 <= i < r@.len() ==> (#[trigger] r@[i]).size.x == regions.size.x,
    {
        if !regions.size.x.is_finite() {
            return layout_cell(&self.child.content, regions);
        }

        // Determine the width of the gutter and of each column.
        let columns = self.columns;
        let gutter = Ratio::new(COLUMN_GUTTER_PERMYRIAD).of(regions.base().x);
        let width = regions.size.x.sub(gutter.times(columns - 1)).div_count(columns);

        // The pod's backlog: the current region's remaining height repeated
        // for the current region's other columns, then every future height
        // repeated once per column.
        let mut backlog: Vec<Abs> = Vec::new();
        let mut c: usize = 1;
        while c < columns
            invariant
                1 <= c <= columns,
            decreases columns - c,
        {
            backlog.push(regions.size.y);
            c = c + 1;
        }
        let mut b: usize = regions.bidx;
        while b < regions.backlog.len()
            invariant
                regions.bidx <= b <= regions.backlog@.len(),
            decreases regions.backlog@.len() - b,
        {
            let h = regions.backlog[b];
            let mut c: usize = 0;
            while c < columns
                invariant
                    c <= columns,
                decreases columns - c,
            {
                backlog.push(h);
                c = c + 1;
            }
            b = b + 1;
        }

        let blen = backlog.len();
        proof {
            assert(blen as int <= usize::MAX as int);
        }
        let pod = Regions {
            size: Size::new(width, regions.size.y),
            full: regions.full,
            backlog,
            bidx: 0,
            last: regions.last,
            expand: Axes::new(true, regions.expand.y),
        };
        proof {
            assert(pod.wf());
        }

        // Lay out the children.
        let mut frames = layout_cell(&self.child.content, &pod);

        // Stitch together the columns for each region.
        let mut finished: Vec<Frame> = Vec::new();
        let mut more = true;
        let mut r: usize = 0;
        while more && frames.len() > 0
            invariant
                regions.wf(),
                1 <= columns,
                finished@.len() == r as int,
                r == 0 ==> more && frames@.len() >= 1,
                forall|t: int|
                    0 <= t < finished@.len() ==> (#[trigger] finished@[t]).size.x
                        == regions.size.x,
            decreases frames@.len() + if more {
                1int
            } else {
                0int
            },
        {
            // The height of this region, if there is one.
            let opt: Option<Abs> = if r == 0 {
                Some(regions.size.y)
            } else if r - 1 < regions.backlog.len() - regions.bidx {
                Some(regions.backlog[regions.bidx + (r - 1)])
            } else {
                match regions.last {
                    Some(h) => Some(h),
                    None => None,
                }
            };
            match opt {
                Some(current) => {
                    // The frame should have the parent height if the node
                    // expands; otherwise it grows to the tallest column.
                    let height = if regions.expand.y {
                        current
                    } else {
                        Abs::zero()
                    };
                    let mut output = Frame::new(Size::new(regions.size.x, height));
                    let mut cursor = Abs::zero();
                    let ghost flen_e = frames@.len() as int;
                    let mut c: usize = 0;
                    while c < columns && frames.len() > 0
                        invariant
                            c <= columns,
                            1 <= columns,
                            frames@.len() == flen_e - c as int,
                            output.size.x == regions.size.x,
                        decreases frames@.len(),
                    {
                        let frame = frames.remove(0);
                        if !regions.expand.y {
                            let grown = output.size.y.max(frame.height());
                            output.size = Size::new(output.size.x, grown);
                        }
                        let w = frame.width();
                        let x = if styles.dir.is_positive() {
                            cursor
                        } else {
                            regions.size.x.sub(cursor).sub(w)
                        };
                        output.push_frame(Point::with_x(x), frame);
                        cursor = cursor.add(width).add(gutter);
                        c = c + 1;
                    }
                    proof {
                        assert(frames@.len() < flen_e);
                    }
                    finished.push(output);
                    r = finished.len();
                },
                None => {
                    more = false;
                },
            }
        }
        finished
    }
}

} // verus!

//! Finished layout output: frames and fragments.

use vstd::prelude::*;

use crate::geom::{clamped, Abs, Point, Size, Transform};

verus! {

/// One positioned piece of a frame.
#[derive(Debug)]
pub enum FrameItem {
    /// A nested frame, for instance a laid-out cell inside a row.
    Group(Frame),
    /// A solid block of laid-out content of the given extent.
    Block(Size),
    /// A nested frame with a transformation applied to it.
    Transformed(Transform, Frame),
}

/// An item of a frame together with its position in the frame.
#[derive(Debug)]
pub struct Element {
    /// The position of the item's origin, relative to the frame's origin.
    pub pos: Point,
    /// The item itself.
    pub item: FrameItem,
}

/// A fully positioned, rendered output for one region.
#[derive(Debug)]
pub struct Frame {
    /// The extent of the frame.
    pub size: Size,
    /// The items placed in the frame.
    pub items: Vec<Element>,
}

impl Frame {
    /// A new, empty frame of the given size.
    pub fn new(size: Size) -> (r: Frame)
        ensures
            r.size == size,
            r.items@ =~= Seq::<Element>::empty(),
    {
        Frame { size, items: Vec::new() }
    }

    /// The horizontal extent of the frame.
    pub fn width(&self) -> (r: Abs)
        ensures
            r == self.size.x,
    {
        self.size.x
    }

    /// The vertical extent of the frame.
    pub fn height(&self) -> (r: Abs)
        ensures
            r == self.size.y,
    {
        self.size.y
    }

    /// Whether the frame holds no items at all.
    pub fn is_empty(&self) -> (r: bool)
        ensures
            r == (self.items@.len() == 0),
    {
        self.items.len() == 0
    }

    /// Place another frame into this one at the given position.
    pub fn push_frame(&mut self, pos: Point, frame: Frame)
        ensures
            final(self).size == old(self).size,
            final(self).items@ == old(self).items@.push(
                Element { pos, item: FrameItem::Group(frame) },
            ),
    {
        self.items.push(Element { pos, item: FrameItem::Group(frame) });
    }

    /// Place a solid block into this frame at the given position.
    pub fn push_block(&mut self, pos: Point, block: Size)
        ensures
            final(self).size == old(self).size,
            final(self).items@ == old(self).items@.push(
                Element { pos, item: FrameItem::Block(block) },
            ),
    {
        self.items.push(Element { pos, item: FrameItem::Block(block) });
    }
}

impl Frame {
    /// Shift every item of the frame by the given offset.
    pub fn translate(&mut self, by: Point)
        ensures
            final(self).size == old(self).size,
            final(self).items@.len() == old(self).items@.len(),
            forall|i: int|
                0 <= i < old(self).items@.len() ==> {
                    let a = old(self).items@[i];
                    let b = #[trigger] final(self).items@[i];
                    b.item == a.item && b.pos.x@ == clamped(a.pos.x@ + by.x@) && b.pos.y@
                        == clamped(a.pos.y@ + by.y@)
                },
    {
        let ghost i0 = self.items@;
        let mut moved: Vec<Element> = Vec::new();
        core::mem::swap(&mut moved, &mut self.items);
        let n0 = moved.len();
        proof {
            assert(i0.len() == n0 as int);
        }
        let mut k: usize = 0;
        while moved.len() > 0
            invariant
                k as int + moved@.len() == i0.len(),
                i0.len() <= usize::MAX as int,
                moved@ =~= i0.skip(k as int),
                self.items@.len() == k as int,
                self.size == old(self).size,
                forall|i: int|
                    0 <= i < k as int ==> {
                        let a = i0[i];
                        let b = #[trigger] self.items@[i];
                        b.item == a.item && b.pos.x@ == clamped(a.pos.x@ + by.x@) && b.pos.y@
                            == clamped(a.pos.y@ + by.y@)
                    },
            decreases moved@.len(),
        {
            let element = moved.remove(0);
            let pos = Point::new(element.pos.x.add(by.x), element.pos.y.add(by.y));
            self.items.push(Element { pos, item: element.item });
            k = k + 1;
        }
    }

    /// Wrap this frame into one of the same size that applies the given
    /// transformation to everything in it.
    pub fn transformed(self, transform: Transform) -> (r: Frame)
        ensures
            r.size == self.size,
            r.items@.len() == 1,
            r.items@[0].pos.x@ == 0,
            r.items@[0].pos.y@ == 0,
            r.items@[0].item is Transformed,
    {
        let size = self.size;
        let mut items: Vec<Element> = Vec::new();
        items.push(Element { pos: Point::zero(), item: FrameItem::Transformed(transform, self) });
        Frame { size, items }
    }
}

/// An ordered collection of frames, one per region.
#[derive(Debug)]
pub struct Fragment(pub Vec<Frame>);

impl Fragment {
    /// A fragment from a list of frames.
    pub fn frames(frames: Vec<Frame>) -> (r: Fragment)
        ensures
            r.0 == frames,
    {
        Fragment(frames)
    }

    /// The number of frames in the fragment.
    pub fn len(&self) -> (r: usize)
        ensures
            r == self.0@.len(),
    {
        self.0.len()
    }

    /// Take the frames out of the fragment.
    pub fn into_frames(self) -> (r: Vec<Frame>)
        ensures
            r == self.0,
    {
        self.0
    }
}

} // verus!

//! The region cursor: the sequence of page-sized areas that layout fills.
//!
//! A cursor holds the remaining size of the current region, a backlog of the
//! heights of the regions that follow, and optionally one final height that
//! repeats forever. Advancing past the last backlog entry either enters that
//! repeating region or, with none given, stays in the current region, which
//! is then the last one.

use vstd::prelude::*;

use crate::geom::{Abs, Axes, Size};

verus! {

/// A cursor over the sequence of regions to lay content into.
#[derive(Debug)]
pub struct Regions {
    /// The remaining size of the current region.
    pub size: Size,
    /// The full height of the current region.
    pub full: Abs,
    /// The heights of the regions that follow the current one.
    pub backlog: Vec<Abs>,
    /// How many backlog entries have already been entered.
    pub bidx: usize,
    /// The height of one region that repeats after the backlog runs out.
    pub last: Option<Abs>,
    /// Whether layout into a region should expand to its full size per axis.
    pub expand: Axes<bool>,
}

impl Regions {
    /// The cursor's backlog index stays within the backlog.
    pub open spec fn wf(self) -> bool {
        self.bidx <= self.backlog@.len() && self.backlog@.len() <= usize::MAX as int
    }

    /// Whether the current region is the last one available: the backlog is
    /// used up and no repeating region follows, or the current region is
    /// already a copy of the repeating one.
    pub open spec fn spec_in_last(self) -> bool {
        self.bidx == self.backlog@.len() && match self.last {
            None => true,
            Some(h) => self.full == h,
        }
    }

    /// The cursor after advancing by one region.
    pub open spec fn spec_next(self) -> Regions {
        if self.bidx < self.backlog@.len() {
            Regions {
                size: Size { x: self.size.x, y: self.backlog@[self.bidx as int] },
                full: self.backlog@[self.bidx as int],
                backlog: self.backlog,
                bidx: (self.bidx + 1) as usize,
                last: self.last,
                expand: self.expand,
            }
        } else {
            match self.last {
                Some(h) => Regions {
                    size: Size { x: self.size.x, y: h },
                    full: h,
                    backlog: self.backlog,
                    bidx: self.bidx,
                    last: self.last,
                    expand: self.expand,
                },
                None => self,
            }
        }
    }

    /// A cursor over a single region of the given size.
    pub fn one(size: Size, expand: Axes<bool>) -> (r: Regions)
        ensures
            r.size == size,
            r.full == size.y,
            r.backlog@ =~= Seq::<Abs>::empty(),
            r.bidx == 0,
            r.last is None,
            r.expand == expand,
            r.wf(),
    {
        Regions { size, full: size.y, backlog: Vec::new(), bidx: 0, last: None, expand }
    }

    /// The size to resolve relative lengths against: the current width and
    /// the current region's full height.
    pub fn base(&self) -> (r: Size)
        ensures
            r.x == self.size.x,
            r.y == self.full,
    {
        Size { x: self.size.x, y: self.full }
    }

    /// Whether the current region has no room left.
    pub fn is_full(&self) -> (r: bool)
        ensures
            r == (self.size.y@ <= 0),
    {
        self.size.y.le(Abs::zero())
    }

    /// Whether the current region is the last one available.
    pub fn in_last(&self) -> (r: bool)
        requires
            self.wf(),
        ensures
            r == self.spec_in_last(),
    {
        self.bidx == self.backlog.len() && match self.last {
            None => true,
            Some(h) => self.full == h,
        }
    }

    /// Advance to the next region, if there is one.
    pub fn next(&mut self)
        requires
            old(self).wf(),
        ensures
            *final(self) == old(self).spec_next(),
            final(self).wf(),
    {
        if self.bidx < self.backlog.len() {
            let h = self.backlog[self.bidx];
            self.size = Size::new(self.size.x, h);
            self.full = h;
            self.bidx = self.bidx + 1;
        } else {
            match self.last {
                Some(h) => {
                    self.size = Size::new(self.size.x, h);
                    self.full = h;
                }
                None => {}
            }
        }
    }

    /// A fresh cursor over a first region of the given size followed by the
    /// given backlog of heights and, optionally, one repeating height.
    pub fn new(size: Size, backlog: Vec<Abs>, last: Option<Abs>, expand: Axes<bool>) -> (r:
        Regions)
        ensures
            r.size == size,
            r.full == size.y,
            r.backlog@ == backlog@,
            r.bidx == 0,
            r.last == last,
            r.expand == expand,
            r.wf(),
    {
        let n = backlog.len();
        proof {
            assert(backlog@.len() == n as int);
        }
        Regions { size, full: size.y, backlog, bidx: 0, last, expand }
    }

    /// A copy of this cursor with another current width, for laying a cell
    /// into one column of the region sequence.
    pub fn with_width(&self, x: Abs) -> (r: Regions)
        requires
            self.wf(),
        ensures
            r.wf(),
            r.size.x == x,
            r.size.y == self.size.y,
            r.full == self.full,
            r.backlog@ == self.backlog@,
            r.bidx == self.bidx,
            r.last == self.last,
            r.expand == self.expand,
    {
        Regions {
            size: Size::new(x, self.size.y),
            full: self.full,
            backlog: clone_heights(&self.backlog),
            bidx: self.bidx,
            last: self.last,
            expand: self.expand,
        }
    }
}

/// Copy a list of region heights.
fn clone_heights(v: &Vec<Abs>) -> (r: Vec<Abs>)
    ensures
        r@ == v@,
{
    let mut r: Vec<Abs> = Vec::new();
    let mut i: usize = 0;
    while i < v.len()
        invariant
            i <= v@.len(),
            r@ =~= v@.take(i as int),
        decreases v@.len() - i,
    {
        r.push(v[i]);
        i = i + 1;
    }
    proof {
        assert(r@ =~= v@);
    }
    r
}

/// How a block of the given height falls across the region sequence: one
/// slice per region it occupies. A slice takes all the remaining height of
/// its region; the final slice takes whatever is left of the block, be it
/// because the block's remainder fits or because the last region must absorb
/// everything that remains.
pub open spec fn split_heights(h: int, r: Regions) -> Seq<int>
    decreases r.backlog@.len() - r.bidx + if r.spec_in_last() { 0int } else { 1int }
        when r.wf()
        via split_heights_decreases
{
    if r.spec_in_last() || h <= r.size.y@ {
        seq![h]
    } else {
        let slice = if r.size.y@ > 0 { r.size.y@ } else { 0int };
        seq![slice] + split_heights(h - slice, r.spec_next())
    }
}

#[via_fn]
proof fn split_heights_decreases(h: int, r: Regions) {
    lemma_next_measure(r);
}

/// Advancing a well-formed cursor that is not in its last region strictly
/// shrinks the measure that bounds the region walk.
pub proof fn lemma_next_measure(r: Regions)
    requires
        r.wf(),
    ensures
        r.spec_next().wf(),
        !r.spec_in_last() ==> r.spec_next().backlog@.len() - r.spec_next().bidx + (
        if r.spec_next().spec_in_last() {
            0int
        } else {
            1int
        }) < r.backlog@.len() - r.bidx + (
        if r.spec_in_last() {
            0int
        } else {
            1int
        }),
{
    let n = r.spec_next();
    if !r.spec_in_last() {
        if r.bidx < r.backlog@.len() {
            assert(n.bidx == r.bidx + 1);
        } else {
            assert(n.spec_in_last());
        }
    }
}

/// A block occupies at most one slice per region that the cursor can still
/// enter: the current one and the rest of the backlog.
pub proof fn lemma_split_len(h: int, r: Regions)
    requires
        r.wf(),
        r.last is None,
    ensures
        split_heights(h, r).len() <= r.backlog@.len() - r.bidx + 1,
    decreases r.backlog@.len() - r.bidx + if r.spec_in_last() { 0int } else { 1int },
{
    if !(r.spec_in_last() || h <= r.size.y@) {
        let slice = if r.size.y@ > 0 { r.size.y@ } else { 0int };
        lemma_next_measure(r);
        lemma_split_len(h - slice, r.spec_next());
        assert(r.bidx < r.backlog@.len());
    }
}

/// How many regions a block of height `h` occupies when offered a first
/// region of height `first` and then the given further heights, the last
/// of which absorbs whatever remains.
pub open spec fn slices_used(h: int, first: int, rest: Seq<int>) -> int
    decreases rest.len(),
{
    if h <= first || rest.len() == 0 {
        1
    } else {
        1 + slices_used(
            h - (if first > 0 {
                first
            } else {
                0int
            }),
            rest[0],
            rest.drop_first(),
        )
    }
}

/// For a cursor without a repeating region, the number of slices equals
/// `slices_used` over the plain heights: the remaining height of the
/// current region followed by the heights still in the backlog.
pub proof fn lemma_split_len_ints(h: int, r: Regions)
    requires
        r.wf(),
        r.last is None,
    ensures
        split_heights(h, r).len() == slices_used(
            h,
            r.size.y@,
            crate::geom::abs_views(r.backlog@.skip(r.bidx as int)),
        ),
    decreases r.backlog@.len() - r.bidx + if r.spec_in_last() { 0int } else { 1int },
{
    let rest = crate::geom::abs_views(r.backlog@.skip(r.bidx as int));
    if r.spec_in_last() || h <= r.size.y@ {
        assert(rest.len() == 0 || h <= r.size.y@);
    } else {
        let slice = if r.size.y@ > 0 { r.size.y@ } else { 0int };
        lemma_next_measure(r);
        lemma_split_len_ints(h - slice, r.spec_next());
        assert(rest[0] == r.backlog@[r.bidx as int]@);
        assert(crate::geom::abs_views(r.spec_next().backlog@.skip(r.spec_next().bidx as int))
            =~= rest.drop_first());
    }
}

/// How a block falls across the regions depends only on the heights the
/// cursor offers, never on its width.
pub proof fn lemma_split_width_irrelevant(h: int, r1: Regions, r2: Regions)
    requires
        r1.wf(),
        r2.wf(),
        r1.size.y == r2.size.y,
        r1.full == r2.full,
        r1.backlog@ == r2.backlog@,
        r1.bidx == r2.bidx,
        r1.last == r2.last,
    ensures
        split_heights(h, r1) == split_heights(h, r2),
    decreases r1.backlog@.len() - r1.bidx + if r1.spec_in_last() { 0int } else { 1int },
{
    if !(r1.spec_in_last() || h <= r1.size.y@) {
        let slice = if r1.size.y@ > 0 { r1.size.y@ } else { 0int };
        lemma_next_measure(r1);
        lemma_split_width_irrelevant(h - slice, r1.spec_next(), r2.spec_next());
    }
}

/// The sum of a sequence of (unbounded) lengths.
pub open spec fn seq_sum(s: Seq<int>) -> int
    decreases s.len(),
{
    if s.len() == 0 {
        0
    } else {
        s[0] + seq_sum(s.drop_first())
    }
}

/// Splitting a block across regions preserves its total height: the slices
/// of any block sum exactly to the block's height, however many regions it
/// crosses and whatever their heights are.
pub proof fn lemma_split_heights_total(h: int, r: Regions)
    requires
        r.wf(),
    ensures
        seq_sum(split_heights(h, r)) == h,
    decreases r.backlog@.len() - r.bidx + if r.spec_in_last() { 0int } else { 1int },
{
    if r.spec_in_last() || h <= r.size.y@ {
        assert(split_heights(h, r) =~= seq![h]);
        assert(seq_sum(seq![h]) == h + seq_sum(seq![h].drop_first()));
        assert(seq![h].drop_first() =~= Seq::<int>::empty());
    } else {
        let slice = if r.size.y@ > 0 { r.size.y@ } else { 0int };
        let rest = split_heights(h - slice, r.spec_next());
        lemma_next_measure(r);
        lemma_split_heights_total(h - slice, r.spec_next());
        assert((seq![slice] + rest)[0] == slice);
        assert((seq![slice] + rest).drop_first() =~= rest);
        assert(seq_sum(seq![slice] + rest) == slice + seq_sum(rest));
    }
}

} // verus!

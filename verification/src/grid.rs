//! Grid layout.
//!
//! Arranges content cells in a grid of column and row tracks, each sized
//! automatically, relatively or fractionally. Column widths are resolved
//! first, once and for all; rows are then laid out one by one into the
//! available regions.

use vstd::pervasive::VecAdditionalExecFns;
use vstd::prelude::*;

use crate::container::Sizing;
use crate::content::{layout_cell, Content};
use crate::frame::{Fragment, Frame};
use crate::geom::{
    clamped, clamped_share, spec_rel_zero, Abs, Axes, Dir, Fr, Point, Rel, Size, INF_RAW,
};
use crate::regions::Regions;
use crate::style::Style;

verus! {

/// The most content tracks a grid accepts per axis.
pub const MAX_TRACKS: usize = 0x10_0000;

/// The most cells a grid accepts.
pub const MAX_CELLS: usize = 0x10_0000;

/// A grid of content cells with per-track sizing rules.
#[derive(Debug)]
pub struct GridNode {
    /// Sizing for content rows and columns.
    pub tracks: Axes<Vec<Sizing>>,
    /// Sizing of gutter rows and columns between the content.
    pub gutter: Axes<Vec<Sizing>>,
    /// The content to be arranged in the grid, in row-major order.
    pub cells: Vec<Content>,
}

/// A row worked off by the layouter: finished rows hold their frame,
/// fractional rows wait for the region to be finalized.
#[derive(Debug)]
pub enum Row {
    /// A finished row frame of an auto or relative row with its row index.
    Frame(Frame, usize),
    /// A fractional row with its row index.
    Fr(Fr, usize),
}

/// The resulting sizes of columns and rows in a grid.
#[derive(Debug)]
pub struct GridLayout {
    /// The rendered frames, one per finished region.
    pub fragment: Fragment,
    /// The resolved column widths.
    pub cols: Vec<Abs>,
    /// The starting row index and the row heights, per region.
    pub rows: Vec<(usize, Vec<Abs>)>,
}

/// Performs grid layout.
#[derive(Debug)]
pub struct GridLayouter {
    /// The grid cells, in row-major order over the content tracks.
    pub cells: Vec<Content>,
    /// Whether this is a right-to-left grid.
    pub is_rtl: bool,
    /// Whether this grid has gutter tracks.
    pub has_gutter: bool,
    /// The column tracks including gutter tracks.
    pub cols: Vec<Sizing>,
    /// The row tracks including gutter tracks.
    pub rows: Vec<Sizing>,
    /// The regions to lay the rows into.
    pub regions: Regions,
    /// The resolved column widths.
    pub rcols: Vec<Abs>,
    /// The sum of the resolved column widths.
    pub width: Abs,
    /// The starting row index and the row heights, per finished region.
    pub rrows: Vec<(usize, Vec<Abs>)>,
    /// The rows placed in the current region so far.
    pub lrows: Vec<Row>,
    /// The size of the current region when it was entered.
    pub initial: Size,
    /// The frames of the finished regions.
    pub finished: Vec<Frame>,
}

/// The track at an index, or the last given one, or the default.
pub open spec fn spec_get_or(tracks: Seq<Sizing>, i: int, default: Sizing) -> Sizing {
    if 0 <= i < tracks.len() {
        tracks[i]
    } else if tracks.len() > 0 {
        tracks[tracks.len() - 1]
    } else {
        default
    }
}

/// The default gutter track: zero spacing.
pub open spec fn gutter_default() -> Sizing {
    Sizing::Rel(spec_rel_zero())
}

/// The expanded track list for one axis: `n` content tracks, with a gutter
/// track after each but the last when gutters are enabled. Missing tracks
/// repeat the last given one.
pub open spec fn expand_tracks(
    tracks: Seq<Sizing>,
    gutter: Seq<Sizing>,
    n: int,
    has_gutter: bool,
) -> Seq<Sizing> {
    if n <= 0 {
        Seq::empty()
    } else if has_gutter {
        Seq::new(
            (2 * n - 1) as nat,
            |i: int|
                if i % 2 == 0 {
                    spec_get_or(tracks, i / 2, Sizing::Auto)
                } else {
                    spec_get_or(gutter, i / 2, gutter_default())
                },
        )
    } else {
        Seq::new(n as nat, |i: int| spec_get_or(tracks, i, Sizing::Auto))
    }
}

/// The number of content rows: at least as many as given, but also at least
/// as many as needed to place every cell.
pub open spec fn content_rows(given: int, cells: int, c: int) -> int {
    let needed = cells / c + if cells % c > 0 {
        1int
    } else {
        0int
    };
    if given >= needed {
        given
    } else {
        needed
    }
}

/// What holds of a freshly prepared layouter, before any measurement:
/// unified content and gutter tracks (reversed for right-to-left grids),
/// zeroed column widths, and no pending or finished rows.
pub open spec fn prepared(
    l: GridLayouter,
    tracks: Axes<Vec<Sizing>>,
    gutter: Axes<Vec<Sizing>>,
    cells: Vec<Content>,
    regions: Regions,
    styles: Style,
) -> bool {
    let c = if tracks.x@.len() >= 1 {
        tracks.x@.len() as int
    } else {
        1int
    };
    let expanded = expand_tracks(tracks.x@, gutter.x@, c, l.has_gutter);
    &&& l.wf()
    &&& l.cells@ == cells@
    &&& l.is_rtl == (styles.dir == Dir::RTL)
    &&& l.has_gutter == (gutter.x@.len() > 0 || gutter.y@.len() > 0)
    &&& l.cols@ == if l.is_rtl {
        expanded.reverse()
    } else {
        expanded
    }
    &&& l.rows@ == expand_tracks(
        tracks.y@,
        gutter.y@,
        content_rows(tracks.y@.len() as int, cells@.len() as int, c),
        l.has_gutter,
    )
    &&& l.rcols@.len() == l.cols@.len()
    &&& forall|i: int| 0 <= i < l.rcols@.len() ==> (#[trigger] l.rcols@[i])@ == 0
    &&& l.width@ == 0
    &&& l.regions.size == regions.size
    &&& l.regions.full == regions.full
    &&& l.regions.backlog@ == regions.backlog@
    &&& l.regions.bidx == regions.bidx
    &&& l.regions.last == regions.last
    &&& l.regions.expand == (Axes { x: true, y: false })
    &&& l.rrows@.len() == 0
    &&& l.lrows@.len() == 0
    &&& l.initial == regions.size
    &&& l.finished@.len() == 0
}

impl GridLayouter {
    /// The structural invariant of the layouter.
    pub open spec fn wf(self) -> bool {
        &&& 1 <= self.cols@.len() <= 2 * MAX_TRACKS as int
        &&& self.rows@.len() <= 2 * (MAX_CELLS + MAX_TRACKS) as int
        &&& self.cells@.len() <= MAX_CELLS as int
        &&& self.rcols@.len() == self.cols@.len()
        &&& self.regions.wf()
        &&& forall|i: int|
            0 <= i < self.lrows@.len() ==> row_index(#[trigger] self.lrows@[i])
                < self.rows@.len()
    }

    /// The cell at column `x` and row `y` of the expanded track grid:
    /// nothing on gutter tracks and for empty slots, and with the column
    /// flipped back to storage order in a right-to-left grid.
    pub open spec fn spec_cell(self, x: int, y: int) -> Option<Content> {
        let xx = if self.is_rtl {
            self.cols@.len() - 1 - x
        } else {
            x
        };
        if self.has_gutter {
            if xx % 2 == 0 && y % 2 == 0 {
                let c = 1 + self.cols@.len() / 2;
                let idx = (y / 2) * c + xx / 2;
                if 0 <= idx < self.cells@.len() {
                    Some(self.cells@[idx])
                } else {
                    None
                }
            } else {
                None
            }
        } else {
            let idx = y * self.cols@.len() + xx;
            if 0 <= idx < self.cells@.len() {
                Some(self.cells@[idx])
            } else {
                None
            }
        }
    }

    /// Create a new grid layouter.
    ///
    /// This prepares grid layout by unifying content and gutter tracks.
    pub fn new(
        tracks: Axes<Vec<Sizing>>,
        gutter: Axes<Vec<Sizing>>,
        cells: Vec<Content>,
        regions: Regions,
        styles: Style,
    ) -> (l: GridLayouter)
        requires
            tracks.x@.len() <= MAX_TRACKS,
            tracks.y@.len() <= MAX_TRACKS,
            gutter.x@.len() <= MAX_TRACKS,
            gutter.y@.len() <= MAX_TRACKS,
            cells@.len() <= MAX_CELLS,
            regions.wf(),
        ensures
            prepared(l, tracks, gutter, cells, regions, styles),
    {
        let mut cols: Vec<Sizing> = Vec::new();
        let mut rows: Vec<Sizing> = Vec::new();

        // Number of content columns: Always at least one.
        let c: usize = if tracks.x.len() >= 1 {
            tracks.x.len()
        } else {
            1
        };

        // Number of content rows: At least as many as given, but also at
        // least as many as needed to place each cell.
        let len = cells.len();
        let given = tracks.y.len();
        let needed = len / c + if len % c > 0 {
            1
        } else {
            0
        };
        proof {
            vstd::arithmetic::div_mod::lemma_div_nonincreasing(len as int, c as int);
        }
        let r: usize = if given >= needed {
            given
        } else {
            needed
        };

        let has_gutter = gutter.x.len() > 0 || gutter.y.len() > 0;
        let auto = Sizing::Auto;
        let zero = Sizing::Rel(crate::geom::Rel::zero());

        // Collect content and gutter columns.
        let mut x: usize = 0;
        while x < c
            invariant
                x <= c,
                1 <= c <= MAX_TRACKS,
                cols@.len() == if has_gutter {
                    2 * x as int
                } else {
                    x as int
                },
                zero == gutter_default(),
                auto == Sizing::Auto,
                forall|i: int|
                    0 <= i < cols@.len() ==> #[trigger] cols@[i] == (if has_gutter {
                        if i % 2 == 0 {
                            spec_get_or(tracks.x@, i / 2, Sizing::Auto)
                        } else {
                            spec_get_or(gutter.x@, i / 2, gutter_default())
                        }
                    } else {
                        spec_get_or(tracks.x@, i, Sizing::Auto)
                    }),
            decreases c - x,
        {
            let ghost s0 = cols@;
            let ghost n0 = cols@.len() as int;
            let t0 = get_or(&tracks.x, x, auto);
            let g0 = get_or(&gutter.x, x, zero);
            cols.push(t0);
            if has_gutter {
                cols.push(g0);
            }
            proof {
                assert(cols@[n0] == t0);
                if has_gutter {
                    assert(cols@[n0 + 1] == g0);
                    assert(n0 / 2 == x as int && n0 % 2 == 0);
                    assert((n0 + 1) / 2 == x as int && (n0 + 1) % 2 == 1);
                }
                assert(forall|i: int| 0 <= i < n0 ==> cols@[i] == s0[i]);
            }
            x = x + 1;
        }

        // Collect content and gutter rows.
        let mut y: usize = 0;
        while y < r
            invariant
                y <= r,
                r <= MAX_CELLS + MAX_TRACKS,
                rows@.len() == if has_gutter {
                    2 * y as int
                } else {
                    y as int
                },
                zero == gutter_default(),
                auto == Sizing::Auto,
                forall|i: int|
                    0 <= i < rows@.len() ==> #[trigger] rows@[i] == (if has_gutter {
                        if i % 2 == 0 {
                            spec_get_or(tracks.y@, i / 2, Sizing::Auto)
                        } else {
                            spec_get_or(gutter.y@, i / 2, gutter_default())
                        }
                    } else {
                        spec_get_or(tracks.y@, i, Sizing::Auto)
                    }),
            decreases r - y,
        {
            let ghost s0 = rows@;
            let ghost n0 = rows@.len() as int;
            let t0 = get_or(&tracks.y, y, auto);
            let g0 = get_or(&gutter.y, y, zero);
            rows.push(t0);
            if has_gutter {
                rows.push(g0);
            }
            proof {
                assert(rows@[n0] == t0);
                if has_gutter {
                    assert(rows@[n0 + 1] == g0);
                    assert(n0 / 2 == y as int && n0 % 2 == 0);
                    assert((n0 + 1) / 2 == y as int && (n0 + 1) % 2 == 1);
                }
                assert(forall|i: int| 0 <= i < n0 ==> rows@[i] == s0[i]);
            }
            y = y + 1;
        }

        // Remove superfluous gutter tracks.
        if has_gutter {
            cols.pop();
            rows.pop();
        }
        proof {
            assert(cols@ =~= expand_tracks(tracks.x@, gutter.x@, c as int, has_gutter));
            assert(rows@ =~= expand_tracks(
                tracks.y@,
                gutter.y@,
                content_rows(tracks.y@.len() as int, cells@.len() as int, c as int),
                has_gutter,
            ));
        }

        // Reverse for right-to-left grids.
        let is_rtl = matches!(styles.dir, Dir::RTL);
        if is_rtl {
            cols = reverse_tracks(cols);
        }

        // One resolved width per column, initially zero.
        let mut rcols: Vec<Abs> = Vec::new();
        let mut i: usize = 0;
        let n = cols.len();
        while i < n
            invariant
                i <= n,
                rcols@.len() == i as int,
                forall|j: int| 0 <= j < i as int ==> (#[trigger] rcols@[j])@ == 0,
            decreases n - i,
        {
            rcols.push(Abs::zero());
            i = i + 1;
        }

        // These regions are used for auto row measurement. Since at that
        // moment columns are already sized, horizontal expansion is enabled.
        let mut regions = regions;
        regions.expand = Axes::new(true, false);
        let initial = regions.size;

        GridLayouter {
            cells,
            is_rtl,
            has_gutter,
            cols,
            rows,
            regions,
            rcols,
            width: Abs::zero(),
            rrows: Vec::new(),
            lrows: Vec::new(),
            initial,
            finished: Vec::new(),
        }
    }

    /// Get the content of the cell in column `x` and row `y`.
    ///
    /// Returns nothing for gutter tracks and empty slots.
    fn cell(&self, x: usize, y: usize) -> (r: Option<Content>)
        requires
            self.wf(),
            x < self.cols@.len(),
            y < self.rows@.len(),
        ensures
            r == self.spec_cell(x as int, y as int),
    {
        // Columns are reordered for right-to-left grids, but the cell slice
        // is not.
        let xx = if self.is_rtl {
            self.cols.len() - 1 - x
        } else {
            x
        };

        if self.has_gutter {
            // Even columns and rows are cells, odd ones are gutter.
            if xx % 2 == 0 && y % 2 == 0 {
                let c = 1 + self.cols.len() / 2;
                proof {
                    crate::geom::lemma_mul_bounds((y / 2) as int, c as int, 0x40_0000);
                }
                let idx: u64 = ((y / 2) as u64) * (c as u64) + ((xx / 2) as u64);
                if idx < self.cells.len() as u64 {
                    Some(self.cells[idx as usize])
                } else {
                    None
                }
            } else {
                None
            }
        } else {
            proof {
                crate::geom::lemma_mul_bounds(y as int, self.cols@.len() as int, 0x40_0000);
            }
            let idx: u64 = (y as u64) * (self.cols.len() as u64) + (xx as u64);
            if idx < self.cells.len() as u64 {
                Some(self.cells[idx as usize])
            } else {
                None
            }
        }
    }
}

/// The width a cell measures to when offered the given width: its natural
/// width, capped by the offer.
pub open spec fn measure_width(c: Content, avail: int) -> int {
    if c.width@ <= avail {
        c.width@
    } else {
        avail
    }
}

impl GridLayouter {
    /// The saturating sum of the resolved relative columns among the first
    /// `n`, resolved against the current region width.
    pub open spec fn spec_rel_sum(self, n: int) -> int
        decreases n,
    {
        if n <= 0 {
            0
        } else {
            match self.cols@[n - 1] {
                Sizing::Rel(v) => clamped(
                    self.spec_rel_sum(n - 1) + v.spec_relative_to(self.regions.size.x@),
                ),
                _ => self.spec_rel_sum(n - 1),
            }
        }
    }

    /// The saturating sum of the fractional shares among the first `n`
    /// columns.
    pub open spec fn spec_fr_sum(self, n: int) -> int
        decreases n,
    {
        if n <= 0 {
            0
        } else {
            match self.cols@[n - 1] {
                Sizing::Fr(v) => clamped_share(self.spec_fr_sum(n - 1) + v@),
                _ => self.spec_fr_sum(n - 1),
            }
        }
    }

    /// The width left for automatic and fractional columns once the relative
    /// columns have claimed theirs.
    pub open spec fn spec_available(self) -> int {
        clamped(self.regions.size.x@ - self.spec_rel_sum(self.cols@.len() as int))
    }

    /// The measured width of column `x`: the largest width any of its cells
    /// in the first `n` rows measures to against the available width.
    pub open spec fn spec_measured(self, x: int, n: int, avail: int) -> int
        decreases n,
    {
        if n <= 0 {
            0
        } else {
            let prev = self.spec_measured(x, n - 1, avail);
            match self.spec_cell(x, n - 1) {
                Some(c) => if measure_width(c, avail) > prev {
                    measure_width(c, avail)
                } else {
                    prev
                },
                None => prev,
            }
        }
    }

    /// The saturating sum of the measured widths of the automatic columns
    /// among the first `n`.
    pub open spec fn spec_auto_sum(self, n: int, avail: int) -> int
        decreases n,
    {
        if n <= 0 {
            0
        } else {
            match self.cols@[n - 1] {
                Sizing::Auto => clamped(
                    self.spec_auto_sum(n - 1, avail) + self.spec_measured(
                        n - 1,
                        self.rows@.len() as int,
                        avail,
                    ),
                ),
                _ => self.spec_auto_sum(n - 1, avail),
            }
        }
    }

    /// The number of automatic columns among the first `n`.
    pub open spec fn spec_auto_count(self, n: int) -> int
        decreases n,
    {
        if n <= 0 {
            0
        } else {
            match self.cols@[n - 1] {
                Sizing::Auto => self.spec_auto_count(n - 1) + 1,
                _ => self.spec_auto_count(n - 1),
            }
        }
    }

    /// The width left over once the automatic columns have claimed their
    /// measured widths.
    pub open spec fn spec_remaining(self, avail: int) -> int {
        clamped(avail - self.spec_auto_sum(self.cols@.len() as int, avail))
    }

    /// The number of automatic columns among the first `n` whose measured
    /// width exceeds `lastv`.
    pub open spec fn spec_above(self, n: int, avail: int, lastv: int) -> int
        decreases n,
    {
        if n <= 0 {
            0
        } else {
            let prev = self.spec_above(n - 1, avail, lastv);
            match self.cols@[n - 1] {
                Sizing::Auto => if self.spec_measured(n - 1, self.rows@.len() as int, avail)
                    > lastv {
                    prev + 1
                } else {
                    prev
                },
                _ => prev,
            }
        }
    }

    /// The number of automatic columns among the first `n` that one shrink
    /// pass with threshold `fairv` removes: measured above `lastv` but not
    /// above `fairv`.
    pub open spec fn spec_pass_cnt(self, n: int, avail: int, lastv: int, fairv: int) -> int
        decreases n,
    {
        if n <= 0 {
            0
        } else {
            let prev = self.spec_pass_cnt(n - 1, avail, lastv, fairv);
            let m = self.spec_measured(n - 1, self.rows@.len() as int, avail);
            match self.cols@[n - 1] {
                Sizing::Auto => if lastv < m && m <= fairv {
                    prev + 1
                } else {
                    prev
                },
                _ => prev,
            }
        }
    }

    /// The redistributable width left after one shrink pass with threshold
    /// `fairv` has taken out, in column order, the widths of the columns it
    /// removes.
    pub open spec fn spec_pass_redis(self, n: int, avail: int, lastv: int, fairv: int, redis: int) -> int
        decreases n,
    {
        if n <= 0 {
            redis
        } else {
            let prev = self.spec_pass_redis(n - 1, avail, lastv, fairv, redis);
            let m = self.spec_measured(n - 1, self.rows@.len() as int, avail);
            match self.cols@[n - 1] {
                Sizing::Auto => if lastv < m && m <= fairv {
                    clamped(prev - m)
                } else {
                    prev
                },
                _ => prev,
            }
        }
    }

    /// The fair width cap that the iterative shrink procedure converges to:
    /// each round divides the redistributable width by the number of columns
    /// still overlarge and removes the columns that fit under that share,
    /// until a round removes none.
    pub open spec fn spec_fair(self, avail: int, redis: int, lastv: int) -> int
        decreases self.spec_above(self.cols@.len() as int, avail, lastv)
            when self.spec_above(self.cols@.len() as int, avail, lastv) >= 0
            via GridLayouter::spec_fair_decreases
    {
        let n = self.cols@.len() as int;
        let over = self.spec_above(n, avail, lastv);
        if over <= 0 {
            lastv
        } else {
            let fair = clamped(redis / over);
            let cnt = self.spec_pass_cnt(n, avail, lastv, fair);
            if cnt <= 0 {
                fair
            } else {
                self.spec_fair(avail, self.spec_pass_redis(n, avail, lastv, fair, redis), fair)
            }
        }
    }

    #[via_fn]
    proof fn spec_fair_decreases(self, avail: int, redis: int, lastv: int) {
        let n = self.cols@.len() as int;
        let over = self.spec_above(n, avail, lastv);
        if over > 0 {
            let fair = clamped(redis / over);
            let cnt = self.spec_pass_cnt(n, avail, lastv, fair);
            if cnt > 0 {
                self.lemma_pass_nonempty_widens(n, avail, lastv, fair);
                self.lemma_above_partition(n, avail, lastv, fair);
                self.lemma_above_nonneg(n, avail, fair);
            }
        }
    }

    /// The fair cap the shrink procedure yields for this grid with the given
    /// available width.
    pub open spec fn spec_fair_final(self, avail: int) -> int {
        self.spec_fair(avail, avail, -(INF_RAW as int))
    }

    /// The resolved width of column `x`: relative columns resolve against
    /// the region width; automatic columns measure their cells and are
    /// shrunk to the fair cap when they claim too much; fractional columns
    /// share what remains in proportion to their shares.
    pub open spec fn spec_rcol(self, x: int) -> int {
        let n = self.cols@.len() as int;
        let avail = self.spec_available();
        match self.cols@[x] {
            Sizing::Rel(v) => v.spec_relative_to(self.regions.size.x@),
            Sizing::Auto => if avail >= 0 {
                let m = self.spec_measured(x, self.rows@.len() as int, avail);
                if self.spec_remaining(avail) >= 0 {
                    m
                } else {
                    let fair = self.spec_fair_final(avail);
                    if m > fair {
                        fair
                    } else {
                        m
                    }
                }
            } else {
                0
            },
            Sizing::Fr(f) => {
                let fr = self.spec_fr_sum(n);
                if avail >= 0 && self.spec_remaining(avail) >= 0 && fr > 0 {
                    clamped(f@ * self.spec_remaining(avail) / fr)
                } else {
                    0
                }
            },
        }
    }

    /// Whether two layouter states carry the same immutable grid model:
    /// everything the column model reads agrees.
    pub open spec fn model_eq(self, other: GridLayouter) -> bool {
        &&& self.cells == other.cells
        &&& self.is_rtl == other.is_rtl
        &&& self.has_gutter == other.has_gutter
        &&& self.cols == other.cols
        &&& self.rows == other.rows
        &&& self.regions == other.regions
    }

    /// Determine all column sizes.
    fn measure_columns(&mut self)
        requires
            old(self).wf(),
            forall|i: int|
                0 <= i < old(self).rcols@.len() ==> (#[trigger] old(self).rcols@[i])@ == 0,
        ensures
            final(self).wf(),
            final(self).model_eq(*old(self)),
            final(self).rrows == old(self).rrows,
            final(self).lrows == old(self).lrows,
            final(self).initial == old(self).initial,
            final(self).finished == old(self).finished,
            final(self).rcols@.len() == old(self).cols@.len(),
            forall|x: int|
                0 <= x < final(self).rcols@.len() ==> (#[trigger] final(self).rcols@[x])@ == old(self).spec_rcol(x),
            final(self).width@ == crate::geom::clamped_sum(
                crate::geom::abs_views(final(self).rcols@),
            ),
    {
        let ghost g0: GridLayouter = *self;
        let n = self.cols.len();

        // Sum of the sizes of the resolved relative tracks and of the
        // fractions of all fractional tracks.
        let mut rel: Abs = Abs::zero();
        let mut fr: Fr = Fr::zero();

        let mut x: usize = 0;
        while x < n
            invariant
                x <= n,
                self.wf(),
                self.model_eq(g0),
                g0.wf(),
                n == self.cols@.len(),
                self.rrows == g0.rrows,
                self.lrows == g0.lrows,
                self.initial == g0.initial,
                self.finished == g0.finished,
                self.width == g0.width,
                self.rcols@.len() == n as int,
                rel@ == g0.spec_rel_sum(x as int),
                fr@ == g0.spec_fr_sum(x as int),
                forall|i: int|
                    0 <= i < x as int && g0.cols@[i] is Rel ==> (#[trigger] self.rcols@[i])@
                        == g0.cols@[i]->Rel_0.spec_relative_to(g0.regions.size.x@),
                forall|i: int|
                    0 <= i < n as int && !(i < x as int && g0.cols@[i] is Rel) ==> (
                    #[trigger] self.rcols@[i])@ == 0,
            decreases n - x,
        {
            match self.cols[x] {
                Sizing::Auto => {},
                Sizing::Rel(v) => {
                    let resolved = v.relative_to(self.regions.base().x);
                    self.rcols.set(x, resolved);
                    rel = rel.add(resolved);
                },
                Sizing::Fr(v) => {
                    fr = fr.add(v);
                },
            }
            x = x + 1;
        }

        // Size that is not used by fixed-size columns.
        let available = self.regions.size.x.sub(rel);
        proof {
            assert(available@ == g0.spec_available());
        }
        if Abs::zero().le(available) {
            // Determine the size of the automatic columns.
            let (auto, count) = self.measure_auto_columns(available, Ghost(g0));

            // If there is remaining space, distribute it to fractional
            // columns, otherwise shrink the automatic columns.
            let remaining = available.sub(auto);
            if Abs::zero().le(remaining) {
                self.grow_fractional_columns(remaining, fr, Ghost(g0));
            } else {
                self.shrink_auto_columns(available, count, Ghost(g0));
            }
            proof {
                assert(remaining@ == g0.spec_remaining(available@));
            }
        }
        proof {
            assert forall|i: int| 0 <= i < self.rcols@.len() implies (#[trigger] self.rcols@[i])@
                == g0.spec_rcol(i) by {}
        }

        // Sum up the resolved column sizes once here.
        let mut w = Abs::zero();
        let mut i: usize = 0;
        while i < n
            invariant
                i <= n,
                n == self.rcols@.len(),
                w@ == crate::geom::clamped_sum(crate::geom::abs_views(self.rcols@).take(i as int)),
            decreases n - i,
        {
            let ghost pre = crate::geom::abs_views(self.rcols@).take(i as int);
            w = w.add(self.rcols[i]);
            proof {
                assert(crate::geom::abs_views(self.rcols@).take(i as int + 1).drop_last() =~= pre);
                assert(crate::geom::abs_views(self.rcols@).take(i as int + 1)[i as int]
                    == self.rcols@[i as int]@);
            }
            i = i + 1;
        }
        proof {
            assert(crate::geom::abs_views(self.rcols@).take(n as int) =~= crate::geom::abs_views(
                self.rcols@,
            ));
        }
        self.width = w;
    }

    /// Measure the widths of the automatic columns against the width that
    /// is available to them, and store them as those columns' sizes.
    fn measure_auto_columns(&mut self, available: Abs, Ghost(g0): Ghost<GridLayouter>) -> (r: (
        Abs,
        usize,
    ))
        requires
            old(self).wf(),
            g0.wf(),
            old(self).model_eq(g0),
        ensures
            final(self).wf(),
            final(self).model_eq(g0),
            final(self).rrows == old(self).rrows,
            final(self).lrows == old(self).lrows,
            final(self).initial == old(self).initial,
            final(self).finished == old(self).finished,
            final(self).width == old(self).width,
            final(self).rcols@.len() == old(self).rcols@.len(),
            forall|i: int|
                0 <= i < final(self).rcols@.len() && g0.cols@[i] is Auto ==> (#[trigger] final(self).rcols@[i])@ == g0.spec_measured(i, g0.rows@.len() as int, available@),
            forall|i: int|
                0 <= i < final(self).rcols@.len() && !(g0.cols@[i] is Auto) ==> #[trigger] final(self).rcols@[i] == old(self).rcols@[i],
            r.0@ == g0.spec_auto_sum(g0.cols@.len() as int, available@),
            r.1 == g0.spec_auto_count(g0.cols@.len() as int),
    {
        let mut auto = Abs::zero();
        let mut count: usize = 0;
        let n = self.cols.len();
        let rn = self.rows.len();

        // Determine the size of the automatic columns by laying out all
        // cells in those columns, measuring them and finding the largest.
        let mut x: usize = 0;
        while x < n
            invariant
                x <= n,
                self.wf(),
                g0.wf(),
                self.model_eq(g0),
                self.rrows == old(self).rrows,
                self.lrows == old(self).lrows,
                self.initial == old(self).initial,
                self.finished == old(self).finished,
                self.width == old(self).width,
                n == self.cols@.len(),
                rn == self.rows@.len(),
                self.rcols@.len() == old(self).rcols@.len() == n as int,
                auto@ == g0.spec_auto_sum(x as int, available@),
                count == g0.spec_auto_count(x as int),
                count <= x,
                forall|i: int|
                    0 <= i < x as int && g0.cols@[i] is Auto ==> (#[trigger] self.rcols@[i])@
                        == g0.spec_measured(i, g0.rows@.len() as int, available@),
                forall|i: int|
                    0 <= i < n as int && !(i < x as int && g0.cols@[i] is Auto) ==> #[trigger] self
                        .rcols@[i] == old(self).rcols@[i],
            decreases n - x,
        {
            match self.cols[x] {
                Sizing::Auto => {
                    let mut resolved = Abs::zero();
                    let mut y: usize = 0;
                    while y < rn
                        invariant
                            y <= rn,
                            x < n,
                            self.wf(),
                            g0.wf(),
                            self.model_eq(g0),
                            n == self.cols@.len(),
                            rn == self.rows@.len(),
                            resolved@ == g0.spec_measured(x as int, y as int, available@),
                        decreases rn - y,
                    {
                        match self.cell(x, y) {
                            Some(cell) => {
                                // For relative rows the correct base is
                                // already known; for automatic and
                                // fractional rows the region height is the
                                // only guess available.
                                let height = match self.rows[y] {
                                    Sizing::Rel(v) => v.relative_to(self.regions.base().y),
                                    _ => self.regions.base().y,
                                };
                                let size = Size::new(available, height);
                                let pod = Regions::one(size, Axes::splat(false));
                                let frames = layout_cell(&cell, &pod);
                                let fw = frames[0].width();
                                proof {
                                    assert(self.spec_cell(x as int, y as int) == g0.spec_cell(
                                        x as int,
                                        y as int,
                                    ));
                                    assert(fw@ == measure_width(cell, available@));
                                }
                                resolved.set_max(fw);
                            },
                            None => {},
                        }
                        y = y + 1;
                    }
                    self.rcols.set(x, resolved);
                    auto = auto.add(resolved);
                    count = count + 1;
                },
                _ => {},
            }
            x = x + 1;
        }

        (auto, count)
    }

    /// Distribute the remaining space to the fractional columns, in
    /// proportion to their shares.
    fn grow_fractional_columns(&mut self, remaining: Abs, fr: Fr, Ghost(g0): Ghost<GridLayouter>)
        requires
            old(self).wf(),
            g0.wf(),
            old(self).model_eq(g0),
        ensures
            final(self).wf(),
            final(self).model_eq(g0),
            final(self).rrows == old(self).rrows,
            final(self).lrows == old(self).lrows,
            final(self).initial == old(self).initial,
            final(self).finished == old(self).finished,
            final(self).width == old(self).width,
            final(self).rcols@.len() == old(self).rcols@.len(),
            forall|i: int|
                0 <= i < final(self).rcols@.len() && g0.cols@[i] is Fr && fr@ > 0 ==> (
                #[trigger] final(self).rcols@[i])@ == clamped(
                    g0.cols@[i]->Fr_0@ * remaining@ / fr@,
                ),
            forall|i: int|
                0 <= i < final(self).rcols@.len() && !(g0.cols@[i] is Fr && fr@ > 0)
                    ==> #[trigger] final(self).rcols@[i] == old(self).rcols@[i],
    {
        if fr.is_zero() {
            return ;
        }
        proof {
            use_type_invariant(&fr);
            crate::geom::lemma_fr_bounds(fr);
        }
        let n = self.cols.len();
        let mut x: usize = 0;
        while x < n
            invariant
                x <= n,
                fr@ > 0,
                self.wf(),
                g0.wf(),
                self.model_eq(g0),
                self.rrows == old(self).rrows,
                self.lrows == old(self).lrows,
                self.initial == old(self).initial,
                self.finished == old(self).finished,
                self.width == old(self).width,
                n == self.cols@.len(),
                self.rcols@.len() == old(self).rcols@.len() == n as int,
                forall|i: int|
                    0 <= i < x as int && g0.cols@[i] is Fr ==> (#[trigger] self.rcols@[i])@
                        == clamped(g0.cols@[i]->Fr_0@ * remaining@ / fr@),
                forall|i: int|
                    0 <= i < n as int && !(i < x as int && g0.cols@[i] is Fr) ==> #[trigger] self
                        .rcols@[i] == old(self).rcols@[i],
            decreases n - x,
        {
            match self.cols[x] {
                Sizing::Fr(v) => {
                    let w = v.share(fr, remaining);
                    self.rcols.set(x, w);
                },
                _ => {},
            }
            x = x + 1;
        }
    }

    /// Redistribute space to the automatic columns so that each gets a fair
    /// share, when their measured widths together exceed the available
    /// width.
    fn shrink_auto_columns(&mut self, available: Abs, count: usize, Ghost(g0): Ghost<GridLayouter>)
        requires
            old(self).wf(),
            g0.wf(),
            old(self).model_eq(g0),
            count as int == g0.spec_auto_count(g0.cols@.len() as int),
            forall|i: int|
                0 <= i < old(self).rcols@.len() && g0.cols@[i] is Auto ==> (#[trigger] old(self).rcols@[i])@ == g0.spec_measured(i, g0.rows@.len() as int, available@),
        ensures
            final(self).wf(),
            final(self).model_eq(g0),
            final(self).rrows == old(self).rrows,
            final(self).lrows == old(self).lrows,
            final(self).initial == old(self).initial,
            final(self).finished == old(self).finished,
            final(self).width == old(self).width,
            final(self).rcols@.len() == old(self).rcols@.len(),
            forall|i: int|
                0 <= i < final(self).rcols@.len() && g0.cols@[i] is Auto ==> (#[trigger] final(self).rcols@[i])@ == ({
                    let m = g0.spec_measured(i, g0.rows@.len() as int, available@);
                    let f = g0.spec_fair_final(available@);
                    if m > f {
                        f
                    } else {
                        m
                    }
                }),
            forall|i: int|
                0 <= i < final(self).rcols@.len() && !(g0.cols@[i] is Auto) ==> #[trigger] final(self).rcols@[i] == old(self).rcols@[i],
    {
        let ghost avail: int = available@;
        let ghost neg: int = -(INF_RAW as int);
        let ghost nn: int = g0.cols@.len() as int;
        let n = self.cols.len();

        let mut last: Abs = Abs::neg_inf();
        let mut fair: Abs = Abs::neg_inf();
        let mut redistribute: Abs = available;
        let mut overlarge: usize = count;
        let mut changed: bool = true;

        proof {
            g0.lemma_above_all(nn, avail);
        }

        // Iteratively remove the columns that do not need to be shrunk.
        while changed && overlarge > 0
            invariant
                self.wf(),
                g0.wf(),
                self.model_eq(g0),
                *self == *old(self),
                n == g0.cols@.len(),
                nn == n as int,
                avail == available@,
                neg == -(INF_RAW as int),
                forall|i: int|
                    0 <= i < self.rcols@.len() && g0.cols@[i] is Auto ==> (
                    #[trigger] self.rcols@[i])@ == g0.spec_measured(
                        i,
                        g0.rows@.len() as int,
                        avail,
                    ),
                g0.spec_fair(avail, avail, neg) == if changed && overlarge > 0 {
                    g0.spec_fair(avail, redistribute@, fair@)
                } else {
                    fair@
                },
                changed && overlarge > 0 ==> overlarge as int == g0.spec_above(nn, avail, fair@),
            decreases overlarge as int + if changed {
                1int
            } else {
                0int
            },
        {
            changed = false;
            last = fair;
            fair = redistribute.div_count(overlarge);
            let ghost redis_e: int = redistribute@;
            let ghost over_e: usize = overlarge;
            let ghost last_e: int = last@;
            let ghost fair_e: int = fair@;

            let mut x: usize = 0;
            while x < n
                invariant
                    x <= n,
                    self.wf(),
                    g0.wf(),
                    self.model_eq(g0),
                    *self == *old(self),
                    n == g0.cols@.len(),
                    nn == n as int,
                    avail == available@,
                    over_e as int == g0.spec_above(nn, avail, last_e),
                    last@ == last_e,
                    fair@ == fair_e,
                    forall|i: int|
                        0 <= i < self.rcols@.len() && g0.cols@[i] is Auto ==> (
                        #[trigger] self.rcols@[i])@ == g0.spec_measured(
                            i,
                            g0.rows@.len() as int,
                            avail,
                        ),
                    redistribute@ == g0.spec_pass_redis(x as int, avail, last_e, fair_e, redis_e),
                    overlarge as int == over_e as int - g0.spec_pass_cnt(
                        x as int,
                        avail,
                        last_e,
                        fair_e,
                    ),
                    changed == (g0.spec_pass_cnt(x as int, avail, last_e, fair_e) > 0),
                decreases n - x,
            {
                // Remove an auto column if it is not overlarge (its width is
                // at most the fair share), but also has not been removed
                // before (its width exceeds the previous share).
                let is_auto = matches!(self.cols[x], Sizing::Auto);
                let rcol = self.rcols[x];
                let take = is_auto && rcol.le(fair) && last.lt(rcol);
                if take {
                    proof {
                        assert(g0.spec_pass_cnt(x as int + 1, avail, last_e, fair_e)
                            == g0.spec_pass_cnt(x as int, avail, last_e, fair_e) + 1);
                        g0.lemma_pass_cnt_le_above(x as int, avail, last_e, fair_e);
                        g0.lemma_pass_cnt_le_above(x as int + 1, avail, last_e, fair_e);
                        g0.lemma_above_mono(x as int + 1, nn, avail, last_e);
                    }
                    redistribute = redistribute.sub(rcol);
                    overlarge = overlarge - 1;
                    changed = true;
                } else {
                    proof {
                        assert(g0.spec_pass_cnt(x as int + 1, avail, last_e, fair_e)
                            == g0.spec_pass_cnt(x as int, avail, last_e, fair_e));
                        assert(g0.spec_pass_redis(x as int + 1, avail, last_e, fair_e, redis_e)
                            == g0.spec_pass_redis(x as int, avail, last_e, fair_e, redis_e));
                    }
                }
                x = x + 1;
            }

            proof {
                let over_s = g0.spec_above(nn, avail, last_e);
                let fair_s = clamped(redis_e / over_s);
                assert(fair_s == fair_e);
                let cnt = g0.spec_pass_cnt(nn, avail, last_e, fair_e);
                g0.lemma_pass_cnt_le_above(nn, avail, last_e, fair_e);
                if cnt <= 0 {
                    assert(g0.spec_fair(avail, redis_e, last_e) == fair_s);
                } else {
                    g0.lemma_pass_nonempty_widens(nn, avail, last_e, fair_e);
                    g0.lemma_above_partition(nn, avail, last_e, fair_e);
                    g0.lemma_above_nonneg(nn, avail, fair_e);
                    assert(g0.spec_fair(avail, redis_e, last_e) == g0.spec_fair(
                        avail,
                        g0.spec_pass_redis(nn, avail, last_e, fair_e, redis_e),
                        fair_e,
                    ));
                    assert(g0.spec_above(nn, avail, fair_e) == over_s - cnt);
                    if overlarge == 0 {
                        assert(g0.spec_fair(
                            avail,
                            g0.spec_pass_redis(nn, avail, last_e, fair_e, redis_e),
                            fair_e,
                        ) == fair_e);
                    }
                }
            }
        }

        // Redistribute the space fairly among the still overlarge columns.
        let ghost rc0 = self.rcols@;
        let mut x: usize = 0;
        while x < n
            invariant
                x <= n,
                self.wf(),
                g0.wf(),
                self.model_eq(g0),
                self.rrows == old(self).rrows,
                self.lrows == old(self).lrows,
                self.initial == old(self).initial,
                self.finished == old(self).finished,
                self.width == old(self).width,
                self.cells == old(self).cells,
                n == g0.cols@.len(),
                nn == n as int,
                avail == available@,
                rc0 == old(self).rcols@,
                self.rcols@.len() == rc0.len(),
                fair@ == g0.spec_fair_final(avail),
                forall|i: int|
                    0 <= i < rc0.len() && g0.cols@[i] is Auto ==> (#[trigger] rc0[i])@
                        == g0.spec_measured(i, g0.rows@.len() as int, avail),
                forall|i: int|
                    0 <= i < x as int && g0.cols@[i] is Auto ==> (#[trigger] self.rcols@[i])@ == ({
                        let m = g0.spec_measured(i, g0.rows@.len() as int, avail);
                        if m > fair@ {
                            fair@
                        } else {
                            m
                        }
                    }),
                forall|i: int|
                    0 <= i < rc0.len() && !(i < x as int && g0.cols@[i] is Auto)
                        ==> #[trigger] self.rcols@[i] == rc0[i],
            decreases n - x,
        {
            let is_auto = matches!(self.cols[x], Sizing::Auto);
            if is_auto {
                let rcol = self.rcols[x];
                if fair.lt(rcol) {
                    self.rcols.set(x, fair);
                }
            }
            x = x + 1;
        }
    }

    /// A count of columns is never negative.
    pub proof fn lemma_above_nonneg(self, n: int, avail: int, lastv: int)
        ensures
            0 <= self.spec_above(n, avail, lastv),
        decreases n,
    {
        if n > 0 {
            self.lemma_above_nonneg(n - 1, avail, lastv);
        }
    }

    /// A pass removes only columns that were overlarge to begin with.
    pub proof fn lemma_pass_cnt_le_above(self, n: int, avail: int, lastv: int, fairv: int)
        ensures
            self.spec_pass_cnt(n, avail, lastv, fairv) <= self.spec_above(n, avail, lastv),
            0 <= self.spec_pass_cnt(n, avail, lastv, fairv),
        decreases n,
    {
        if n > 0 {
            self.lemma_pass_cnt_le_above(n - 1, avail, lastv, fairv);
        }
    }

    /// Counting over more columns never counts fewer.
    pub proof fn lemma_above_mono(self, n1: int, n2: int, avail: int, lastv: int)
        requires
            0 <= n1 <= n2,
        ensures
            self.spec_above(n1, avail, lastv) <= self.spec_above(n2, avail, lastv),
        decreases n2 - n1,
    {
        if n1 < n2 {
            self.lemma_above_mono(n1, n2 - 1, avail, lastv);
        }
    }

    /// A pass that removes a column proves that its two thresholds are in
    /// order.
    pub proof fn lemma_pass_nonempty_widens(self, n: int, avail: int, lastv: int, fairv: int)
        requires
            self.spec_pass_cnt(n, avail, lastv, fairv) > 0,
        ensures
            lastv < fairv,
        decreases n,
    {
        if n > 0 {
            let prev = self.spec_pass_cnt(n - 1, avail, lastv, fairv);
            self.lemma_pass_cnt_le_above(n - 1, avail, lastv, fairv);
            if prev > 0 {
                self.lemma_pass_nonempty_widens(n - 1, avail, lastv, fairv);
            }
        }
    }

    /// The columns overlarge for `lastv` are exactly those a pass up to
    /// `fairv` removes plus those still overlarge for `fairv`.
    pub proof fn lemma_above_partition(self, n: int, avail: int, lastv: int, fairv: int)
        requires
            lastv <= fairv,
        ensures
            self.spec_above(n, avail, lastv) == self.spec_pass_cnt(n, avail, lastv, fairv)
                + self.spec_above(n, avail, fairv),
        decreases n,
    {
        if n > 0 {
            self.lemma_above_partition(n - 1, avail, lastv, fairv);
        }
    }

    /// A measured column width is never negative.
    pub proof fn lemma_measured_nonneg(self, x: int, n: int, avail: int)
        ensures
            0 <= self.spec_measured(x, n, avail),
        decreases n,
    {
        if n > 0 {
            self.lemma_measured_nonneg(x, n - 1, avail);
        }
    }

    /// Against the lowest threshold, every automatic column counts as
    /// overlarge.
    pub proof fn lemma_above_all(self, n: int, avail: int)
        ensures
            self.spec_above(n, avail, -(INF_RAW as int)) == self.spec_auto_count(n),
        decreases n,
    {
        if n > 0 {
            self.lemma_above_all(n - 1, avail);
            self.lemma_measured_nonneg(n - 1, self.rows@.len() as int, avail);
        }
    }
}

/// The saturating sum of the heights of the finished rows in a list.
pub open spec fn rows_used(rows: Seq<Row>) -> int
    decreases rows.len(),
{
    if rows.len() == 0 {
        0
    } else {
        match rows[rows.len() - 1] {
            Row::Frame(f, _) => clamped(rows_used(rows.drop_last()) + f.size.y@),
            Row::Fr(_, _) => rows_used(rows.drop_last()),
        }
    }
}

/// The saturating sum of the fractional shares in a list of rows.
pub open spec fn rows_fr(rows: Seq<Row>) -> int
    decreases rows.len(),
{
    if rows.len() == 0 {
        0
    } else {
        match rows[rows.len() - 1] {
            Row::Fr(v, _) => clamped_share(rows_fr(rows.drop_last()) + v@),
            Row::Frame(_, _) => rows_fr(rows.drop_last()),
        }
    }
}

/// The height a pending row ends up with when its region is finalized: a
/// finished row keeps its frame's height; a fractional row claims its share
/// of the height remaining in the region.
pub open spec fn row_height(row: Row, fr_total: int, remaining: int) -> int {
    match row {
        Row::Frame(f, _) => f.size.y@,
        Row::Fr(v, _) => crate::geom::spec_share(v@, fr_total, remaining),
    }
}

/// The row index a pending row carries.
pub open spec fn row_index(row: Row) -> int {
    match row {
        Row::Frame(_, y) => y as int,
        Row::Fr(_, y) => y as int,
    }
}

impl GridLayouter {
    /// The number of cells present in row `y` among the first `n` columns.
    pub open spec fn spec_row_cells(self, y: int, n: int) -> int
        decreases n,
    {
        if n <= 0 {
            0
        } else {
            self.spec_row_cells(y, n - 1) + if self.spec_cell(n - 1, y) is Some {
                1int
            } else {
                0int
            }
        }
    }

    /// The per-region heights an automatic row needs, over its first `n`
    /// columns: the pointwise maximum of the slices of each cell's content
    /// across the remaining regions, longer cells keeping their tails.
    pub open spec fn spec_auto_heights(self, y: int, n: int) -> Seq<int>
        decreases n,
    {
        if n <= 0 {
            Seq::empty()
        } else {
            let prev = self.spec_auto_heights(y, n - 1);
            match self.spec_cell(n - 1, y) {
                Some(c) => merge_heights(
                    prev,
                    crate::regions::split_heights(c.height@, self.regions),
                ),
                None => prev,
            }
        }
    }

    /// Whether some cell of row `y`, among the first `n` columns, leaves
    /// the first region empty while filling a later one — the exact trigger
    /// for skipping the first region of an automatic row.
    pub open spec fn spec_row_skips(self, y: int, n: int) -> bool
        decreases n,
    {
        if n <= 0 {
            false
        } else {
            self.spec_row_skips(y, n - 1) || match self.spec_cell(n - 1, y) {
                Some(c) => {
                    let sl = crate::regions::split_heights(c.height@, self.regions);
                    sl[0] <= 0 && (exists|j: int| 1 <= j < sl.len() && sl[j] > 0)
                },
                None => false,
            }
        }
    }

    /// Among the first `n` columns, how many cells of row `y` still have a
    /// slice in region `i` when their heights fall across a first region of
    /// height `h0` followed by the heights `hrest`.
    pub open spec fn spec_row_coverage(self, y: int, n: int, h0: int, hrest: Seq<int>, i: int) -> int
        decreases n,
    {
        if n <= 0 {
            0
        } else {
            self.spec_row_coverage(y, n - 1, h0, hrest, i) + match self.spec_cell(n - 1, y) {
                Some(c) => if crate::regions::slices_used(c.height@, h0, hrest) > i {
                    1int
                } else {
                    0int
                },
                None => 0int,
            }
        }
    }

    /// Counting covering cells over more columns never counts fewer.
    proof fn lemma_row_coverage_mono(self, y: int, n1: int, n2: int, h0: int, hrest: Seq<int>, i: int)
        requires
            0 <= n1 <= n2,
        ensures
            self.spec_row_coverage(y, n1, h0, hrest, i) <= self.spec_row_coverage(
                y,
                n2,
                h0,
                hrest,
                i,
            ),
        decreases n2 - n1,
    {
        if n1 < n2 {
            self.lemma_row_coverage_mono(y, n1, n2 - 1, h0, hrest, i);
        }
    }

    /// Counting cells over more columns never counts fewer.
    proof fn lemma_row_cells_mono(self, y: int, n1: int, n2: int)
        requires
            0 <= n1 <= n2,
        ensures
            self.spec_row_cells(y, n1) <= self.spec_row_cells(y, n2),
        decreases n2 - n1,
    {
        if n1 < n2 {
            self.lemma_row_cells_mono(y, n1, n2 - 1);
        }
    }

    /// Lay out a row with a fixed height and return its frame: every cell of
    /// the row is laid into a pod of exactly its column's width and that
    /// height, and placed at its column's horizontal offset.
    fn layout_single_row(&self, height: Abs, y: usize) -> (frame: Frame)
        requires
            self.wf(),
            y < self.rows@.len(),
        ensures
            frame.size.x == self.width,
            frame.size.y == height,
            frame.items@.len() == self.spec_row_cells(y as int, self.cols@.len() as int),
            forall|x: int|
                0 <= x < self.cols@.len() && self.spec_cell(x, y as int) is Some ==> {
                    let e = #[trigger] frame.items@[self.spec_row_cells(y as int, x)];
                    e.pos.x@ == crate::geom::clamped_sum(
                        crate::geom::abs_views(self.rcols@.take(x)),
                    ) && e.pos.y@ == 0 && e.item is Group
                },
    {
        let mut output = Frame::new(Size::new(self.width, height));
        let mut pos = Point::zero();
        let n = self.cols.len();

        let mut x: usize = 0;
        while x < n
            invariant
                x <= n,
                self.wf(),
                y < self.rows@.len(),
                n == self.cols@.len(),
                output.size.x == self.width,
                output.size.y == height,
                output.items@.len() == self.spec_row_cells(y as int, x as int),
                pos.x@ == crate::geom::clamped_sum(
                    crate::geom::abs_views(self.rcols@.take(x as int)),
                ),
                pos.y@ == 0,
                forall|xx: int|
                    0 <= xx < x as int && self.spec_cell(xx, y as int) is Some ==> {
                        let e = #[trigger] output.items@[self.spec_row_cells(y as int, xx)];
                        e.pos.x@ == crate::geom::clamped_sum(
                            crate::geom::abs_views(self.rcols@.take(xx)),
                        ) && e.pos.y@ == 0 && e.item is Group
                    },
            decreases n - x,
        {
            let ghost out_pre = output.items@;
            let rcol = self.rcols[x];
            match self.cell(x, y) {
                Some(cell) => {
                    let size = Size::new(rcol, height);
                    let mut pod = Regions::one(size, Axes::splat(true));
                    if matches!(self.rows[y], Sizing::Auto) {
                        pod.full = self.regions.full;
                    }
                    let mut frames = layout_cell(&cell, &pod);
                    let frame = frames.remove(0);
                    output.push_frame(pos, frame);
                },
                None => {},
            }
            proof {
                assert forall|xx: int|
                    0 <= xx < x as int && self.spec_cell(xx, y as int) is Some implies
                    self.spec_row_cells(y as int, xx) + 1 <= self.spec_row_cells(
                    y as int,
                    x as int,
                ) by {
                    self.lemma_row_cells_mono(y as int, xx + 1, x as int);
                }
                assert forall|xx: int|
                    0 <= xx < x as int && self.spec_cell(xx, y as int) is Some implies
                    #[trigger] output.items@[self.spec_row_cells(y as int, xx)] == out_pre[
                    self.spec_row_cells(y as int, xx)
                ] by {
                    self.lemma_row_cells_mono(y as int, xx + 1, x as int);
                    self.lemma_row_cells_mono(y as int, 0, xx);
                }
                assert(crate::geom::abs_views(self.rcols@.take(x as int + 1)).drop_last()
                    =~= crate::geom::abs_views(self.rcols@.take(x as int)));
                assert(crate::geom::abs_views(self.rcols@.take(x as int + 1)).last()
                    == self.rcols@[x as int]@);
            }
            pos = Point::new(pos.x.add(rcol), pos.y);
            x = x + 1;
        }

        output
    }

    /// Lay out a row that spans several regions: one output frame per given
    /// height, each cell's slices distributed over them in order.
    fn layout_multi_row(&self, heights: &Vec<Abs>, y: usize) -> (fragment: Vec<Frame>)
        requires
            self.wf(),
            y < self.rows@.len(),
            heights@.len() >= 1,
        ensures
            fragment@.len() == heights@.len(),
            forall|i: int|
                0 <= i < fragment@.len() ==> (#[trigger] fragment@[i]).size.x == self.width
                    && fragment@[i].size.y == heights@[i],
            forall|i: int|
                0 <= i < fragment@.len() ==> (#[trigger] fragment@[i]).items@.len()
                    == self.spec_row_coverage(
                    y as int,
                    self.cols@.len() as int,
                    heights@[0]@,
                    crate::geom::abs_views(heights@.subrange(1, heights@.len() as int)),
                    i,
                ),
            forall|xx: int, i: int|
                0 <= xx < self.cols@.len() && 0 <= i < fragment@.len() && self.spec_cell(
                    xx,
                    y as int,
                ) is Some && crate::regions::slices_used(
                    self.spec_cell(xx, y as int)->Some_0.height@,
                    heights@[0]@,
                    crate::geom::abs_views(heights@.subrange(1, heights@.len() as int)),
                ) > i ==> {
                    let e = #[trigger] fragment@[i].items@[self.spec_row_coverage(
                        y as int,
                        xx,
                        heights@[0]@,
                        crate::geom::abs_views(heights@.subrange(1, heights@.len() as int)),
                        i,
                    )];
                    e.pos.x@ == crate::geom::clamped_sum(
                        crate::geom::abs_views(self.rcols@.take(xx)),
                    ) && e.pos.y@ == 0 && e.item is Group
                },
    {
        // Prepare the frames.
        let k = heights.len();
        let mut outputs: Vec<Frame> = Vec::new();
        let mut i: usize = 0;
        while i < k
            invariant
                i <= k,
                k == heights@.len(),
                outputs@.len() == i as int,
                forall|j: int|
                    0 <= j < i as int ==> (#[trigger] outputs@[j]).size.x == self.width
                        && outputs@[j].size.y == heights@[j] && outputs@[j].items@.len() == 0,
            decreases k - i,
        {
            outputs.push(Frame::new(Size::new(self.width, heights[i])));
            i = i + 1;
        }

        // The backlog of the pod holds the heights after the first.
        let mut backlog: Vec<Abs> = Vec::new();
        let mut i: usize = 1;
        while i < k
            invariant
                1 <= i <= k,
                k == heights@.len(),
                backlog@ =~= heights@.subrange(1, i as int),
            decreases k - i,
        {
            backlog.push(heights[i]);
            i = i + 1;
        }
        proof {
            assert(backlog@ =~= heights@.subrange(1, k as int));
        }
        let ghost h0: int = heights@[0]@;
        let ghost hrest: Seq<int> = crate::geom::abs_views(heights@.subrange(1, k as int));

        // Lay out the row column by column, pushing each cell's slices into
        // the output frames in order.
        let n = self.cols.len();
        let mut pos = Point::zero();
        let mut x: usize = 0;
        while x < n
            invariant
                x <= n,
                self.wf(),
                y < self.rows@.len(),
                n == self.cols@.len(),
                k == heights@.len(),
                backlog@.len() == k as int - 1,
                outputs@.len() == k as int,
                h0 == heights@[0]@,
                hrest == crate::geom::abs_views(heights@.subrange(1, k as int)),
                backlog@ =~= heights@.subrange(1, k as int),
                forall|j: int|
                    0 <= j < k as int ==> (#[trigger] outputs@[j]).size.x == self.width
                        && outputs@[j].size.y == heights@[j],
                forall|j: int|
                    0 <= j < k as int ==> (#[trigger] outputs@[j]).items@.len()
                        == self.spec_row_coverage(y as int, x as int, h0, hrest, j),
                pos.x@ == crate::geom::clamped_sum(
                    crate::geom::abs_views(self.rcols@.take(x as int)),
                ),
                pos.y@ == 0,
                forall|xx: int, j: int|
                    0 <= xx < x as int && 0 <= j < k as int && self.spec_cell(xx, y as int)
                        is Some && crate::regions::slices_used(
                        self.spec_cell(xx, y as int)->Some_0.height@,
                        h0,
                        hrest,
                    ) > j ==> {
                        let e = #[trigger] outputs@[j].items@[self.spec_row_coverage(
                            y as int,
                            xx,
                            h0,
                            hrest,
                            j,
                        )];
                        e.pos.x@ == crate::geom::clamped_sum(
                            crate::geom::abs_views(self.rcols@.take(xx)),
                        ) && e.pos.y@ == 0 && e.item is Group
                    },
            decreases n - x,
        {
            let rcol = self.rcols[x];
            match self.cell(x, y) {
                Some(cell) => {
                    let mut pod = Regions::new(
                        Size::new(rcol, heights[0]),
                        clone_abs(&backlog),
                        None,
                        Axes::splat(true),
                    );
                    pod.full = self.regions.full;
                    let frames = layout_cell(&cell, &pod);
                    proof {
                        crate::regions::lemma_split_len(cell.height@, pod);
                        crate::regions::lemma_split_len_ints(cell.height@, pod);
                        assert(pod.backlog@.skip(0) =~= pod.backlog@);
                        assert(crate::geom::abs_views(pod.backlog@) =~= hrest);
                    }
                    let m = frames.len();
                    proof {
                        assert(m as int == crate::regions::slices_used(cell.height@, h0, hrest));
                    }
                    let mut fi: usize = 0;
                    let ghost outs0 = outputs@;
                    let mut frames = frames;
                    while fi < m
                        invariant
                            fi <= m,
                            m as int <= k as int,
                            outputs@.len() == k as int,
                            frames@.len() == m - fi,
                            m as int == crate::regions::slices_used(cell.height@, h0, hrest),
                            forall|j: int|
                                0 <= j < k as int ==> (#[trigger] outputs@[j]).size == outs0[
                                    j
                                ].size,
                            forall|j: int|
                                0 <= j < k as int ==> (#[trigger] outputs@[j]).items@.len()
                                    == self.spec_row_coverage(y as int, x as int, h0, hrest, j) + (
                                if j < fi as int {
                                    1int
                                } else {
                                    0int
                                }),
                            forall|xx: int, j: int|
                                0 <= xx < x as int && 0 <= j < k as int && self.spec_cell(
                                    xx,
                                    y as int,
                                ) is Some && crate::regions::slices_used(
                                    self.spec_cell(xx, y as int)->Some_0.height@,
                                    h0,
                                    hrest,
                                ) > j ==> {
                                    let e = #[trigger] outputs@[j].items@[self.spec_row_coverage(
                                        y as int,
                                        xx,
                                        h0,
                                        hrest,
                                        j,
                                    )];
                                    e.pos.x@ == crate::geom::clamped_sum(
                                        crate::geom::abs_views(self.rcols@.take(xx)),
                                    ) && e.pos.y@ == 0 && e.item is Group
                                },
                            forall|j: int|
                                0 <= j < fi as int ==> {
                                    let e = #[trigger] outputs@[j].items@[self.spec_row_coverage(
                                        y as int,
                                        x as int,
                                        h0,
                                        hrest,
                                        j,
                                    )];
                                    e.pos.x@ == crate::geom::clamped_sum(
                                        crate::geom::abs_views(self.rcols@.take(x as int)),
                                    ) && e.pos.y@ == 0 && e.item is Group
                                },
                            pos.x@ == crate::geom::clamped_sum(
                                crate::geom::abs_views(self.rcols@.take(x as int)),
                            ),
                            pos.y@ == 0,
                        decreases m - fi,
                    {
                        let ghost outs_pre = outputs@;
                        let f = frames.remove(0);
                        frame_push_at(&mut outputs, fi, pos, f);
                        proof {
                            assert forall|xx: int, j: int|
                                0 <= xx < x as int && 0 <= j < k as int && self.spec_cell(
                                    xx,
                                    y as int,
                                ) is Some && crate::regions::slices_used(
                                    self.spec_cell(xx, y as int)->Some_0.height@,
                                    h0,
                                    hrest,
                                ) > j implies outputs@[j].items@[self.spec_row_coverage(
                                y as int,
                                xx,
                                h0,
                                hrest,
                                j,
                            )] == outs_pre[j].items@[self.spec_row_coverage(
                                y as int,
                                xx,
                                h0,
                                hrest,
                                j,
                            )] by {
                                self.lemma_row_coverage_mono(y as int, 0, xx, h0, hrest, j);
                                self.lemma_row_coverage_mono(
                                    y as int,
                                    xx + 1,
                                    x as int,
                                    h0,
                                    hrest,
                                    j,
                                );
                            }
                        }
                        fi = fi + 1;
                    }
                    proof {
                        assert(self.spec_cell(x as int, y as int) == Some(cell));
                        assert forall|j: int| 0 <= j < k as int implies (
                        #[trigger] outputs@[j]).items@.len() == self.spec_row_coverage(
                            y as int,
                            x as int + 1,
                            h0,
                            hrest,
                            j,
                        ) by {}
                        assert forall|xx: int, j: int|
                            0 <= xx < x as int + 1 && 0 <= j < k as int && self.spec_cell(
                                xx,
                                y as int,
                            ) is Some && crate::regions::slices_used(
                                self.spec_cell(xx, y as int)->Some_0.height@,
                                h0,
                                hrest,
                            ) > j implies {
                            let e = #[trigger] outputs@[j].items@[self.spec_row_coverage(
                                y as int,
                                xx,
                                h0,
                                hrest,
                                j,
                            )];
                            e.pos.x@ == crate::geom::clamped_sum(
                                crate::geom::abs_views(self.rcols@.take(xx)),
                            ) && e.pos.y@ == 0 && e.item is Group
                        } by {
                            if xx == x as int {
                                assert(self.spec_row_coverage(y as int, xx, h0, hrest, j)
                                    == self.spec_row_coverage(y as int, x as int, h0, hrest, j));
                            }
                        }
                    }
                },
                None => {
                    proof {
                        assert forall|j: int| 0 <= j < k as int implies (
                        #[trigger] outputs@[j]).items@.len() == self.spec_row_coverage(
                            y as int,
                            x as int + 1,
                            h0,
                            hrest,
                            j,
                        ) by {}
                    }
                },
            }
            proof {
                assert(crate::geom::abs_views(self.rcols@.take(x as int + 1)).drop_last()
                    =~= crate::geom::abs_views(self.rcols@.take(x as int)));
                assert(crate::geom::abs_views(self.rcols@.take(x as int + 1)).last()
                    == self.rcols@[x as int]@);
            }
            pos = Point::new(pos.x.add(rcol), pos.y);
            x = x + 1;
        }

        outputs
    }

    /// Push a finished row frame into the current region, consuming its
    /// height from the region's remaining space.
    fn push_row(&mut self, frame: Frame, y: usize)
        requires
            old(self).wf(),
            y < old(self).rows@.len(),
        ensures
            final(self).wf(),
            final(self).cells == old(self).cells,
            final(self).is_rtl == old(self).is_rtl,
            final(self).has_gutter == old(self).has_gutter,
            final(self).cols == old(self).cols,
            final(self).rows == old(self).rows,
            final(self).rcols == old(self).rcols,
            final(self).width == old(self).width,
            final(self).rrows == old(self).rrows,
            final(self).initial == old(self).initial,
            final(self).finished == old(self).finished,
            final(self).regions.size.x == old(self).regions.size.x,
            final(self).regions.full == old(self).regions.full,
            final(self).regions.backlog == old(self).regions.backlog,
            final(self).regions.bidx == old(self).regions.bidx,
            final(self).regions.last == old(self).regions.last,
            final(self).regions.expand == old(self).regions.expand,
            final(self).regions.size.y@ == clamped(old(self).regions.size.y@ - frame.size.y@),
            final(self).lrows@ == old(self).lrows@.push(Row::Frame(frame, y)),
    {
        let h = frame.height();
        self.regions.size = Size::new(self.regions.size.x, self.regions.size.y.sub(h));
        self.lrows.push(Row::Frame(frame, y));
    }

    /// Finish the current region: resolve the pending fractional rows,
    /// stamp all pending rows into one output frame in row order, record
    /// the row heights, and advance the region cursor.
    fn finish_region(&mut self)
        requires
            old(self).wf(),
        ensures
            final(self).wf(),
            final(self).cells == old(self).cells,
            final(self).is_rtl == old(self).is_rtl,
            final(self).has_gutter == old(self).has_gutter,
            final(self).cols == old(self).cols,
            final(self).rows == old(self).rows,
            final(self).rcols == old(self).rcols,
            final(self).width == old(self).width,
            final(self).lrows@.len() == 0,
            final(self).regions == old(self).regions.spec_next(),
            final(self).initial == final(self).regions.size,
            final(self).finished@.len() == old(self).finished@.len() + 1,
            forall|i: int|
                0 <= i < old(self).finished@.len() ==> #[trigger] final(self).finished@[i] == old(self).finished@[i],
            ({
                let out = final(self).finished@.last();
                let used = rows_used(old(self).lrows@);
                let fr = rows_fr(old(self).lrows@);
                &&& out.size.x@ == if old(self).width@ <= old(self).initial.x@ {
                    old(self).width@
                } else {
                    old(self).initial.x@
                }
                &&& out.size.y@ == if fr > 0 && -(INF_RAW as int) < old(self).initial.y@
                    < INF_RAW as int {
                    old(self).initial.y@
                } else if used <= old(self).initial.y@ {
                    used
                } else {
                    old(self).initial.y@
                }
                &&& out.items@.len() == old(self).lrows@.len()
                &&& forall|t: int|
                    0 <= t < out.items@.len() ==> (#[trigger] out.items@[t]).pos.x@ == 0
                        && out.items@[t].pos.y@ == crate::geom::clamped_sum(
                        crate::geom::abs_views(final(self).rrows@.last().1@.take(t)),
                    ) && out.items@[t].item is Group
            }),
            final(self).rrows@.len() == old(self).rrows@.len() + 1,
            forall|i: int|
                0 <= i < old(self).rrows@.len() ==> #[trigger] final(self).rrows@[i] == old(self).rrows@[i],
            ({
                let rr = final(self).rrows@.last();
                let used = rows_used(old(self).lrows@);
                let fr = rows_fr(old(self).lrows@);
                let remaining = clamped(old(self).regions.full@ - used);
                &&& rr.1@.len() == old(self).lrows@.len()
                &&& forall|k: int|
                    0 <= k < old(self).lrows@.len() ==> (#[trigger] rr.1@[k])@ == row_height(
                        old(self).lrows@[k],
                        fr,
                        remaining,
                    )
                &&& rr.0 as int == if old(self).lrows@.len() > 0 {
                    row_index(old(self).lrows@[0])
                } else {
                    0int
                }
            }),
    {
        let ghost g0 = *self;

        // Determine the height of the existing rows in the region.
        let mut used = Abs::zero();
        let mut fr = Fr::zero();
        let m = self.lrows.len();
        let mut k: usize = 0;
        while k < m
            invariant
                k <= m,
                m == self.lrows@.len(),
                *self == g0,
                used@ == rows_used(self.lrows@.take(k as int)),
                fr@ == rows_fr(self.lrows@.take(k as int)),
            decreases m - k,
        {
            let ghost pre = self.lrows@.take(k as int);
            proof {
                assert(self.lrows@.take(k as int + 1).drop_last() =~= pre);
                assert(self.lrows@.take(k as int + 1).last() == self.lrows@[k as int]);
            }
            match &self.lrows[k] {
                Row::Frame(f, _) => {
                    used = used.add(f.height());
                },
                Row::Fr(v, _) => {
                    fr = fr.add(*v);
                },
            }
            k = k + 1;
        }
        proof {
            assert(self.lrows@.take(m as int) =~= self.lrows@);
        }

        // Determine the size of the grid in this region, expanding fully if
        // there are fractional rows.
        proof {
            use_type_invariant(&fr);
            crate::geom::lemma_fr_bounds(fr);
        }
        let mut size = Size::new(self.width, used).min(self.initial);
        if !fr.is_zero() && self.initial.y.is_finite() {
            size = Size::new(size.x, self.initial.y);
        }

        // The frame for the region.
        let mut output = Frame::new(size);
        let mut pos = Point::zero();
        let mut heights: Vec<Abs> = Vec::new();
        let mut first: Option<usize> = None;
        let remaining = self.regions.full.sub(used);

        // Place the finished rows and lay out the fractional rows.
        let mut lrows: Vec<Row> = Vec::new();
        core::mem::swap(&mut lrows, &mut self.lrows);
        let ghost l0 = lrows@;
        proof {
            assert(l0.len() <= usize::MAX as int);
            assert(forall|i: int| 0 <= i < l0.len() ==> row_index(#[trigger] l0[i]) < g0.rows@.len());
        }
        let mut k: usize = 0;
        while lrows.len() > 0
            invariant
                k as int + lrows@.len() == l0.len(),
                l0.len() <= usize::MAX as int,
                forall|i: int|
                    0 <= i < l0.len() ==> row_index(#[trigger] l0[i]) < g0.rows@.len(),
                self.rows@.len() == g0.rows@.len(),
                lrows@ =~= l0.skip(k as int),
                self.wf(),
                self.cells == g0.cells,
                self.is_rtl == g0.is_rtl,
                self.has_gutter == g0.has_gutter,
                self.cols == g0.cols,
                self.rows == g0.rows,
                self.rcols == g0.rcols,
                self.width == g0.width,
                self.regions == g0.regions,
                self.initial == g0.initial,
                self.rrows == g0.rrows,
                self.finished == g0.finished,
                self.lrows@.len() == 0,
                fr@ == rows_fr(l0),
                remaining@ == clamped(g0.regions.full@ - rows_used(l0)),
                output.size == size,
                output.items@.len() == k as int,
                heights@.len() == k as int,
                pos.x@ == 0,
                pos.y@ == crate::geom::clamped_sum(crate::geom::abs_views(heights@)),
                forall|t: int|
                    0 <= t < k as int ==> (#[trigger] output.items@[t]).pos.x@ == 0
                        && output.items@[t].pos.y@ == crate::geom::clamped_sum(
                        crate::geom::abs_views(heights@.take(t)),
                    ) && output.items@[t].item is Group,
                forall|i: int|
                    0 <= i < k as int ==> (#[trigger] heights@[i])@ == row_height(
                        l0[i],
                        rows_fr(l0),
                        remaining@,
                    ),
                k == 0 ==> first is None,
                k > 0 ==> first is Some && first->Some_0 as int == row_index(l0[0]),
            decreases lrows@.len(),
        {
            let row = lrows.remove(0);
            let (frame, yy): (Frame, usize) = match row {
                Row::Frame(f, yy) => (f, yy),
                Row::Fr(v, yy) => {
                    let height = v.share(fr, remaining);
                    (self.layout_single_row(height, yy), yy)
                },
            };
            let height = frame.height();
            if first.is_none() {
                first = Some(yy);
            }
            let ghost hts_pre = heights@;
            output.push_frame(pos, frame);
            heights.push(height);
            proof {
                assert(crate::geom::abs_views(heights@).drop_last() =~= crate::geom::abs_views(
                    hts_pre,
                ));
                assert(crate::geom::abs_views(heights@).last() == height@);
                assert(heights@.take(k as int) =~= hts_pre);
                assert forall|t: int| 0 <= t < k as int implies heights@.take(t) =~= hts_pre.take(
                    t,
                ) by {}
            }
            pos = Point::new(pos.x, pos.y.add(height));
            k = k + 1;
        }

        self.finished.push(output);
        let start = match first {
            Some(yy) => yy,
            None => 0,
        };
        self.rrows.push((start, heights));
        self.regions.next();
        self.initial = self.regions.size;
    }
}

/// The pointwise maximum of two height lists; where only one list has an
/// entry, that entry is kept.
pub open spec fn merge_heights(a: Seq<int>, b: Seq<int>) -> Seq<int> {
    Seq::new(
        if a.len() >= b.len() {
            a.len()
        } else {
            b.len()
        },
        |i: int|
            if i < a.len() && i < b.len() {
                if a[i] >= b[i] {
                    a[i]
                } else {
                    b[i]
                }
            } else if i < a.len() {
                a[i]
            } else {
                b[i]
            },
    )
}

/// Whether a pending row is a finished full-height frame for row `y`.
pub open spec fn is_full_row(r: Row, h: int, w: Abs, y: int) -> bool {
    &&& r is Frame
    &&& r->Frame_0.size.y@ == h
    &&& r->Frame_0.size.x == w
    &&& row_index(r) == y
}

impl GridLayouter {
    /// Lay out a row with a relative height. Such a row cannot break across
    /// regions, but it may force a region break: while it does not fit and a
    /// further region exists, the current region is finished and the row is
    /// carried over wholesale — it is never split. A gutter row that does
    /// not fit is simply dropped instead of forcing more breaks.
    fn layout_relative_row(&mut self, v: Rel, y: usize)
        requires
            old(self).wf(),
            y < old(self).rows@.len(),
        ensures
            final(self).wf(),
            final(self).cells == old(self).cells,
            final(self).is_rtl == old(self).is_rtl,
            final(self).has_gutter == old(self).has_gutter,
            final(self).cols == old(self).cols,
            final(self).rows == old(self).rows,
            final(self).rcols == old(self).rcols,
            final(self).width == old(self).width,
            final(self).regions.expand == old(self).regions.expand,
            final(self).finished@.len() - old(self).finished@.len() == final(self).rrows@.len()
                - old(self).rrows@.len(),
            ({
                let resolved = v.spec_relative_to(old(self).regions.full@);
                ||| (final(self).finished@ == old(self).finished@ && final(self).lrows@.len()
                    == old(self).lrows@.len() + 1 && final(self).lrows@.drop_last() == old(self).lrows@ && is_full_row(
                    final(self).lrows@.last(),
                    resolved,
                    old(self).width,
                    y as int,
                ))
                ||| (final(self).finished@.len() > old(self).finished@.len() && ((y % 2 == 1
                    && final(self).lrows@.len() == 0) || (final(self).lrows@.len() == 1
                    && is_full_row(
                    final(self).lrows@[0],
                    v.spec_relative_to(old(self).regions.full@),
                    old(self).width,
                    y as int,
                ))))
            }),
            old(self).regions.size.y@ >= v.spec_relative_to(old(self).regions.full@) ==> final(self).finished@ == old(self).finished@,
            final(self).finished@ == old(self).finished@ ==> old(self).regions.size.y@
                >= v.spec_relative_to(old(self).regions.full@) || old(self).regions.spec_in_last(),
            y % 2 == 1 && old(self).regions.size.y@ < v.spec_relative_to(old(self).regions.full@)
                && !old(self).regions.spec_in_last() ==> final(self).finished@.len() == old(self).finished@.len() + 1 && final(self).lrows@.len() == 0,
            final(self).finished@.len() > old(self).finished@.len() && y % 2 == 0 ==> final(self).regions.size.y@ >= 0 || final(self).regions.spec_in_last(),
    {
        let resolved = v.relative_to(self.regions.base().y);
        let frame = self.layout_single_row(resolved, y);

        // Skip to a fitting region.
        let height = frame.height();
        while !self.regions.size.y.fits(height) && !self.regions.in_last()
            invariant
                self.wf(),
                y < self.rows@.len(),
                self.cells == old(self).cells,
                self.is_rtl == old(self).is_rtl,
                self.has_gutter == old(self).has_gutter,
                self.cols == old(self).cols,
                self.rows == old(self).rows,
                self.rcols == old(self).rcols,
                self.width == old(self).width,
                self.finished@.len() - old(self).finished@.len() == self.rrows@.len() - old(self).rrows@.len(),
                height == frame.size.y,
                frame.size.y@ == v.spec_relative_to(old(self).regions.full@),
                frame.size.x == old(self).width,
                self.regions.expand == old(self).regions.expand,
                (self.finished@ == old(self).finished@ && self.lrows@ == old(self).lrows@
                    && self.regions == old(self).regions && self.rrows == old(self).rrows) || (
                self.finished@.len() > old(self).finished@.len() && self.lrows@.len() == 0),
                old(self).regions.size.y@ >= height@ ==> self.finished@ == old(self).finished@,
                y % 2 == 1 ==> self.finished@ == old(self).finished@,
            decreases self.regions.backlog@.len() - self.regions.bidx + if self.regions.spec_in_last() {
                0int
            } else {
                1int
            },
        {
            proof {
                crate::regions::lemma_next_measure(self.regions);
            }
            self.finish_region();

            // Don't skip more regions for gutter rows and don't push a row.
            if y % 2 == 1 {
                return ;
            }
        }

        self.push_row(frame, y);
    }

    /// Lay out a row with automatic height. Such a row may break across
    /// several regions: each column's cell is laid into the remaining region
    /// sequence, the heights the regions need are merged, and one row slice
    /// is pushed per region used. A row whose content stays within the
    /// current region is pushed as a single fixed-height row; a row with no
    /// cells at all changes nothing.
    fn layout_auto_row(&mut self, y: usize)
        requires
            old(self).wf(),
            y < old(self).rows@.len(),
            !old(self).regions.expand.y,
        ensures
            final(self).wf(),
            final(self).cells == old(self).cells,
            final(self).is_rtl == old(self).is_rtl,
            final(self).has_gutter == old(self).has_gutter,
            final(self).cols == old(self).cols,
            final(self).rows == old(self).rows,
            final(self).rcols == old(self).rcols,
            final(self).width == old(self).width,
            final(self).regions.expand == old(self).regions.expand,
            final(self).finished@.len() - old(self).finished@.len() == final(self).rrows@.len()
                - old(self).rrows@.len(),
            ({
                let hs = old(self).spec_auto_heights(y as int, old(self).cols@.len() as int);
                &&& (hs.len() == 0 ==> *final(self) == *old(self))
                &&& (hs.len() == 1 ==> final(self).lrows@.len() == old(self).lrows@.len() + 1
                    && final(self).lrows@.drop_last() == old(self).lrows@ && is_full_row(
                    final(self).lrows@.last(),
                    hs[0],
                    old(self).width,
                    y as int,
                ) && final(self).finished@ == old(self).finished@ && final(self).rrows == old(self).rrows && final(self).initial == old(self).initial && final(self).regions.size.x
                    == old(self).regions.size.x && final(self).regions.full == old(self).regions.full && final(self).regions.backlog == old(self).regions.backlog && final(self).regions.bidx == old(self).regions.bidx && final(self).regions.last == old(self).regions.last && final(self).regions.size.y@ == clamped(
                    old(self).regions.size.y@ - hs[0],
                ))
                &&& (hs.len() >= 2 ==> final(self).finished@.len() == old(self).finished@.len()
                    + hs.len() - 1 && final(self).lrows@.len() == 1 && is_full_row(
                    final(self).lrows@[0],
                    hs.last(),
                    old(self).width,
                    y as int,
                ) && final(self).rrows@[old(self).rrows@.len() as int].1@.len() == old(self).lrows@.len() + (
                if old(self).spec_row_skips(y as int, old(self).cols@.len() as int) && !old(self).regions.spec_in_last() {
                    0int
                } else {
                    1int
                }))
            }),
    {
        let ghost nn: int = old(self).cols@.len() as int;
        let mut resolved: Vec<Abs> = Vec::new();
        let mut skip = false;
        let n = self.rcols.len();

        // Determine the size for each region of the row.
        let mut x: usize = 0;
        while x < n
            invariant
                x <= n,
                self.wf(),
                *self == *old(self),
                y < self.rows@.len(),
                n == self.rcols@.len(),
                nn == self.cols@.len() as int,
                !self.regions.expand.y,
                crate::geom::abs_views(resolved@) == old(self).spec_auto_heights(
                    y as int,
                    x as int,
                ),
                skip == old(self).spec_row_skips(y as int, x as int),
            decreases n - x,
        {
            match self.cell(x, y) {
                Some(cell) => {
                    let pod = self.regions.with_width(self.rcols[x]);
                    let frames = layout_cell(&cell, &pod);
                    let ghost sl = crate::regions::split_heights(cell.height@, old(self).regions);
                    proof {
                        crate::content::lemma_frame_heights_no_expand(cell.height@, pod);
                        crate::regions::lemma_split_width_irrelevant(
                            cell.height@,
                            pod,
                            old(self).regions,
                        );
                        assert(frames@.len() == sl.len());
                        assert(forall|t: int|
                            0 <= t < frames@.len() ==> (#[trigger] frames@[t]).size.y@ == sl[t]);
                        assert(forall|t: int|
                            0 <= t < frames@.len() ==> ((#[trigger] frames@[t]).items@.len() > 0
                                <==> sl[t] > 0));
                    }

                    // If the first region stays empty for some cell while a
                    // later one does not, skip the first region.
                    if frames[0].is_empty() {
                        let mut any = false;
                        let mut i: usize = 1;
                        while i < frames.len()
                            invariant
                                1 <= i <= frames@.len(),
                                frames@.len() == sl.len(),
                                forall|t: int|
                                    0 <= t < frames@.len() ==> ((#[trigger] frames@[t]).items@.len()
                                        > 0 <==> sl[t] > 0),
                                any == (exists|jj: int| 1 <= jj < i as int && sl[jj] > 0),
                            decreases frames@.len() - i,
                        {
                            if !frames[i].is_empty() {
                                any = true;
                                proof {
                                    assert(sl[i as int] > 0);
                                    assert(exists|jj: int|
                                        1 <= jj < i as int + 1 && sl[jj] > 0);
                                }
                            } else {
                                proof {
                                    assert(sl[i as int] <= 0);
                                    if exists|jj: int| 1 <= jj < i as int + 1 && sl[jj] > 0 {
                                        let w = choose|jj: int|
                                            1 <= jj < i as int + 1 && sl[jj] > 0;
                                        assert(1 <= w < i as int && sl[w] > 0);
                                    }
                                }
                            }
                            i = i + 1;
                        }
                        if any {
                            skip = true;
                        }
                    }

                    // For each region, the maximum height any column needs;
                    // new heights are maximal by virtue of being new.
                    let ghost prev = crate::geom::abs_views(resolved@);
                    let ghost target = merge_heights(prev, sl);
                    let mut i: usize = 0;
                    while i < frames.len() && i < resolved.len()
                        invariant
                            i <= frames@.len(),
                            i <= resolved@.len(),
                            frames@.len() == sl.len(),
                            resolved@.len() == prev.len(),
                            target == merge_heights(prev, sl),
                            forall|t: int|
                                0 <= t < frames@.len() ==> (#[trigger] frames@[t]).size.y@
                                    == sl[t],
                            forall|t: int|
                                0 <= t < i as int ==> (#[trigger] resolved@[t])@ == target[t],
                            forall|t: int|
                                i as int <= t < resolved@.len() ==> (#[trigger] resolved@[t])@
                                    == prev[t],
                        decreases frames@.len() - i,
                    {
                        let h = frames[i].height();
                        let cur = resolved[i];
                        resolved.set(i, cur.max(h));
                        i = i + 1;
                    }
                    while i < frames.len()
                        invariant
                            i <= frames@.len(),
                            frames@.len() == sl.len(),
                            target == merge_heights(prev, sl),
                            prev.len() <= resolved@.len(),
                            resolved@.len() == if i as int >= prev.len() {
                                i as int
                            } else {
                                prev.len() as int
                            },
                            forall|t: int|
                                0 <= t < frames@.len() ==> (#[trigger] frames@[t]).size.y@
                                    == sl[t],
                            forall|t: int|
                                0 <= t < i as int && t < target.len() ==> (
                                #[trigger] resolved@[t])@ == target[t],
                            forall|t: int|
                                i as int <= t < resolved@.len() ==> (#[trigger] resolved@[t])@
                                    == prev[t],
                        decreases frames@.len() - i,
                    {
                        if i < resolved.len() {
                            let h = frames[i].height();
                            let cur = resolved[i];
                            resolved.set(i, cur.max(h));
                        } else {
                            resolved.push(frames[i].height());
                        }
                        i = i + 1;
                    }
                    proof {
                        assert(crate::geom::abs_views(resolved@) =~= target);
                        assert(self.spec_cell(x as int, y as int) == Some(cell));
                    }
                },
                None => {},
            }
            x = x + 1;
        }

        let ghost hs = old(self).spec_auto_heights(y as int, nn);
        proof {
            assert(crate::geom::abs_views(resolved@) == hs);
            assert(resolved@.len() == hs.len());
        }

        // Nothing to lay out.
        if resolved.len() == 0 {
            return ;
        }

        // Lay out into a single region.
        if resolved.len() == 1 {
            let first = resolved[0];
            let frame = self.layout_single_row(first, y);
            self.push_row(frame, y);
            return ;
        }

        // Skip the first region if it stays empty for some cell.
        let ghost g0f: int = self.finished@.len() as int;
        let ghost g0r: int = self.rrows@.len() as int;
        let ghost l0 = self.lrows@;
        let ghost mut pre_n: int = 0;
        if skip && !self.regions.in_last() {
            self.finish_region();
            resolved.remove(0);
            proof {
                pre_n = 1;
            }
        }
        let ghost s1 = *self;

        // Expand all but the last region to its full remaining height, so
        // that middle slices fill their page. Skip the first region if its
        // space is already claimed by a fractional row.
        let mut anyfr = false;
        let mut k: usize = 0;
        while k < self.lrows.len()
            invariant
                k <= self.lrows@.len(),
                self.wf(),
                *self == s1,
            decreases self.lrows@.len() - k,
        {
            match &self.lrows[k] {
                Row::Fr(_, _) => {
                    anyfr = true;
                },
                Row::Frame(_, _) => {},
            }
            k = k + 1;
        }
        let len = resolved.len();
        let ghost lasth: int = resolved@[len as int - 1]@;
        proof {
            assert(lasth == hs.last());
        }
        let mut j: usize = if anyfr {
            1
        } else {
            0
        };
        let mut more = true;
        while more && j < len - 1
            invariant
                self.wf(),
                *self == s1,
                len == resolved@.len(),
                len >= 1,
                j <= len,
                resolved@[len as int - 1]@ == lasth,
            decreases len - j + if more {
                1int
            } else {
                0int
            },
        {
            let opt: Option<Abs> = if j == 0 {
                Some(self.regions.size.y)
            } else if j - 1 < self.regions.backlog.len() - self.regions.bidx {
                Some(self.regions.backlog[self.regions.bidx + (j - 1)])
            } else {
                match self.regions.last {
                    Some(h) => Some(h),
                    None => None,
                }
            };
            match opt {
                Some(h) => {
                    let cur = resolved[j];
                    resolved.set(j, cur.max(h));
                    j = j + 1;
                },
                None => {
                    more = false;
                },
            }
        }

        // Lay out into multiple regions.
        let mut fragment = self.layout_multi_row(&resolved, y);
        let ghost flen0: int = fragment@.len() as int;
        proof {
            assert(flen0 == hs.len() - pre_n);
        }
        while fragment.len() > 0
            invariant
                self.wf(),
                y < self.rows@.len(),
                self.cells == old(self).cells,
                self.is_rtl == old(self).is_rtl,
                self.has_gutter == old(self).has_gutter,
                self.cols == old(self).cols,
                self.rows == old(self).rows,
                self.rcols == old(self).rcols,
                self.width == old(self).width,
                self.regions.expand == old(self).regions.expand,
                self.finished@.len() - g0f == self.rrows@.len() - g0r,
                0 <= g0f <= self.finished@.len(),
                0 <= g0r <= self.rrows@.len(),
                fragment@.len() <= flen0,
                flen0 >= 1,
                pre_n == 0 || pre_n == 1,
                flen0 == hs.len() - pre_n,
                hs.len() >= 2,
                pre_n == 1 ==> s1.lrows@.len() == 0,
                pre_n == 0 ==> s1.lrows@ == l0,
                fragment@.len() > 0 ==> (#[trigger] fragment@[fragment@.len() - 1]).size.y@
                    == lasth && fragment@[fragment@.len() - 1].size.x == old(self).width,
                forall|t: int|
                    0 <= t < fragment@.len() ==> (#[trigger] fragment@[t]).size.x == old(self).width,
                fragment@.len() > 0 ==> self.finished@.len() == g0f + pre_n + (flen0
                    - fragment@.len()),
                fragment@.len() == 0 ==> self.finished@.len() == g0f + pre_n + flen0 - 1,
                fragment@.len() > 0 ==> ((fragment@.len() == flen0 && self.lrows@ == s1.lrows@)
                    || (fragment@.len() < flen0 && self.lrows@.len() == 0)),
                fragment@.len() == 0 ==> self.lrows@.len() == 1 && is_full_row(
                    self.lrows@[0],
                    lasth,
                    old(self).width,
                    y as int,
                ),
                self.rrows@.len() > g0r ==> self.rrows@[g0r].1@.len() == l0.len() + (
                if pre_n == 1 {
                    0int
                } else {
                    1int
                }),
            decreases fragment@.len(),
        {
            let ghost rr_pre = self.rrows@;
            let ghost lr_pre = self.lrows@;
            let ghost frag_pre = fragment@;
            let frame = fragment.remove(0);
            self.push_row(frame, y);
            if fragment.len() > 0 {
                proof {
                    if rr_pre.len() == g0r {
                        assert(pre_n == 0 && frag_pre.len() == flen0);
                        assert(lr_pre == l0);
                    }
                }
                self.finish_region();
                proof {
                    if rr_pre.len() > g0r {
                        assert(self.rrows@[g0r] == rr_pre[g0r]);
                    } else {
                        assert(self.rrows@[g0r].1@.len() == l0.len() + 1);
                    }
                }
            }
        }
    }

    /// Determine the column sizes and then lay out the grid row by row,
    /// finishing a region whenever the current one is full.
    pub fn layout(self) -> (r: GridLayout)
        requires
            self.wf(),
            forall|i: int| 0 <= i < self.rcols@.len() ==> (#[trigger] self.rcols@[i])@ == 0,
            self.lrows@.len() == 0,
            self.rrows@.len() == 0,
            self.finished@.len() == 0,
            !self.regions.expand.y,
        ensures
            r.cols@.len() == self.cols@.len(),
            forall|x: int|
                0 <= x < r.cols@.len() ==> (#[trigger] r.cols@[x])@ == self.spec_rcol(x),
            r.fragment.0@.len() == r.rows@.len(),
            r.fragment.0@.len() >= 1,
            self.rows@.len() == 0 ==> r.fragment.0@.len() == 1 && r.fragment.0@[0].items@.len()
                == 0 && r.rows@[0].1@.len() == 0 && (self.initial.y@ >= 0 ==> r.fragment.0@[
                0
            ].size.y@ == 0),
    {
        let mut this = self;
        this.measure_columns();
        let ghost rc = this.rcols@;
        let ghost w0 = this.width;

        let n = this.rows.len();
        let mut y: usize = 0;
        while y < n
            invariant
                y <= n,
                this.wf(),
                n == this.rows@.len(),
                this.rcols@ == rc,
                this.width == w0,
                this.cells == self.cells,
                this.is_rtl == self.is_rtl,
                this.has_gutter == self.has_gutter,
                this.cols == self.cols,
                this.rows@.len() == self.rows@.len(),
                this.finished@.len() == this.rrows@.len(),
                !this.regions.expand.y,
                n == 0 ==> this.lrows@.len() == 0 && this.rrows@.len() == 0
                    && this.finished@.len() == 0 && this.initial == self.initial,
            decreases n - y,
        {
            // Skip to the next region if the current one is full, but only
            // for content rows, not for gutter rows.
            if y % 2 == 0 && this.regions.is_full() {
                this.finish_region();
            }

            match this.rows[y] {
                Sizing::Auto => this.layout_auto_row(y),
                Sizing::Rel(v) => this.layout_relative_row(v, y),
                Sizing::Fr(v) => {
                    this.lrows.push(Row::Fr(v, y));
                    proof {
                        assert(this.wf());
                    }
                },
            }
            y = y + 1;
        }

        this.finish_region();

        GridLayout { fragment: Fragment::frames(this.finished), cols: this.rcols, rows: this.rrows }
    }

}

/// The resolved length of the relative column `i`, against the region
/// width.
pub open spec fn resolved_rel(g: GridLayouter, i: int) -> int {
    g.cols@[i]->Rel_0.spec_relative_to(g.regions.size.x@)
}

/// The plain, unsaturated sum of the resolved relative columns among the
/// first `n`.
pub open spec fn rel_plain_sum(g: GridLayouter, n: int) -> int
    decreases n,
{
    if n <= 0 {
        0
    } else {
        match g.cols@[n - 1] {
            Sizing::Rel(_) => rel_plain_sum(g, n - 1) + resolved_rel(g, n - 1),
            _ => rel_plain_sum(g, n - 1),
        }
    }
}

/// The plain, unsaturated sum of the fractional shares among the first `n`
/// columns.
pub open spec fn fr_plain_sum(g: GridLayouter, n: int) -> int
    decreases n,
{
    if n <= 0 {
        0
    } else {
        match g.cols@[n - 1] {
            Sizing::Fr(v) => fr_plain_sum(g, n - 1) + v@,
            _ => fr_plain_sum(g, n - 1),
        }
    }
}

/// The number of fractional columns among the first `n`.
pub open spec fn fr_count(g: GridLayouter, n: int) -> int
    decreases n,
{
    if n <= 0 {
        0
    } else {
        fr_count(g, n - 1) + if g.cols@[n - 1] is Fr {
            1int
        } else {
            0int
        }
    }
}

/// The plain sum of the resolved widths of the fractional columns among the
/// first `n`.
pub open spec fn fr_width_sum(g: GridLayouter, n: int) -> int
    decreases n,
{
    if n <= 0 {
        0
    } else {
        fr_width_sum(g, n - 1) + if g.cols@[n - 1] is Fr {
            g.spec_rcol(n - 1)
        } else {
            0int
        }
    }
}

/// Column width sum invariant: in a grid whose column tracks are all
/// relative, with nonnegative resolved lengths whose total fits the region
/// width, every column resolves to exactly its fixed length, and the
/// saturating sum the layouter computes equals their plain sum — there is
/// no drift.
pub proof fn lemma_fixed_column_widths(g: GridLayouter, bound: int, n: int)
    requires
        g.wf(),
        0 <= n <= g.cols@.len(),
        0 <= bound,
        g.cols@.len() * bound <= INF_RAW as int,
        -(INF_RAW as int) <= g.regions.size.x@ <= INF_RAW as int,
        forall|i: int| 0 <= i < g.cols@.len() ==> g.cols@[i] is Rel,
        forall|i: int| 0 <= i < g.cols@.len() ==> 0 <= #[trigger] resolved_rel(g, i) <= bound,
    ensures
        forall|i: int| 0 <= i < g.cols@.len() ==> g.spec_rcol(i) == resolved_rel(g, i),
        g.spec_rel_sum(n) == rel_plain_sum(g, n),
        0 <= rel_plain_sum(g, n) <= n * bound,
        crate::geom::clamped_sum(Seq::new(n as nat, |i: int| g.spec_rcol(i))) == rel_plain_sum(
            g,
            n,
        ),
    decreases n,
{
    assert forall|i: int| 0 <= i < g.cols@.len() implies g.spec_rcol(i) == resolved_rel(g, i) by {}
    if n > 0 {
        lemma_fixed_column_widths(g, bound, n - 1);
        assert((n - 1) * bound + bound == n * bound) by (nonlinear_arith);
        assert(0 <= n * bound <= INF_RAW as int) by (nonlinear_arith)
            requires
                0 <= n <= g.cols@.len(),
                0 <= bound,
                g.cols@.len() * bound <= INF_RAW as int,
        ;
        let s = Seq::new(n as nat, |i: int| g.spec_rcol(i));
        assert(s.drop_last() =~= Seq::new((n - 1) as nat, |i: int| g.spec_rcol(i)));
        assert(s[n - 1] == g.spec_rcol(n - 1));
    } else {
        assert(Seq::new(0nat, |i: int| g.spec_rcol(i)).len() == 0);
    }
}

/// Shrink monotonicity: when the automatic columns must be shrunk, no
/// column's final width exceeds the width it measured to before shrinking.
pub proof fn lemma_shrink_monotonic(g: GridLayouter, i: int)
    requires
        g.wf(),
        0 <= i < g.cols@.len(),
        g.cols@[i] is Auto,
        g.spec_available() >= 0,
    ensures
        g.spec_rcol(i) <= g.spec_measured(i, g.rows@.len() as int, g.spec_available()),
{
}

/// One fractional column's width is exactly its proportional part of the
/// leftover space, floored: `share / total * remaining`.
pub proof fn lemma_fractional_width(g: GridLayouter, i: int)
    requires
        g.wf(),
        0 <= i < g.cols@.len(),
        g.cols@[i] is Fr,
        g.spec_available() >= 0,
        g.spec_remaining(g.spec_available()) >= 0,
        g.spec_fr_sum(g.cols@.len() as int) > 0,
        g.spec_fr_sum(g.cols@.len() as int) == fr_plain_sum(g, g.cols@.len() as int),
        forall|j: int|
            0 <= j < g.cols@.len() && g.cols@[j] is Fr ==> 0 <= (#[trigger] g.cols@[j])->Fr_0@,
        g.cols@[i]->Fr_0@ <= g.spec_fr_sum(g.cols@.len() as int),
    ensures
        g.spec_rcol(i) == g.cols@[i]->Fr_0@ * g.spec_remaining(g.spec_available()) / g.spec_fr_sum(
            g.cols@.len() as int,
        ),
        0 <= g.spec_rcol(i) <= g.spec_remaining(g.spec_available()),
{
    let s = g.cols@[i]->Fr_0@;
    let total = g.spec_fr_sum(g.cols@.len() as int);
    let rem = g.spec_remaining(g.spec_available());
    vstd::arithmetic::div_mod::lemma_div_pos_is_pos(s * rem, total);
    assert(s * rem >= 0) by (nonlinear_arith)
        requires
            s >= 0,
            rem >= 0,
    ;
    assert(s * rem / total <= rem) by {
        vstd::arithmetic::div_mod::lemma_fundamental_div_mod(s * rem, total);
        assert(s * rem <= total * rem) by (nonlinear_arith)
            requires
                s <= total,
                rem >= 0,
        ;
        let q = s * rem / total;
        let r = s * rem % total;
        vstd::arithmetic::div_mod::lemma_mod_bound(s * rem, total);
        assert(total * q <= total * rem) by (nonlinear_arith)
            requires
                total * q + r == s * rem,
                s * rem <= total * rem,
                r >= 0,
        ;
        assert(q <= rem) by (nonlinear_arith)
            requires
                total * q <= total * rem,
                total > 0,
        ;
    }
    assert(rem <= INF_RAW as int);
    assert(clamped(s * rem / total) == s * rem / total);
}

/// Fractional distribution law: when `total` shares split a leftover of
/// `R`, the fractional column widths sum to `R` up to rounding — the sum is
/// at most `R` and misses it by less than one unit per fractional column.
pub proof fn lemma_fractional_sum(g: GridLayouter, n: int)
    requires
        g.wf(),
        0 <= n <= g.cols@.len(),
        g.spec_available() >= 0,
        g.spec_remaining(g.spec_available()) >= 0,
        g.spec_fr_sum(g.cols@.len() as int) > 0,
        g.spec_fr_sum(g.cols@.len() as int) == fr_plain_sum(g, g.cols@.len() as int),
        forall|j: int|
            0 <= j < g.cols@.len() && g.cols@[j] is Fr ==> 0 <= (#[trigger] g.cols@[j])->Fr_0@,
        forall|j: int|
            0 <= j < g.cols@.len() && g.cols@[j] is Fr ==> (#[trigger] g.cols@[j])->Fr_0@
                <= g.spec_fr_sum(g.cols@.len() as int),
    ensures
        ({
            let total = g.spec_fr_sum(g.cols@.len() as int);
            let rem = g.spec_remaining(g.spec_available());
            &&& total * fr_width_sum(g, n) <= fr_plain_sum(g, n) * rem
            &&& total * fr_width_sum(g, n) >= fr_plain_sum(g, n) * rem - fr_count(g, n) * total
            &&& fr_count(g, n) >= 0
            &&& fr_plain_sum(g, n) >= 0
        }),
    decreases n,
{
    let total = g.spec_fr_sum(g.cols@.len() as int);
    let rem = g.spec_remaining(g.spec_available());
    if n > 0 {
        lemma_fractional_sum(g, n - 1);
        if g.cols@[n - 1] is Fr {
            lemma_fractional_width(g, n - 1);
            let s = g.cols@[n - 1]->Fr_0@;
            let w = g.spec_rcol(n - 1);
            vstd::arithmetic::div_mod::lemma_fundamental_div_mod(s * rem, total);
            vstd::arithmetic::div_mod::lemma_mod_bound(s * rem, total);
            assert(w == s * rem / total);
            assert(total * w <= s * rem && total * w > s * rem - total) by (nonlinear_arith)
                requires
                    total * (s * rem / total) + (s * rem) % total == s * rem,
                    0 <= (s * rem) % total < total,
                    w == s * rem / total,
            ;
            assert(total * fr_width_sum(g, n) == total * fr_width_sum(g, n - 1) + total * w)
                by (nonlinear_arith)
                requires
                    fr_width_sum(g, n) == fr_width_sum(g, n - 1) + w,
            ;
            assert((fr_plain_sum(g, n - 1) + s) * rem == fr_plain_sum(g, n - 1) * rem + s * rem)
                by (nonlinear_arith);
            assert((fr_count(g, n - 1) + 1) * total == fr_count(g, n - 1) * total + total)
                by (nonlinear_arith);
        }
    }
}

/// Fractional distribution law, summed: when the fractional columns'
/// shares are all the shares there are, their widths sum to the leftover
/// space up to rounding — at most the leftover, and short of it by less
/// than one unit per fractional column.
pub proof fn lemma_fractional_sum_tight(g: GridLayouter)
    requires
        g.wf(),
        g.spec_available() >= 0,
        g.spec_remaining(g.spec_available()) >= 0,
        g.spec_fr_sum(g.cols@.len() as int) > 0,
        g.spec_fr_sum(g.cols@.len() as int) == fr_plain_sum(g, g.cols@.len() as int),
        forall|j: int|
            0 <= j < g.cols@.len() && g.cols@[j] is Fr ==> 0 <= (#[trigger] g.cols@[j])->Fr_0@,
        forall|j: int|
            0 <= j < g.cols@.len() && g.cols@[j] is Fr ==> (#[trigger] g.cols@[j])->Fr_0@
                <= g.spec_fr_sum(g.cols@.len() as int),
    ensures
        ({
            let rem = g.spec_remaining(g.spec_available());
            let n = g.cols@.len() as int;
            rem - fr_count(g, n) <= fr_width_sum(g, n) <= rem
        }),
{
    let n = g.cols@.len() as int;
    let total = g.spec_fr_sum(n);
    let rem = g.spec_remaining(g.spec_available());
    lemma_fractional_sum(g, n);
    assert(fr_plain_sum(g, n) * rem == total * rem);
    assert(fr_width_sum(g, n) <= rem) by (nonlinear_arith)
        requires
            total * fr_width_sum(g, n) <= total * rem,
            total > 0,
    ;
    assert(fr_width_sum(g, n) >= rem - fr_count(g, n)) by (nonlinear_arith)
        requires
            total * fr_width_sum(g, n) >= total * rem - fr_count(g, n) * total,
            total > 0,
    ;
}

/// The plain sum of the measured widths of the automatic columns among
/// the first `n` whose measure is at most `t`.
pub open spec fn sum_upto(g: GridLayouter, n: int, avail: int, t: int) -> int
    decreases n,
{
    if n <= 0 {
        0
    } else {
        let prev = sum_upto(g, n - 1, avail, t);
        match g.cols@[n - 1] {
            Sizing::Auto => {
                let m = g.spec_measured(n - 1, g.rows@.len() as int, avail);
                if m <= t {
                    prev + m
                } else {
                    prev
                }
            },
            _ => prev,
        }
    }
}

/// The plain sum of the measured widths of all automatic columns among the
/// first `n`.
pub open spec fn auto_plain_sum(g: GridLayouter, n: int, avail: int) -> int
    decreases n,
{
    if n <= 0 {
        0
    } else {
        let prev = auto_plain_sum(g, n - 1, avail);
        match g.cols@[n - 1] {
            Sizing::Auto => prev + g.spec_measured(n - 1, g.rows@.len() as int, avail),
            _ => prev,
        }
    }
}

/// The plain sum of the final automatic column widths among the first `n`
/// when every automatic column is capped at `f`.
pub open spec fn capped_auto_sum(g: GridLayouter, n: int, avail: int, f: int) -> int
    decreases n,
{
    if n <= 0 {
        0
    } else {
        let prev = capped_auto_sum(g, n - 1, avail, f);
        match g.cols@[n - 1] {
            Sizing::Auto => {
                let m = g.spec_measured(n - 1, g.rows@.len() as int, avail);
                prev + if m > f {
                    f
                } else {
                    m
                }
            },
            _ => prev,
        }
    }
}

/// The plain sum of the measured widths that one shrink pass with
/// thresholds `l < m <= f` takes out, among the first `n` columns.
pub open spec fn pass_psum(g: GridLayouter, n: int, avail: int, l: int, f: int) -> int
    decreases n,
{
    if n <= 0 {
        0
    } else {
        let prev = pass_psum(g, n - 1, avail, l, f);
        match g.cols@[n - 1] {
            Sizing::Auto => {
                let m = g.spec_measured(n - 1, g.rows@.len() as int, avail);
                if l < m && m <= f {
                    prev + m
                } else {
                    prev
                }
            },
            _ => prev,
        }
    }
}

impl GridLayouter {
    /// Below the lowest threshold no column counts into the bounded sum.
    proof fn lemma_sum_upto_nothing(self, n: int, avail: int)
        requires
            avail >= 0,
        ensures
            sum_upto(self, n, avail, -(INF_RAW as int)) == 0,
        decreases n,
    {
        if n > 0 {
            self.lemma_sum_upto_nothing(n - 1, avail);
            if self.cols@[n - 1] is Auto {
                self.lemma_measured_range(n - 1, self.rows@.len() as int, avail);
            }
        }
    }

    /// Every measured width lies between zero and the available width.
    proof fn lemma_measured_range(self, x: int, n: int, avail: int)
        requires
            avail >= 0,
        ensures
            0 <= self.spec_measured(x, n, avail) <= avail,
        decreases n,
    {
        if n > 0 {
            self.lemma_measured_range(x, n - 1, avail);
        }
    }

    /// Capping the automatic columns splits their sum into the ones below
    /// the cap and the cap once per column above it.
    proof fn lemma_capped_split(self, n: int, avail: int, f: int)
        ensures
            capped_auto_sum(self, n, avail, f) == sum_upto(self, n, avail, f)
                + self.spec_above(n, avail, f) * f,
        decreases n,
    {
        if n > 0 {
            self.lemma_capped_split(n - 1, avail, f);
            if self.cols@[n - 1] is Auto {
                let m = self.spec_measured(n - 1, self.rows@.len() as int, avail);
                if m > f {
                    assert((self.spec_above(n - 1, avail, f) + 1) * f == self.spec_above(
                        n - 1,
                        avail,
                        f,
                    ) * f + f) by (nonlinear_arith);
                }
            }
        }
    }

    /// The widths below a higher threshold are those below a lower one plus
    /// those a pass between the two takes out.
    proof fn lemma_sum_upto_partition(self, n: int, avail: int, l: int, f: int)
        requires
            l <= f,
        ensures
            sum_upto(self, n, avail, f) == sum_upto(self, n, avail, l) + pass_psum(
                self,
                n,
                avail,
                l,
                f,
            ),
        decreases n,
    {
        if n > 0 {
            self.lemma_sum_upto_partition(n - 1, avail, l, f);
        }
    }

    /// With no column above the threshold, the bounded sum is the full sum.
    proof fn lemma_sum_upto_all(self, n: int, avail: int, t: int)
        requires
            self.spec_above(n, avail, t) == 0,
        ensures
            sum_upto(self, n, avail, t) == auto_plain_sum(self, n, avail),
        decreases n,
    {
        if n > 0 {
            self.lemma_above_nonneg(n - 1, avail, t);
            self.lemma_sum_upto_all(n - 1, avail, t);
        }
    }

    /// The saturating sum of the measured automatic widths never exceeds
    /// their plain sum.
    pub proof fn lemma_auto_sum_le_plain(self, n: int, avail: int)
        requires
            avail >= 0,
        ensures
            self.spec_auto_sum(n, avail) <= auto_plain_sum(self, n, avail),
            0 <= auto_plain_sum(self, n, avail),
        decreases n,
    {
        if n > 0 {
            self.lemma_auto_sum_le_plain(n - 1, avail);
            if self.cols@[n - 1] is Auto {
                self.lemma_measured_range(n - 1, self.rows@.len() as int, avail);
            }
        }
    }

    /// No more columns exceed a threshold than there are automatic columns.
    proof fn lemma_above_le_count(self, n: int, avail: int, t: int)
        ensures
            self.spec_above(n, avail, t) <= self.spec_auto_count(n),
        decreases n,
    {
        if n > 0 {
            self.lemma_above_le_count(n - 1, avail, t);
        }
    }

    /// One shrink pass takes out exactly the widths between its thresholds,
    /// with no saturation, as long as what it takes out fits the budget.
    proof fn lemma_pass_redis_exact(self, n: int, avail: int, l: int, f: int, redis: int)
        requires
            avail >= 0,
            0 <= f,
            -(INF_RAW as int) <= redis <= INF_RAW as int,
            pass_psum(self, n, avail, l, f) <= redis + INF_RAW as int,
        ensures
            self.spec_pass_redis(n, avail, l, f, redis) == redis - pass_psum(
                self,
                n,
                avail,
                l,
                f,
            ),
            0 <= pass_psum(self, n, avail, l, f),
        decreases n,
    {
        if n > 0 {
            if self.cols@[n - 1] is Auto {
                self.lemma_measured_range(n - 1, self.rows@.len() as int, avail);
            }
            self.lemma_pass_redis_exact(n - 1, avail, l, f, redis);
        }
    }

    /// The widths a pass takes out are at most the pass count times the cap.
    proof fn lemma_pass_psum_bound(self, n: int, avail: int, l: int, f: int)
        requires
            avail >= 0,
            0 <= f,
        ensures
            0 <= pass_psum(self, n, avail, l, f) <= self.spec_pass_cnt(n, avail, l, f) * f,
        decreases n,
    {
        if n > 0 {
            self.lemma_pass_psum_bound(n - 1, avail, l, f);
            self.lemma_pass_cnt_le_above(n - 1, avail, l, f);
            if self.cols@[n - 1] is Auto {
                let m = self.spec_measured(n - 1, self.rows@.len() as int, avail);
                self.lemma_measured_range(n - 1, self.rows@.len() as int, avail);
                if l < m && m <= f {
                    assert((self.spec_pass_cnt(n - 1, avail, l, f) + 1) * f
                        == self.spec_pass_cnt(n - 1, avail, l, f) * f + f) by (nonlinear_arith);
                }
            }
        }
    }

    /// The heart of the shrink sum law: under the water-filling invariant,
    /// the capped widths sum to the available width up to less than one
    /// unit per overlarge column.
    proof fn lemma_fair_sum(self, avail: int, redis: int, lastv: int)
        requires
            self.wf(),
            0 <= avail <= INF_RAW as int,
            0 <= redis <= avail,
            redis == avail - sum_upto(self, self.cols@.len() as int, avail, lastv),
            auto_plain_sum(self, self.cols@.len() as int, avail) > avail,
            self.spec_above(self.cols@.len() as int, avail, lastv) * lastv <= redis,
        ensures
            ({
                let n = self.cols@.len() as int;
                let f = self.spec_fair(avail, redis, lastv);
                avail - self.spec_above(n, avail, lastv) < capped_auto_sum(self, n, avail, f)
                    <= avail
            }),
        decreases self.spec_above(self.cols@.len() as int, avail, lastv),
    {
        let n = self.cols@.len() as int;
        let over = self.spec_above(n, avail, lastv);
        self.lemma_above_nonneg(n, avail, lastv);
        if over == 0 {
            self.lemma_sum_upto_all(n, avail, lastv);
            assert(false);
        } else {
            vstd::arithmetic::div_mod::lemma_div_pos_is_pos(redis, over);
            vstd::arithmetic::div_mod::lemma_div_is_ordered_by_denominator(redis, 1, over);
            vstd::arithmetic::div_mod::lemma_fundamental_div_mod_converse(redis, 1, redis, 0);
            let fair = clamped(redis / over);
            assert(fair == redis / over);
            assert(lastv <= fair) by {
                if lastv > fair {
                    vstd::arithmetic::div_mod::lemma_fundamental_div_mod(redis, over);
                    vstd::arithmetic::div_mod::lemma_mod_bound(redis, over);
                    assert(redis < over * lastv) by (nonlinear_arith)
                        requires
                            redis == over * (redis / over) + redis % over,
                            0 <= redis % over < over,
                            redis / over < lastv,
                            over > 0,
                    ;
                }
            }
            let cnt = self.spec_pass_cnt(n, avail, lastv, fair);
            self.lemma_pass_cnt_le_above(n, avail, lastv, fair);
            self.lemma_above_partition(n, avail, lastv, fair);
            self.lemma_sum_upto_partition(n, avail, lastv, fair);
            self.lemma_pass_psum_bound(n, avail, lastv, fair);
            vstd::arithmetic::div_mod::lemma_fundamental_div_mod(redis, over);
            vstd::arithmetic::div_mod::lemma_mod_bound(redis, over);
            if cnt <= 0 {
                // The pass removes nothing: the cap settles at `fair`.
                self.lemma_capped_split(n, avail, fair);
                assert(pass_psum(self, n, avail, lastv, fair) == 0) by {
                    assert(0 <= pass_psum(self, n, avail, lastv, fair) <= cnt * fair);
                    assert(cnt * fair <= 0) by (nonlinear_arith)
                        requires
                            cnt <= 0,
                            0 <= fair,
                            0 <= cnt * fair,
                    ;
                }
                assert(self.spec_above(n, avail, fair) == over);
                assert(sum_upto(self, n, avail, fair) == avail - redis);
                assert(over * fair <= redis && over * fair > redis - over) by (nonlinear_arith)
                    requires
                        redis == over * (redis / over) + redis % over,
                        0 <= redis % over < over,
                        fair == redis / over,
                ;
                assert(capped_auto_sum(self, n, avail, fair) == avail - redis + over * fair);
            } else {
                // The pass removes `cnt` columns; recurse on the rest.
                let psum = pass_psum(self, n, avail, lastv, fair);
                let redis2 = self.spec_pass_redis(n, avail, lastv, fair, redis);
                assert(cnt * fair <= over * fair) by (nonlinear_arith)
                    requires
                        cnt <= over,
                        0 <= fair,
                ;
                assert(over * fair <= redis) by (nonlinear_arith)
                    requires
                        redis == over * (redis / over) + redis % over,
                        0 <= redis % over,
                        fair == redis / over,
                ;
                self.lemma_pass_redis_exact(n, avail, lastv, fair, redis);
                assert(redis2 == redis - psum);
                assert(0 <= redis2) by {
                    assert(psum <= cnt * fair);
                }
                assert(redis2 == avail - sum_upto(self, n, avail, fair));
                assert(self.spec_above(n, avail, fair) == over - cnt);
                assert(self.spec_above(n, avail, fair) * fair <= redis2) by (nonlinear_arith)
                    requires
                        self.spec_above(n, avail, fair) == over - cnt,
                        psum <= cnt * fair,
                        over * fair <= redis,
                        redis2 == redis - psum,
                ;
                self.lemma_fair_sum(avail, redis2, fair);
                assert(self.spec_fair(avail, redis, lastv) == self.spec_fair(avail, redis2, fair));
                assert(avail - self.spec_above(n, avail, fair) < capped_auto_sum(
                    self,
                    n,
                    avail,
                    self.spec_fair(avail, redis2, fair),
                ));
                assert(self.spec_above(n, avail, fair) <= over);
            }
        }
    }

    /// The sum of the automatic columns' resolved widths, among the first
    /// `n` columns.
    pub open spec fn auto_width_sum(self, n: int) -> int
        decreases n,
    {
        if n <= 0 {
            0
        } else {
            self.auto_width_sum(n - 1) + if self.cols@[n - 1] is Auto {
                self.spec_rcol(n - 1)
            } else {
                0int
            }
        }
    }

    /// In the shrink branch, the resolved automatic widths are exactly the
    /// capped measured widths.
    proof fn lemma_auto_widths_are_capped(self, n: int)
        requires
            n <= self.cols@.len(),
            self.spec_available() >= 0,
            self.spec_remaining(self.spec_available()) < 0,
        ensures
            self.auto_width_sum(n) == capped_auto_sum(
                self,
                n,
                self.spec_available(),
                self.spec_fair_final(self.spec_available()),
            ),
        decreases n,
    {
        if n > 0 {
            self.lemma_auto_widths_are_capped(n - 1);
        }
    }
}

/// Shrink sum law: when the automatic columns must be shrunk, their final
/// widths sum to the available width up to rounding — at most the
/// available width, and short of it by less than one unit per automatic
/// column. Together with `lemma_shrink_monotonic`, no column grows and the
/// space is used.
pub proof fn lemma_shrink_sum(g: GridLayouter)
    requires
        g.wf(),
        g.spec_available() >= 0,
        g.spec_remaining(g.spec_available()) < 0,
    ensures
        ({
            let n = g.cols@.len() as int;
            let avail = g.spec_available();
            avail - g.spec_auto_count(n) < g.auto_width_sum(n) <= avail
        }),
{
    let n = g.cols@.len() as int;
    let avail = g.spec_available();
    let neg = -(INF_RAW as int);
    assert(clamped(avail - g.spec_auto_sum(n, avail)) < 0);
    g.lemma_auto_sum_le_plain(n, avail);
    assert(auto_plain_sum(g, n, avail) > avail);
    assert(sum_upto(g, n, avail, neg) == 0) by {
        g.lemma_sum_upto_nothing(n, avail);
    }
    g.lemma_above_all(n, avail);
    g.lemma_above_nonneg(n, avail, neg);
    assert(g.spec_above(n, avail, neg) * neg <= 0) by (nonlinear_arith)
        requires
            g.spec_above(n, avail, neg) >= 0,
            neg < 0,
    ;
    g.lemma_fair_sum(avail, avail, neg);
    g.lemma_auto_widths_are_capped(n);
    g.lemma_above_le_count(n, avail, neg);
}

/// Pagination idempotence: the slices a block of content falls into across
/// any sequence of regions sum exactly to the block's height, so stacking
/// the slices reproduces the height the block has in one sufficiently tall
/// region.
pub proof fn lemma_pagination_total(c: Content, pod: Regions)
    requires
        pod.wf(),
    ensures
        crate::regions::seq_sum(crate::regions::split_heights(c.height@, pod)) == c.height@,
{
    crate::regions::lemma_split_heights_total(c.height@, pod);
}

/// Whether two layouter states have columns the width model cannot tell
/// apart: the same column tracks, the same number of rows, the same region
/// width, and the same cell in every slot.
pub open spec fn model_agrees(g1: GridLayouter, g2: GridLayouter) -> bool {
    &&& g1.cols@ == g2.cols@
    &&& g1.rows@.len() == g2.rows@.len()
    &&& g1.regions.size.x == g2.regions.size.x
    &&& forall|x: int, y: int|
        0 <= x < g1.cols@.len() ==> #[trigger] g1.spec_cell(x, y) == g2.spec_cell(x, y)
}

/// Two indistinguishable grids resolve the same relative sums.
proof fn lemma_congr_rel_sum(g1: GridLayouter, g2: GridLayouter, n: int)
    requires
        model_agrees(g1, g2),
    ensures
        g1.spec_rel_sum(n) == g2.spec_rel_sum(n),
        g1.spec_fr_sum(n) == g2.spec_fr_sum(n),
        g1.spec_auto_count(n) == g2.spec_auto_count(n),
    decreases n,
{
    if n > 0 {
        lemma_congr_rel_sum(g1, g2, n - 1);
    }
}

/// Two indistinguishable grids measure each column to the same width.
proof fn lemma_congr_measured(g1: GridLayouter, g2: GridLayouter, x: int, n: int, avail: int)
    requires
        model_agrees(g1, g2),
        0 <= x < g1.cols@.len(),
    ensures
        g1.spec_measured(x, n, avail) == g2.spec_measured(x, n, avail),
    decreases n,
{
    if n > 0 {
        lemma_congr_measured(g1, g2, x, n - 1, avail);
    }
}

/// Two indistinguishable grids agree on every aggregate of the measured
/// automatic columns.
proof fn lemma_congr_auto(g1: GridLayouter, g2: GridLayouter, n: int, avail: int, lastv: int, fairv: int, redis: int)
    requires
        model_agrees(g1, g2),
        n <= g1.cols@.len(),
    ensures
        g1.spec_auto_sum(n, avail) == g2.spec_auto_sum(n, avail),
        g1.spec_above(n, avail, lastv) == g2.spec_above(n, avail, lastv),
        g1.spec_pass_cnt(n, avail, lastv, fairv) == g2.spec_pass_cnt(n, avail, lastv, fairv),
        g1.spec_pass_redis(n, avail, lastv, fairv, redis) == g2.spec_pass_redis(
            n,
            avail,
            lastv,
            fairv,
            redis,
        ),
    decreases n,
{
    if n > 0 {
        lemma_congr_auto(g1, g2, n - 1, avail, lastv, fairv, redis);
        lemma_congr_measured(g1, g2, n - 1, g1.rows@.len() as int, avail);
    }
}

/// Two indistinguishable grids converge to the same fair share.
proof fn lemma_congr_fair(g1: GridLayouter, g2: GridLayouter, avail: int, redis: int, lastv: int)
    requires
        model_agrees(g1, g2),
    ensures
        g1.spec_fair(avail, redis, lastv) == g2.spec_fair(avail, redis, lastv),
    decreases g1.spec_above(g1.cols@.len() as int, avail, lastv),
{
    let n = g1.cols@.len() as int;
    g1.lemma_above_nonneg(n, avail, lastv);
    g2.lemma_above_nonneg(n, avail, lastv);
    lemma_congr_auto(g1, g2, n, avail, lastv, 0, 0);
    let over = g1.spec_above(n, avail, lastv);
    if over > 0 {
        let fair = clamped(redis / over);
        lemma_congr_auto(g1, g2, n, avail, lastv, fair, redis);
        let cnt = g1.spec_pass_cnt(n, avail, lastv, fair);
        if cnt > 0 {
            g1.lemma_pass_nonempty_widens(n, avail, lastv, fair);
            g1.lemma_above_partition(n, avail, lastv, fair);
            g1.lemma_above_nonneg(n, avail, fair);
            g2.lemma_above_nonneg(n, avail, fair);
            g1.lemma_pass_cnt_le_above(n, avail, lastv, fair);
            lemma_congr_fair(g1, g2, avail, g1.spec_pass_redis(n, avail, lastv, fair, redis), fair);
        }
    }
}

/// Two indistinguishable grids resolve every column to the same width.
pub proof fn lemma_congr_rcol(g1: GridLayouter, g2: GridLayouter, i: int)
    requires
        model_agrees(g1, g2),
        0 <= i < g1.cols@.len(),
    ensures
        g1.spec_rcol(i) == g2.spec_rcol(i),
{
    let n = g1.cols@.len() as int;
    lemma_congr_rel_sum(g1, g2, n);
    lemma_congr_auto(g1, g2, n, g1.spec_available(), 0, 0, 0);
    if g1.cols@[i] is Auto {
        lemma_congr_measured(g1, g2, i, g1.rows@.len() as int, g1.spec_available());
        lemma_congr_fair(
            g1,
            g2,
            g1.spec_available(),
            g1.spec_available(),
            -(INF_RAW as int),
        );
    }
}

/// The slot that a cell lands in when every row of `cc` content columns is
/// reversed: same row, mirrored column.
pub open spec fn mirror_index(i: int, cc: int) -> int {
    (i / cc) * cc + (cc - 1 - i % cc)
}

/// Right-to-left symmetry: a grid laid out right-to-left and its mirror —
/// the grid with reversed column tracks and every row's cells in reverse
/// order — laid out left-to-right resolve identical column widths, column
/// for column in visual order. Stated for cell lists that fill whole rows.
pub proof fn lemma_rtl_symmetry(g1: GridLayouter, g2: GridLayouter)
    requires
        g1.wf(),
        g2.wf(),
        !g1.is_rtl,
        g2.is_rtl,
        g1.has_gutter == g2.has_gutter,
        g1.has_gutter ==> g1.cols@.len() % 2 == 1,
        g1.cols@ == g2.cols@,
        g1.rows@.len() == g2.rows@.len(),
        g1.regions.size.x == g2.regions.size.x,
        g1.cells@.len() == g2.cells@.len(),
        ({
            let cc = if g1.has_gutter {
                (g1.cols@.len() as int + 1) / 2
            } else {
                g1.cols@.len() as int
            };
            &&& g1.cells@.len() as int % cc == 0
            &&& forall|i: int|
                0 <= i < g1.cells@.len() ==> #[trigger] g1.cells@[i] == g2.cells@[mirror_index(
                    i,
                    cc,
                )]
        }),
    ensures
        forall|i: int| 0 <= i < g1.cols@.len() ==> g1.spec_rcol(i) == g2.spec_rcol(i),
{
    let c = g1.cols@.len() as int;
    let cc = if g1.has_gutter {
        (c + 1) / 2
    } else {
        c
    };
    let len = g1.cells@.len() as int;
    let rows = len / cc;
    assert(cc >= 1);
    vstd::arithmetic::div_mod::lemma_fundamental_div_mod(len, cc);
    assert(len == rows * cc);

    assert forall|x: int, y: int| 0 <= x < c implies #[trigger] g1.spec_cell(x, y)
        == g2.spec_cell(x, y) by {
        let xx = c - 1 - x;
        if g1.has_gutter {
            assert(c == 2 * cc - 1);
            if x % 2 == 0 && y % 2 == 0 {
                vstd::arithmetic::div_mod::lemma_fundamental_div_mod(x, 2);
                vstd::arithmetic::div_mod::lemma_fundamental_div_mod(y, 2);
                let k = x / 2;
                let r = y / 2;
                assert(xx == 2 * (cc - 1 - k));
                assert(xx / 2 == cc - 1 - k && xx % 2 == 0) by (nonlinear_arith)
                    requires
                        xx == 2 * (cc - 1 - k),
                        0 <= cc - 1 - k,
                ;
                let i1 = r * cc + k;
                let i2 = r * cc + (cc - 1 - k);
                if y >= 0 {
                    assert(0 <= i1 < len <==> 0 <= r < rows) by (nonlinear_arith)
                        requires
                            len == rows * cc,
                            0 <= k < cc,
                            0 <= r,
                            i1 == r * cc + k,
                    ;
                    assert(0 <= i2 < len <==> 0 <= r < rows) by (nonlinear_arith)
                        requires
                            len == rows * cc,
                            0 <= cc - 1 - k < cc,
                            0 <= r,
                            i2 == r * cc + (cc - 1 - k),
                    ;
                    if 0 <= i1 < len {
                        vstd::arithmetic::div_mod::lemma_fundamental_div_mod_converse(
                            i1,
                            cc,
                            r,
                            k,
                        );
                        assert(mirror_index(i1, cc) == i2);
                        assert(g1.cells@[i1] == g2.cells@[i2]);
                    }
                } else {
                    assert(r <= -1);
                    assert(i1 < 0 && i2 < 0) by (nonlinear_arith)
                        requires
                            r <= -1,
                            cc >= 1,
                            0 <= k < cc,
                            0 <= cc - 1 - k < cc,
                            i1 == r * cc + k,
                            i2 == r * cc + (cc - 1 - k),
                    ;
                }
            } else {
                if x % 2 != 0 {
                    assert(xx % 2 != 0) by (nonlinear_arith)
                        requires
                            xx == c - 1 - x,
                            c == 2 * cc - 1,
                            x % 2 == 1,
                    ;
                }
            }
        } else {
            let i1 = y * c + x;
            let i2 = y * c + (c - 1 - x);
            assert(0 <= i1 < len <==> 0 <= y < rows) by (nonlinear_arith)
                requires
                    len == rows * c,
                    0 <= x < c,
                    i1 == y * c + x,
            ;
            assert(0 <= i2 < len <==> 0 <= y < rows) by (nonlinear_arith)
                requires
                    len == rows * c,
                    0 <= c - 1 - x < c,
                    i2 == y * c + (c - 1 - x),
            ;
            if 0 <= y < rows {
                vstd::arithmetic::div_mod::lemma_fundamental_div_mod_converse(i1, c, y, x);
                assert(mirror_index(i1, c) == i2);
                assert(g1.cells@[i1] == g2.cells@[i2]);
            }
        }
    }
    assert(model_agrees(g1, g2));
    assert forall|i: int| 0 <= i < g1.cols@.len() implies g1.spec_rcol(i) == g2.spec_rcol(i) by {
        lemma_congr_rcol(g1, g2, i);
    }
}

/// Copy a list of lengths.
fn clone_abs(v: &Vec<Abs>) -> (r: Vec<Abs>)
    ensures
        r@ == v@,
{
    let mut r: Vec<Abs> = Vec::new();
    let mut i: usize = 0;
    while i < v.len()
        invariant
            i <= v@.len(),
            r@ =~= v@.take(i as int),
        decreases v@.len() - i,
    {
        r.push(v[i]);
        i = i + 1;
    }
    proof {
        assert(r@ =~= v@);
    }
    r
}

/// Place a frame as a group item into the output frame at the given index.
fn frame_push_at(outputs: &mut Vec<Frame>, i: usize, pos: Point, frame: Frame)
    requires
        i < old(outputs)@.len(),
    ensures
        final(outputs)@.len() == old(outputs)@.len(),
        final(outputs)@[i as int].size == old(outputs)@[i as int].size,
        final(outputs)@[i as int].items@ == old(outputs)@[i as int].items@.push(
            crate::frame::Element { pos, item: crate::frame::FrameItem::Group(frame) },
        ),
        forall|j: int|
            0 <= j < final(outputs)@.len() && j != i as int ==> #[trigger] final(outputs)@[j]
                == old(outputs)@[j],
{
    let mut tmp = Frame::new(Size::zero());
    outputs.set_and_swap(i, &mut tmp);
    tmp.push_frame(pos, frame);
    outputs.set_and_swap(i, &mut tmp);
}

impl GridNode {
    /// Lay out the grid: unify the content and gutter tracks, measure the
    /// columns and lay the rows into the regions.
    pub fn layout(self, regions: Regions, styles: Style) -> (r: GridLayout)
        requires
            self.tracks.x@.len() <= MAX_TRACKS,
            self.tracks.y@.len() <= MAX_TRACKS,
            self.gutter.x@.len() <= MAX_TRACKS,
            self.gutter.y@.len() <= MAX_TRACKS,
            self.cells@.len() <= MAX_CELLS,
            regions.wf(),
        ensures
            exists|g: GridLayouter|
                #[trigger] prepared(g, self.tracks, self.gutter, self.cells, regions, styles)
                    && r.cols@.len() == g.cols@.len() && (forall|x: int|
                    0 <= x < r.cols@.len() ==> (#[trigger] r.cols@[x])@ == g.spec_rcol(x)) && (
                g.rows@.len() == 0 ==> r.fragment.0@.len() == 1 && r.fragment.0@[0].items@.len()
                    == 0 && r.rows@[0].1@.len() == 0),
            r.fragment.0@.len() == r.rows@.len(),
            r.fragment.0@.len() >= 1,
    {
        let layouter = GridLayouter::new(self.tracks, self.gutter, self.cells, regions, styles);
        let ghost g = layouter;
        let r = layouter.layout();
        proof {
            assert(prepared(g, self.tracks, self.gutter, self.cells, regions, styles)
                && r.cols@.len() == g.cols@.len() && (forall|x: int|
                0 <= x < r.cols@.len() ==> (#[trigger] r.cols@[x])@ == g.spec_rcol(x)) && (
            g.rows@.len() == 0 ==> r.fragment.0@.len() == 1 && r.fragment.0@[0].items@.len() == 0
                && r.rows@[0].1@.len() == 0));
        }
        r
    }
}

/// The track at an index, or the last given one, or the default.
fn get_or(tracks: &Vec<Sizing>, idx: usize, default: Sizing) -> (r: Sizing)
    ensures
        r == spec_get_or(tracks@, idx as int, default),
{
    if idx < tracks.len() {
        tracks[idx]
    } else if tracks.len() > 0 {
        tracks[tracks.len() - 1]
    } else {
        default
    }
}

/// Reverse a track list.
fn reverse_tracks(v: Vec<Sizing>) -> (r: Vec<Sizing>)
    ensures
        r@ == v@.reverse(),
{
    let n = v.len();
    let mut r: Vec<Sizing> = Vec::new();
    let mut i: usize = 0;
    while i < n
        invariant
            i <= n,
            n == v@.len(),
            r@.len() == i as int,
            forall|j: int| 0 <= j < i as int ==> #[trigger] r@[j] == v@[n - 1 - j],
        decreases n - i,
    {
        r.push(v[n - 1 - i]);
        i = i + 1;
    }
    proof {
        assert(r@ =~= v@.reverse());
    }
    r
}

} // verus!

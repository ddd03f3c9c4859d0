//! Tests for the grid layouter: column resolution, row pagination and the
//! documented boundary cases.

use typst::container::Sizing;
use typst::content::Content;
use typst::frame::FrameItem;
use typst::geom::{Abs, Axes, Dir, Fr, Rel, Size};
use typst::grid::{GridLayouter, GridNode};
use typst::regions::Regions;
use typst::style::Style;

fn pt(v: i64) -> Abs {
    Abs::pt(v)
}

fn fixed(v: i64) -> Sizing {
    Sizing::Rel(Rel::from_abs(pt(v)))
}

fn single_region(width: i64, height: i64) -> Regions {
    Regions::new(
        Size::new(pt(width), pt(height)),
        Vec::new(),
        None,
        Axes::new(false, false),
    )
}

fn ltr(width: i64, height: i64) -> Style {
    Style::new(Dir::LTR, Size::new(pt(width), pt(height)))
}

fn cell(w: i64, h: i64) -> Content {
    Content::new(pt(w), pt(h))
}

fn widths(cols: &[Abs]) -> Vec<i64> {
    cols.iter().map(|c| c.to_raw()).collect()
}

#[test]
fn fixed_middle_fractional() {
    // Columns 60pt, 1fr, 60pt in a 200pt wide region: the fractional
    // column gets the 80pt that remain.
    let tracks = Axes::new(
        vec![fixed(60), Sizing::Fr(Fr::new(1)), fixed(60)],
        vec![Sizing::Auto],
    );
    let gutter = Axes::new(Vec::new(), Vec::new());
    let cells = vec![cell(10, 10), cell(10, 10), cell(10, 10)];
    let layouter = GridLayouter::new(tracks, gutter, cells, single_region(200, 500), ltr(200, 500));
    let layout = layouter.layout();
    assert_eq!(widths(&layout.cols), vec![60, 80, 60]);
}

#[test]
fn fractional_distribution_proportional() {
    // Shares 1, 3 over a leftover of 120: widths 30 and 90, summing to
    // exactly the leftover.
    let tracks = Axes::new(
        vec![fixed(80), Sizing::Fr(Fr::new(1)), Sizing::Fr(Fr::new(3))],
        vec![Sizing::Auto],
    );
    let gutter = Axes::new(Vec::new(), Vec::new());
    let cells = vec![cell(10, 10), cell(10, 10), cell(10, 10)];
    let layouter = GridLayouter::new(tracks, gutter, cells, single_region(200, 500), ltr(200, 500));
    let layout = layouter.layout();
    assert_eq!(widths(&layout.cols), vec![80, 30, 90]);
}

#[test]
fn fixed_columns_sum_exact() {
    // All-fixed tracks whose total fits: every column is exactly its
    // length, with no drift.
    let tracks = Axes::new(vec![fixed(50), fixed(60), fixed(40)], vec![Sizing::Auto]);
    let gutter = Axes::new(Vec::new(), Vec::new());
    let cells = vec![cell(10, 10), cell(10, 10), cell(10, 10)];
    let layouter = GridLayouter::new(tracks, gutter, cells, single_region(200, 500), ltr(200, 500));
    let layout = layouter.layout();
    assert_eq!(widths(&layout.cols), vec![50, 60, 40]);
    assert_eq!(layout.cols.iter().map(|c| c.to_raw()).sum::<i64>(), 150);
}

#[test]
fn shrink_fair_cap() {
    // Natural widths 40, 10, 40 against 80pt: the narrow column keeps its
    // width, the overlarge ones are capped at the fair share of 35pt.
    let tracks = Axes::new(
        vec![Sizing::Auto, Sizing::Auto, Sizing::Auto],
        vec![Sizing::Auto],
    );
    let gutter = Axes::new(Vec::new(), Vec::new());
    let cells = vec![cell(40, 10), cell(10, 10), cell(40, 10)];
    let layouter = GridLayouter::new(tracks, gutter, cells, single_region(80, 500), ltr(80, 500));
    let layout = layouter.layout();
    assert_eq!(widths(&layout.cols), vec![35, 10, 35]);
}

#[test]
fn shrink_many_equal_columns_terminates() {
    // A pathological input: many automatic columns of equal natural width
    // still converge to the fair cap.
    let n = 64;
    let tracks = Axes::new(vec![Sizing::Auto; n], vec![Sizing::Auto]);
    let gutter = Axes::new(Vec::new(), Vec::new());
    let cells = (0..n).map(|_| cell(10, 5)).collect::<Vec<_>>();
    let layouter = GridLayouter::new(tracks, gutter, cells, single_region(320, 500), ltr(320, 500));
    let layout = layouter.layout();
    for w in widths(&layout.cols) {
        assert_eq!(w, 5);
    }
}

#[test]
fn empty_grid_single_empty_frame() {
    // No cells, two columns, no given rows: a single empty frame of zero
    // content height, and no failure.
    let tracks = Axes::new(vec![Sizing::Auto, Sizing::Auto], Vec::new());
    let gutter = Axes::new(Vec::new(), Vec::new());
    let layouter = GridLayouter::new(
        tracks,
        gutter,
        Vec::new(),
        single_region(200, 500),
        ltr(200, 500),
    );
    let layout = layouter.layout();
    assert_eq!(layout.fragment.len(), 1);
    let frames = layout.fragment.into_frames();
    assert_eq!(frames[0].height().to_raw(), 0);
    assert!(frames[0].is_empty());
    assert_eq!(layout.rows.len(), 1);
    assert_eq!(layout.rows[0].1.len(), 0);
}

#[test]
fn fixed_row_never_splits() {
    // A 80pt fixed row into regions of 50pt and 100pt: the first region is
    // finished empty and the row lands wholesale in the second.
    let tracks = Axes::new(vec![Sizing::Auto], vec![fixed(80)]);
    let gutter = Axes::new(Vec::new(), Vec::new());
    let cells = vec![cell(10, 10)];
    let regions = Regions::new(
        Size::new(pt(200), pt(50)),
        vec![pt(100)],
        None,
        Axes::new(false, false),
    );
    let layouter = GridLayouter::new(tracks, gutter, cells, regions, ltr(200, 50));
    let layout = layouter.layout();
    assert_eq!(layout.fragment.len(), 2);
    assert_eq!(layout.rows[0].1.len(), 0);
    assert_eq!(layout.rows[1].1.len(), 1);
    assert_eq!(layout.rows[1].1[0].to_raw(), 80);
}

#[test]
fn auto_row_splits_across_regions() {
    // A 250pt tall cell across three 100pt regions: slices of 100, 100 and
    // 50pt whose heights sum back to the content height.
    let tracks = Axes::new(vec![Sizing::Auto], vec![Sizing::Auto]);
    let gutter = Axes::new(Vec::new(), Vec::new());
    let cells = vec![cell(50, 250)];
    let regions = Regions::new(
        Size::new(pt(80), pt(100)),
        vec![pt(100), pt(100)],
        None,
        Axes::new(false, false),
    );
    let layouter = GridLayouter::new(tracks, gutter, cells, regions, ltr(80, 100));
    let layout = layouter.layout();
    assert_eq!(layout.fragment.len(), 3);
    let heights: Vec<i64> = layout.rows.iter().flat_map(|r| r.1.iter().map(|h| h.to_raw())).collect();
    assert_eq!(heights, vec![100, 100, 50]);
    assert_eq!(heights.iter().sum::<i64>(), 250);
}

#[test]
fn pagination_matches_single_tall_region() {
    // The same content in one sufficiently tall region keeps its full
    // height in a single frame.
    let tracks = Axes::new(vec![Sizing::Auto], vec![Sizing::Auto]);
    let gutter = Axes::new(Vec::new(), Vec::new());
    let cells = vec![cell(50, 250)];
    let layouter = GridLayouter::new(tracks, gutter, cells, single_region(80, 10000), ltr(80, 10000));
    let layout = layouter.layout();
    assert_eq!(layout.fragment.len(), 1);
    assert_eq!(layout.rows[0].1[0].to_raw(), 250);
}

#[test]
fn fractional_row_takes_leftover() {
    // A 30pt row followed by a fractional row in a 100pt region: the
    // fractional row resolves to the 70pt that remain and the region frame
    // expands to the full height.
    let tracks = Axes::new(vec![Sizing::Auto], vec![fixed(30), Sizing::Fr(Fr::new(1))]);
    let gutter = Axes::new(Vec::new(), Vec::new());
    let cells = vec![cell(10, 10), cell(10, 10)];
    let layouter = GridLayouter::new(tracks, gutter, cells, single_region(200, 100), ltr(200, 100));
    let layout = layouter.layout();
    assert_eq!(layout.fragment.len(), 1);
    assert_eq!(
        layout.rows[0].1.iter().map(|h| h.to_raw()).collect::<Vec<_>>(),
        vec![30, 70],
    );
    let frames = layout.fragment.into_frames();
    assert_eq!(frames[0].height().to_raw(), 100);
}

#[test]
fn rtl_mirror_same_widths() {
    // A grid laid out right-to-left and its mirror laid out left-to-right
    // resolve identical column widths.
    let gutter = Axes::new(Vec::new(), Vec::new());

    // Original: columns fixed 60pt then auto; cells 30pt and 50pt wide.
    let rtl_tracks = Axes::new(vec![fixed(60), Sizing::Auto], vec![Sizing::Auto]);
    let rtl_cells = vec![cell(30, 10), cell(50, 10)];
    let rtl_style = Style::new(Dir::RTL, Size::new(pt(200), pt(500)));
    let rtl = GridLayouter::new(
        rtl_tracks,
        Axes::new(Vec::new(), Vec::new()),
        rtl_cells,
        single_region(200, 500),
        rtl_style,
    )
    .layout();

    // Mirror: reversed column tracks and reversed cells per row.
    let ltr_tracks = Axes::new(vec![Sizing::Auto, fixed(60)], vec![Sizing::Auto]);
    let ltr_cells = vec![cell(50, 10), cell(30, 10)];
    let mirrored = GridLayouter::new(
        ltr_tracks,
        gutter,
        ltr_cells,
        single_region(200, 500),
        ltr(200, 500),
    )
    .layout();

    assert_eq!(widths(&rtl.cols), widths(&mirrored.cols));
}

#[test]
fn gutter_tracks_interleaved() {
    // Two auto columns with a 10pt gutter: the expanded track list holds
    // the gutter as its own column.
    let tracks = Axes::new(vec![Sizing::Auto, Sizing::Auto], vec![Sizing::Auto]);
    let gutter = Axes::new(vec![fixed(10)], Vec::new());
    let cells = vec![cell(30, 10), cell(50, 10)];
    let layouter = GridLayouter::new(tracks, gutter, cells, single_region(200, 500), ltr(200, 500));
    let layout = layouter.layout();
    assert_eq!(widths(&layout.cols), vec![30, 10, 50]);
}

#[test]
fn degenerate_fixed_overflow_collapses_others() {
    // Fixed columns already overflow the region: the automatic column
    // collapses to zero.
    let tracks = Axes::new(vec![fixed(300), Sizing::Auto], vec![Sizing::Auto]);
    let gutter = Axes::new(Vec::new(), Vec::new());
    let cells = vec![cell(30, 10), cell(50, 10)];
    let layouter = GridLayouter::new(tracks, gutter, cells, single_region(200, 500), ltr(200, 500));
    let layout = layouter.layout();
    assert_eq!(widths(&layout.cols), vec![300, 0]);
}

#[test]
fn grid_node_layout_entry_point() {
    // The node-level entry point produces one frame per region run and the
    // recorded row heights alongside.
    let node = GridNode {
        tracks: Axes::new(vec![fixed(50), fixed(50)], vec![fixed(20), fixed(30)]),
        gutter: Axes::new(Vec::new(), Vec::new()),
        cells: vec![cell(10, 10), cell(10, 10), cell(10, 10), cell(10, 10)],
    };
    let layout = node.layout(single_region(200, 500), ltr(200, 500));
    assert_eq!(layout.fragment.len(), 1);
    assert_eq!(
        layout.rows[0].1.iter().map(|h| h.to_raw()).collect::<Vec<_>>(),
        vec![20, 30],
    );
    let frames = layout.fragment.into_frames();
    assert_eq!(frames[0].width().to_raw(), 100);
    assert_eq!(frames[0].height().to_raw(), 50);
    match &frames[0].items[0].item {
        FrameItem::Group(row) => assert_eq!(row.height().to_raw(), 20),
        _ => panic!("expected a row frame"),
    }
}

#[test]
fn relative_track_against_region_width() {
    // A 50% column of a 200pt region resolves to 100pt.
    let tracks = Axes::new(
        vec![Sizing::Rel(Rel::from_ratio(typst::geom::Ratio::new(5000)))],
        vec![Sizing::Auto],
    );
    let gutter = Axes::new(Vec::new(), Vec::new());
    let cells = vec![cell(10, 10)];
    let layouter = GridLayouter::new(tracks, gutter, cells, single_region(200, 500), ltr(200, 500));
    let layout = layouter.layout();
    assert_eq!(widths(&layout.cols), vec![100]);
}

#[test]
fn rtl_mirror_same_widths_with_gutter() {
    // The mirror relation also holds with gutter tracks: the reversed
    // expanded track list carries the reversed gutters between the
    // reversed content tracks.
    let rtl = GridLayouter::new(
        Axes::new(vec![fixed(60), Sizing::Auto], vec![Sizing::Auto]),
        Axes::new(vec![fixed(10)], Vec::new()),
        vec![cell(30, 10), cell(50, 10)],
        single_region(200, 500),
        Style::new(Dir::RTL, Size::new(pt(200), pt(500))),
    )
    .layout();

    let mirrored = GridLayouter::new(
        Axes::new(vec![Sizing::Auto, fixed(60)], vec![Sizing::Auto]),
        Axes::new(vec![fixed(10)], Vec::new()),
        vec![cell(50, 10), cell(30, 10)],
        single_region(200, 500),
        ltr(200, 500),
    )
    .layout();

    assert_eq!(widths(&rtl.cols), widths(&mirrored.cols));
    assert_eq!(widths(&rtl.cols), vec![50, 10, 60]);
}

#[test]
fn empty_first_region_is_skipped() {
    // Two empty regions precede a usable one. The full first region is
    // finished up front; the auto row then finds its first slice empty
    // while a later one is not, skips that region too, and lands whole in
    // the third.
    let tracks = Axes::new(vec![Sizing::Auto], vec![Sizing::Auto]);
    let gutter = Axes::new(Vec::new(), Vec::new());
    let cells = vec![cell(40, 50)];
    let regions = Regions::new(
        Size::new(pt(80), pt(0)),
        vec![pt(0), pt(100)],
        None,
        Axes::new(false, false),
    );
    let layouter = GridLayouter::new(tracks, gutter, cells, regions, ltr(80, 0));
    let layout = layouter.layout();
    assert_eq!(layout.fragment.len(), 3);
    assert_eq!(layout.rows[0].1.len(), 0);
    assert_eq!(layout.rows[1].1.len(), 0);
    assert_eq!(layout.rows[2].1.len(), 1);
    assert_eq!(layout.rows[2].1[0].to_raw(), 50);
}

#[test]
fn shrink_sum_meets_available() {
    // Three overlarge automatic columns against 100pt: the capped widths
    // use the whole available space up to rounding.
    let tracks = Axes::new(
        vec![Sizing::Auto, Sizing::Auto, Sizing::Auto],
        vec![Sizing::Auto],
    );
    let gutter = Axes::new(Vec::new(), Vec::new());
    let cells = vec![cell(70, 10), cell(80, 10), cell(90, 10)];
    let layouter = GridLayouter::new(tracks, gutter, cells, single_region(100, 500), ltr(100, 500));
    let layout = layouter.layout();
    let sum: i64 = layout.cols.iter().map(|c| c.to_raw()).sum();
    assert!(100 - 3 < sum && sum <= 100);
    assert_eq!(widths(&layout.cols), vec![33, 33, 33]);
}

//! Tests for the geometric primitives, content splitting, columns and the
//! glyph encoding helper.

use typst::columns::ColumnsNode;
use typst::container::Sizing;
use typst::content::{layout_cell, Content};
use typst::elements::encode_glyphs_be;
use typst::geom::{Abs, Axes, Dir, Fr, Ratio, Rel, Size, Spacing};
use typst::regions::Regions;
use typst::style::Style;
use typst::tree::LayoutNode;

fn pt(v: i64) -> Abs {
    Abs::pt(v)
}

#[test]
fn saturating_arithmetic() {
    let inf = Abs::inf();
    assert_eq!(inf.add(pt(100)).to_raw(), inf.to_raw());
    assert!(!inf.is_finite());
    assert!(pt(5).is_finite());
    assert_eq!(pt(3).add(pt(4)).to_raw(), 7);
    assert_eq!(pt(3).sub(pt(4)).to_raw(), -1);
    assert_eq!(pt(3).max(pt(4)).to_raw(), 4);
    assert_eq!(pt(3).min(pt(4)).to_raw(), 3);
}

#[test]
fn ratio_resolution() {
    assert_eq!(Ratio::new(5000).of(pt(200)).to_raw(), 100);
    assert_eq!(Ratio::new(400).of(pt(200)).to_raw(), 8);
    assert_eq!(Ratio::zero().of(Abs::inf()).to_raw(), 0);
    let rel = Rel::new(Ratio::new(2500), pt(10));
    assert_eq!(rel.relative_to(pt(100)).to_raw(), 35);
}

#[test]
fn fraction_share_floors() {
    let one = Fr::new(1);
    let total = Fr::new(3);
    assert_eq!(one.share(total, pt(100)).to_raw(), 33);
    assert_eq!(Fr::new(2).share(total, pt(100)).to_raw(), 66);
    assert_eq!(one.share(Fr::zero(), pt(100)).to_raw(), 0);
}

#[test]
fn sizing_classification() {
    assert!(Sizing::Fr(Fr::new(2)).is_fractional());
    assert!(!Sizing::Auto.is_fractional());
    assert!(!Sizing::Rel(Rel::zero()).is_fractional());
    assert_eq!(Sizing::default(), Sizing::Auto);
    assert_eq!(
        Sizing::from(Spacing::Fr(Fr::new(2))),
        Sizing::Fr(Fr::new(2)),
    );
    assert_eq!(
        Sizing::from(Spacing::Rel(Rel::zero())),
        Sizing::Rel(Rel::zero()),
    );
}

#[test]
fn content_splits_greedily() {
    // 250pt of content over three regions of 100pt each.
    let pod = Regions::new(
        Size::new(pt(50), pt(100)),
        vec![pt(100), pt(100)],
        None,
        Axes::new(false, false),
    );
    let frames = layout_cell(&Content::new(pt(40), pt(250)), &pod);
    let heights: Vec<i64> = frames.iter().map(|f| f.height().to_raw()).collect();
    assert_eq!(heights, vec![100, 100, 50]);
    assert_eq!(heights.iter().sum::<i64>(), 250);

    // Once the backlog runs out and the repeating region is entered, that
    // region is the last distinct one and absorbs whatever remains.
    let repeating = Regions::new(
        Size::new(pt(50), pt(100)),
        vec![pt(100)],
        Some(pt(100)),
        Axes::new(false, false),
    );
    let frames = layout_cell(&Content::new(pt(40), pt(250)), &repeating);
    let heights: Vec<i64> = frames.iter().map(|f| f.height().to_raw()).collect();
    assert_eq!(heights, vec![100, 150]);
}

#[test]
fn content_fits_single_region() {
    let pod = Regions::new(
        Size::new(pt(50), pt(100)),
        Vec::new(),
        None,
        Axes::new(false, false),
    );
    let frames = layout_cell(&Content::new(pt(70), pt(60)), &pod);
    assert_eq!(frames.len(), 1);
    assert_eq!(frames[0].height().to_raw(), 60);
    // The natural width is capped by the region.
    assert_eq!(frames[0].width().to_raw(), 50);
}

#[test]
fn empty_content_empty_frame() {
    let pod = Regions::new(
        Size::new(pt(50), pt(100)),
        Vec::new(),
        None,
        Axes::new(false, false),
    );
    let frames = layout_cell(&Content::empty(), &pod);
    assert_eq!(frames.len(), 1);
    assert!(frames[0].is_empty());
}

#[test]
fn columns_split_width() {
    // Two columns of a 200pt region: gutter 8pt (four percent), columns
    // 96pt each; 300pt of content lands in both columns of one region.
    let node = ColumnsNode {
        columns: 2,
        child: LayoutNode::new(Content::new(pt(90), pt(300))),
    };
    let regions = Regions::new(
        Size::new(pt(200), pt(160)),
        Vec::new(),
        None,
        Axes::new(false, false),
    );
    let styles = Style::new(Dir::LTR, Size::new(pt(200), pt(160)));
    let frames = node.layout(&regions, &styles);
    assert_eq!(frames.len(), 1);
    assert_eq!(frames[0].items.len(), 2);
    assert_eq!(frames[0].items[0].pos.x.to_raw(), 0);
    assert_eq!(frames[0].items[1].pos.x.to_raw(), 104);
    // The tallest column sets the frame height.
    assert_eq!(frames[0].height().to_raw(), 160);
}

#[test]
fn columns_rtl_mirrored_positions() {
    let node = ColumnsNode {
        columns: 2,
        child: LayoutNode::new(Content::new(pt(96), pt(300))),
    };
    let regions = Regions::new(
        Size::new(pt(200), pt(160)),
        Vec::new(),
        None,
        Axes::new(false, false),
    );
    let styles = Style::new(Dir::RTL, Size::new(pt(200), pt(160)));
    let frames = node.layout(&regions, &styles);
    assert_eq!(frames[0].items[0].pos.x.to_raw(), 200 - 96);
}

#[test]
fn glyphs_encode_big_endian() {
    let glyphs: Vec<u16> = vec![0x1234, 0xabcd, 0x0007];
    let bytes = encode_glyphs_be(&glyphs);
    assert_eq!(bytes, vec![0x12, 0x34, 0xab, 0xcd, 0x00, 0x07]);
}

#[test]
fn region_cursor_advances() {
    let mut regions = Regions::new(
        Size::new(pt(50), pt(100)),
        vec![pt(80)],
        Some(pt(60)),
        Axes::new(false, false),
    );
    assert!(!regions.in_last());
    regions.next();
    assert_eq!(regions.size.y.to_raw(), 80);
    assert!(!regions.in_last());
    regions.next();
    assert_eq!(regions.size.y.to_raw(), 60);
    assert!(regions.in_last());
    regions.next();
    assert_eq!(regions.size.y.to_raw(), 60);
}

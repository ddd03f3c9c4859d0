//! Tests for the transform nodes.

use typst::content::Content;
use typst::frame::FrameItem;
use typst::geom::{Abs, Angle, Axes, Ratio, Rel, Size};
use typst::regions::Regions;
use typst::transform::{MoveNode, RotateNode, ScaleNode};

fn pt(v: i64) -> Abs {
    Abs::pt(v)
}

fn region(width: i64, height: i64) -> Regions {
    Regions::new(
        Size::new(pt(width), pt(height)),
        Vec::new(),
        None,
        Axes::new(false, false),
    )
}

#[test]
fn move_shifts_items() {
    let node = MoveNode {
        delta: Axes::new(Rel::from_abs(pt(7)), Rel::from_abs(pt(-3))),
        body: Content::new(pt(40), pt(20)),
    };
    let frames = node.layout(&region(100, 100));
    assert_eq!(frames.len(), 1);
    assert_eq!(frames[0].items[0].pos.x.to_raw(), 7);
    assert_eq!(frames[0].items[0].pos.y.to_raw(), -3);
    // Moving does not affect layout: the frame keeps its size.
    assert_eq!(frames[0].width().to_raw(), 40);
    assert_eq!(frames[0].height().to_raw(), 20);
}

#[test]
fn rotate_records_transform() {
    let node = RotateNode { angle: Angle::deg(90), body: Content::new(pt(40), pt(20)) };
    let frames = node.layout(&region(100, 100));
    assert_eq!(frames.len(), 1);
    assert_eq!(frames[0].items.len(), 1);
    assert!(matches!(frames[0].items[0].item, FrameItem::Transformed(_, _)));
    assert_eq!(frames[0].width().to_raw(), 40);
}

#[test]
fn scale_records_transform() {
    let node = ScaleNode {
        factor: Axes::new(Ratio::new(20000), Ratio::new(5000)),
        body: Content::new(pt(40), pt(20)),
    };
    let frames = node.layout(&region(100, 100));
    assert_eq!(frames.len(), 1);
    assert!(matches!(frames[0].items[0].item, FrameItem::Transformed(_, _)));
    // Scaling does not affect layout either.
    assert_eq!(frames[0].height().to_raw(), 20);
}

//! Tests for templates, the builder pipeline and the typesetting context.

use typst::content::Content;
use typst::deco::Deco;
use typst::geom::{Abs, Dir, GenAxis, Rel, Size};
use typst::style::Style;
use typst::template::{StyleChange, Template};
use typst::tree::{LayoutNode, ParChild, StackChild};
use typst::{Context, ContextBuilder};

fn pt(v: i64) -> Abs {
    Abs::pt(v)
}

fn style() -> Style {
    Style::new(Dir::LTR, Size::new(pt(200), pt(300)))
}

#[test]
fn adjacent_text_merges() {
    // Text, a word space and more text coalesce into one text run.
    let mut t = Template::new();
    t.text(String::from("a"));
    t.space();
    t.text(String::from("b"));
    let stack = t.to_stack(&style());
    assert_eq!(stack.children.len(), 1);
    match &stack.children[0] {
        StackChild::Par(par, _) => {
            assert_eq!(par.children.len(), 1);
            match &par.children[0] {
                ParChild::Text(text, _, _, _) => assert_eq!(text, "a b"),
                _ => panic!("expected a text run"),
            }
        }
        _ => panic!("expected a paragraph"),
    }
}

#[test]
fn leading_soft_space_vanishes() {
    // A word space at the start of a paragraph produces nothing.
    let mut t = Template::new();
    t.space();
    t.text(String::from("a"));
    let stack = t.to_stack(&style());
    match &stack.children[0] {
        StackChild::Par(par, _) => {
            assert_eq!(par.children.len(), 1);
            match &par.children[0] {
                ParChild::Text(text, _, _, _) => assert_eq!(text, "a"),
                _ => panic!("expected a text run"),
            }
        }
        _ => panic!("expected a paragraph"),
    }
}

#[test]
fn monospace_does_not_merge_with_plain() {
    // Text in another text style stays a separate run.
    let mut t = Template::new();
    t.text(String::from("plain"));
    t.monospace(String::from("code"));
    let stack = t.to_stack(&style());
    match &stack.children[0] {
        StackChild::Par(par, _) => assert_eq!(par.children.len(), 2),
        _ => panic!("expected a paragraph"),
    }
}

#[test]
fn decorate_reaches_text_runs() {
    // Decorating a template attaches the decoration to its text runs, and
    // a copy of the template keeps it.
    let mut t = Template::new();
    t.text(String::from("x"));
    t.decorate(Deco::Bold);
    let copy = t.repeat(1).unwrap();
    let stack = copy.to_stack(&style());
    match &stack.children[0] {
        StackChild::Par(par, _) => match &par.children[0] {
            ParChild::Text(_, _, _, decos) => assert_eq!(decos, &vec![Deco::Bold]),
            _ => panic!("expected a text run"),
        },
        _ => panic!("expected a paragraph"),
    }
}

#[test]
fn repeat_zero_and_negative() {
    let mut t = Template::new();
    t.text(String::from("a"));
    assert!(t.repeat(-1).is_none());
    let empty = t.repeat(0).unwrap();
    let stack = empty.to_stack(&style());
    assert_eq!(stack.children.len(), 0);
}

#[test]
fn repeat_concatenates() {
    let mut t = Template::new();
    t.text(String::from("ab"));
    let thrice = t.repeat(3).unwrap();
    let stack = thrice.to_stack(&style());
    match &stack.children[0] {
        StackChild::Par(par, _) => match &par.children[0] {
            ParChild::Text(text, _, _, _) => assert_eq!(text, "ababab"),
            _ => panic!("expected a text run"),
        },
        _ => panic!("expected a paragraph"),
    }
}

#[test]
fn parbreak_separates_paragraphs() {
    let mut t = Template::new();
    t.text(String::from("one"));
    t.parbreak();
    t.text(String::from("two"));
    let stack = t.to_stack(&style());
    // Two paragraphs with the spacing between them.
    assert_eq!(stack.children.len(), 3);
    assert!(matches!(stack.children[1], StackChild::Spacing(_)));
}

#[test]
fn hard_spacing_stays_at_edges() {
    let mut t = Template::new();
    t.spacing(GenAxis::Block, Rel::from_abs(pt(12)));
    let stack = t.to_stack(&style());
    assert_eq!(stack.children.len(), 1);
    assert!(matches!(stack.children[0], StackChild::Spacing(_)));
}

#[test]
fn pagebreak_opens_new_page() {
    let mut t = Template::new();
    t.text(String::from("first"));
    t.pagebreak(true);
    t.text(String::from("second"));
    let tree = t.to_tree(&style());
    assert_eq!(tree.pages.len(), 2);
    for page in &tree.pages {
        assert_eq!(page.size.x.to_raw(), 200);
        assert_eq!(page.size.y.to_raw(), 300);
    }
}

#[test]
fn to_tree_empty_template_single_hard_page() {
    let t = Template::new();
    let tree = t.to_tree(&style());
    assert_eq!(tree.pages.len(), 1);
    assert!(tree.pages[0].is_empty());
}

#[test]
fn modified_wraps_with_save_restore() {
    // A modified template set in monospace produces a separate text style.
    let mut inner = Template::new();
    inner.text(String::from("code"));
    let wrapped = inner.modified(StyleChange::Monospace(true));
    let stack = wrapped.to_stack(&style());
    match &stack.children[0] {
        StackChild::Par(par, _) => match &par.children[0] {
            ParChild::Text(_, _, text_style, _) => assert!(text_style.monospace),
            _ => panic!("expected a text run"),
        },
        _ => panic!("expected a paragraph"),
    }
}

#[test]
fn context_typesets_block() {
    // A single block that fits one page yields one page frame.
    let node = LayoutNode::new(Content::new(pt(100), pt(250)));
    let block = Template::from_block(node);
    let mut ctx = Context::new(style());
    let frames = ctx.typeset(&block);
    assert_eq!(frames.len(), 1);
}

#[test]
fn context_builder_default_page() {
    let ctx = ContextBuilder::default().build();
    assert_eq!(ctx.style.page.size.x.to_raw(), 595);
    assert_eq!(ctx.style.page.size.y.to_raw(), 842);
    let ctx2 = Context::builder().env(style()).build();
    assert_eq!(ctx2.style.page.size.x.to_raw(), 200);
}

#[test]
fn append_concatenates_templates() {
    let mut a = Template::new();
    a.text(String::from("ab"));
    let mut b = Template::new();
    b.text(String::from("cd"));
    a.append(b);
    let stack = a.to_stack(&style());
    match &stack.children[0] {
        StackChild::Par(par, _) => match &par.children[0] {
            ParChild::Text(text, _, _, _) => assert_eq!(text, "abcd"),
            _ => panic!("expected a text run"),
        },
        _ => panic!("expected a paragraph"),
    }
}

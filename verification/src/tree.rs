//! The layout tree: a high-level, fully styled representation of the
//! document, ready for layouting.

use vstd::prelude::*;

use crate::container::Sizing;
use crate::content::Content;
use crate::deco::Deco;
use crate::frame::Frame;
use crate::geom::{Abs, Axes, Dir, Rel, Size};
use crate::grid::{GridLayouter, MAX_CELLS, MAX_TRACKS};
use crate::regions::Regions;
use crate::style::{Align, Aligns, Style, TextStyle};

verus! {

/// A layouting node wrapping a piece of measurable content.
#[derive(Clone, Copy, PartialEq, Eq, Structural, Debug, Hash)]
pub struct LayoutNode {
    /// The content this node lays out.
    pub content: Content,
}

impl LayoutNode {
    /// Create a new node from any measurable content.
    pub fn new(content: Content) -> (r: LayoutNode)
        ensures
            r.content == content,
    {
        LayoutNode { content }
    }
}

/// One child of a paragraph.
#[derive(Debug)]
pub enum ParChild {
    /// A run of text with its alignment, text style and decorations.
    Text(String, Align, TextStyle, Vec<Deco>),
    /// Inline spacing.
    Spacing(Rel),
    /// Any inline-level node with its alignment and decorations.
    Any(LayoutNode, Align, Vec<Deco>),
}

/// A paragraph of inline-level children.
#[derive(Debug)]
pub struct ParNode {
    /// The writing direction of the paragraph.
    pub dir: Dir,
    /// The spacing between the paragraph's lines.
    pub line_spacing: Abs,
    /// The children of the paragraph.
    pub children: Vec<ParChild>,
}

/// One child of a stack.
#[derive(Debug)]
pub enum StackChild {
    /// Block-level spacing between children.
    Spacing(Rel),
    /// A finished paragraph with its alignments.
    Par(ParNode, Aligns),
    /// Any block-level node with its alignments.
    Any(LayoutNode, Aligns),
}

/// A stack of block-level children.
#[derive(Debug)]
pub struct StackNode {
    /// The inline direction of the stack.
    pub dir: Dir,
    /// The children of the stack.
    pub children: Vec<StackChild>,
}

impl StackNode {
    /// Whether the stack has no children.
    pub fn is_empty(&self) -> (r: bool)
        ensures
            r == (self.children@.len() == 0),
    {
        self.children.len() == 0
    }
}

/// A run of pages that all have the same properties.
#[derive(Debug)]
pub struct PageNode {
    /// The stack node that produces the actual pages.
    pub stack: StackNode,
    /// The size of each page.
    pub size: Size,
    /// Whether the node is kept even if the stack is empty.
    pub hard: bool,
}

impl PageNode {
    /// Create a new, empty page.
    pub fn new() -> (r: PageNode)
        ensures
            r.stack.children@.len() == 0,
            r.stack.dir == Dir::LTR,
            r.size.x@ == 0,
            r.size.y@ == 0,
            !r.hard,
    {
        PageNode {
            stack: StackNode { dir: Dir::LTR, children: Vec::new() },
            size: Size::zero(),
            hard: false,
        }
    }

    /// Whether the page's stack has no children.
    pub fn is_empty(&self) -> (r: bool)
        ensures
            r == (self.stack.children@.len() == 0),
    {
        self.stack.is_empty()
    }

    /// Lay out the page run: the stack's children become the rows of a
    /// one-column grid that fills page after page of this node's size.
    /// Spacing children become relative rows; every other child becomes an
    /// automatically sized row holding the child's content.
    ///
    /// A run with more children than a grid can carry yields one empty
    /// frame of the page size instead of any layout.
    pub fn layout(&self) -> (r: Vec<Frame>)
        ensures
            r@.len() >= 1,
            self.stack.children@.len() > MAX_CELLS ==> r@.len() == 1 && r@[0].size == self.size
                && r@[0].items@.len() == 0,
    {
        if self.stack.children.len() > MAX_CELLS {
            let mut r: Vec<Frame> = Vec::new();
            r.push(Frame::new(self.size));
            return r;
        }

        let n = self.stack.children.len();
        let mut rows: Vec<Sizing> = Vec::new();
        let mut cells: Vec<Content> = Vec::new();
        let mut i: usize = 0;
        while i < n
            invariant
                i <= n,
                n == self.stack.children@.len(),
                n <= MAX_CELLS,
                rows@.len() == i as int,
                cells@.len() == i as int,
            decreases n - i,
        {
            match &self.stack.children[i] {
                StackChild::Spacing(v) => {
                    rows.push(Sizing::Rel(*v));
                    cells.push(Content::empty());
                },
                StackChild::Par(_, _) => {
                    rows.push(Sizing::Auto);
                    cells.push(Content::empty());
                },
                StackChild::Any(node, _) => {
                    rows.push(Sizing::Auto);
                    cells.push(node.content);
                },
            }
            i = i + 1;
        }

        let mut cols: Vec<Sizing> = Vec::new();
        cols.push(Sizing::Auto);
        let regions = Regions::new(
            self.size,
            Vec::new(),
            Some(self.size.y),
            Axes::new(true, false),
        );
        let styles = Style::new(self.stack.dir, self.size);
        let layouter = GridLayouter::new(
            Axes::new(cols, rows),
            Axes::new(Vec::new(), Vec::new()),
            cells,
            regions,
            styles,
        );
        let layout = layouter.layout();
        let frames = layout.fragment.into_frames();
        frames
    }
}

/// A tree of layout nodes: runs of pages with the same properties.
#[derive(Debug)]
pub struct LayoutTree {
    /// Runs of pages with the same properties.
    pub pages: Vec<PageNode>,
}

impl LayoutTree {
    /// Create a new, empty layout tree.
    pub fn new() -> (r: LayoutTree)
        ensures
            r.pages@.len() == 0,
    {
        LayoutTree { pages: Vec::new() }
    }

    /// Whether the tree has no children.
    pub fn is_empty(&self) -> (r: bool)
        ensures
            r == (self.pages@.len() == 0),
    {
        self.pages.len() == 0
    }

    /// Insert a page run.
    pub fn push_page(&mut self, page: PageNode)
        ensures
            final(self).pages@.len() == old(self).pages@.len() + 1,
            final(self).pages@.last() == page,
            forall|i: int|
                0 <= i < old(self).pages@.len() ==> #[trigger] final(self).pages@[i] == old(
                    self,
                ).pages@[i],
    {
        self.pages.push(page);
    }

    /// Lay out the tree into a collection of frames: every page run yields
    /// at least one frame, in order.
    pub fn layout(&self) -> (r: Vec<Frame>)
        ensures
            r@.len() >= self.pages@.len(),
    {
        let mut frames: Vec<Frame> = Vec::new();
        let m = self.pages.len();
        let mut i: usize = 0;
        while i < m
            invariant
                i <= m,
                m == self.pages@.len(),
                frames@.len() >= i as int,
            decreases m - i,
        {
            let mut page_frames = self.pages[i].layout();
            let ghost before = frames@.len() as int;
            let ghost total = page_frames@.len() as int;
            while page_frames.len() > 0
                invariant
                    before >= i as int,
                    total >= 1,
                    frames@.len() == before + total - page_frames@.len(),
                decreases page_frames@.len(),
            {
                let f = page_frames.remove(0);
                frames.push(f);
            }
            i = i + 1;
        }
        frames
    }
}

} // verus!

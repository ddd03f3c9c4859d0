//! A verified core of a document typesetting engine.
//!
//! The heart of the crate is the grid layouter: given a matrix of content
//! cells and per-track sizing rules (automatic, relative, fractional), it
//! computes concrete column widths and row heights and places every cell
//! into one or more page-sized regions.

pub mod columns;
pub mod container;
pub mod content;
pub mod deco;
pub mod elements;
pub mod frame;
pub mod geom;
pub mod grid;
pub mod regions;
pub mod style;
pub mod template;
pub mod transform;
pub mod tree;

use vstd::prelude::*;

use crate::frame::Frame;
use crate::geom::{Abs, Dir, Size};
use crate::style::Style;
use crate::template::Template;

verus! {

/// The default page width, in points.
pub const DEFAULT_PAGE_WIDTH_PT: i64 = 595;

/// The default page height, in points.
pub const DEFAULT_PAGE_HEIGHT_PT: i64 = 842;

/// The core context which holds the typesetting configuration.
///
/// Loading of fonts, images and source files belongs to the surrounding
/// engine; the context carries the resolved base style that typesetting
/// starts from.
pub struct Context {
    /// The base style: page setup, direction and text defaults.
    pub style: Style,
}

impl Context {
    /// Create a new context with the given base style.
    pub fn new(style: Style) -> (r: Context)
        ensures
            r.style == style,
    {
        Context { style }
    }

    /// Create a new context with advanced settings.
    pub fn builder() -> (r: ContextBuilder)
        ensures
            r.style is None,
    {
        ContextBuilder { style: None }
    }

    /// Typeset a template into a collection of layouted frames, one per
    /// page.
    pub fn typeset(&mut self, template: &Template) -> (r: Vec<Frame>)
        ensures
            *final(self) == *old(self),
            r@.len() >= 1,
    {
        let tree = template.to_tree(&self.style);
        tree.layout()
    }

    /// Garbage-collect caches. Without a layout cache there is nothing to
    /// collect.
    pub fn turnaround(&mut self)
        ensures
            *final(self) == *old(self),
    {
    }
}

/// A builder for a typesetting context.
pub struct ContextBuilder {
    /// The base style, if one was given.
    pub style: Option<Style>,
}

impl ContextBuilder {
    /// The initial properties for page size, direction and so on.
    pub fn env(self, style: Style) -> (r: ContextBuilder)
        ensures
            r.style == Some(style),
    {
        ContextBuilder { style: Some(style) }
    }

    /// Finish building the context, falling back to a left-to-right style
    /// on a default page.
    pub fn build(self) -> (r: Context)
        ensures
            match self.style {
                Some(s) => r.style == s,
                None => r.style.dir == Dir::LTR && r.style.page.size.x@
                    == DEFAULT_PAGE_WIDTH_PT as int && r.style.page.size.y@
                    == DEFAULT_PAGE_HEIGHT_PT as int,
            },
    {
        match self.style {
            Some(s) => Context { style: s },
            None => Context {
                style: Style::new(
                    Dir::LTR,
                    Size::new(Abs::pt(DEFAULT_PAGE_WIDTH_PT), Abs::pt(DEFAULT_PAGE_HEIGHT_PT)),
                ),
            },
        }
    }
}

impl Default for ContextBuilder {
    /// A builder with no settings made yet.
    fn default() -> (r: ContextBuilder)
        ensures
            r.style is None,
    {
        ContextBuilder { style: None }
    }
}

} // verus!

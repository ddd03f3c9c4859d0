//! Resolved style properties that layout consults.
//!
//! Style inheritance and lookup belong to the wider engine; layout receives
//! the already-resolved values it needs as plain data.

use vstd::prelude::*;

use crate::geom::{Abs, Dir, Size};

verus! {

/// How content is aligned along an axis.
#[derive(Clone, Copy, PartialEq, Eq, Structural, Debug, Hash)]
pub enum Align {
    /// Align at the start of the axis.
    Start,
    /// Align at the center of the axis.
    Center,
    /// Align at the end of the axis.
    End,
}

/// The alignments along the inline and block axes.
#[derive(Clone, Copy, PartialEq, Eq, Structural, Debug, Hash)]
pub struct Aligns {
    /// The alignment within a line.
    pub inline: Align,
    /// The alignment between blocks.
    pub block: Align,
}

/// How text is set.
#[derive(Clone, Copy, PartialEq, Eq, Structural, Debug, Hash)]
pub struct TextStyle {
    /// Whether text is set in monospace.
    pub monospace: bool,
}

/// The page setup.
#[derive(Clone, Copy, PartialEq, Eq, Structural, Debug, Hash)]
pub struct PageStyle {
    /// The size of each page.
    pub size: Size,
}

/// The resolved style properties layout reads.
#[derive(Clone, Copy, PartialEq, Eq, Structural, Debug, Hash)]
pub struct Style {
    /// The writing direction.
    pub dir: Dir,
    /// The alignments of content.
    pub aligns: Aligns,
    /// The text setup.
    pub text: TextStyle,
    /// The page setup.
    pub page: PageStyle,
    /// The spacing between paragraphs.
    pub par_spacing: Abs,
    /// The spacing between lines of a paragraph.
    pub line_spacing: Abs,
}

impl Style {
    /// A left-to-right style with the given page size.
    pub fn new(dir: Dir, page_size: Size) -> (r: Style)
        ensures
            r.dir == dir,
            r.page.size == page_size,
            !r.text.monospace,
            r.aligns == (Aligns { inline: Align::Start, block: Align::Start }),
            r.par_spacing@ == 0,
            r.line_spacing@ == 0,
    {
        Style {
            dir,
            aligns: Aligns { inline: Align::Start, block: Align::Start },
            text: TextStyle { monospace: false },
            page: PageStyle { size: page_size },
            par_spacing: Abs::zero(),
            line_spacing: Abs::zero(),
        }
    }
}

} // verus!

//! Decorations for semantic syntax highlighting.

use vstd::prelude::*;

verus! {

/// A decoration attached to a span of text.
#[derive(Debug, Copy, Clone, Eq, PartialEq, Structural, Ord, PartialOrd, Hash)]
pub enum Deco {
    /// Text in italics.
    Italic,
    /// Text in bold.
    Bold,
    /// A valid, successfully resolved name.
    Resolved,
    /// An invalid, unresolved name.
    Unresolved,
    /// The key part of a key-value entry in a dictionary or function call.
    DictKey,
}

} // verus!

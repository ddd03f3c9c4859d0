//! Sizing rules for tracks and containers.

use vstd::prelude::*;

use crate::content::Content;
use crate::geom::{Fr, Rel, Smart, Spacing};

verus! {

/// How to size a grid cell or container along an axis.
#[derive(Clone, Copy, PartialEq, Eq, Structural, Debug, Hash)]
pub enum Sizing {
    /// A track that fits its cell's contents.
    Auto,
    /// A track size specified in absolute terms and relative to the parent's
    /// size.
    Rel(Rel),
    /// A track size specified as a fraction of the remaining free space in
    /// the parent.
    Fr(Fr),
}

impl Sizing {
    /// Whether this is fractional sizing.
    pub fn is_fractional(self) -> (r: bool)
        ensures
            r == (self is Fr),
    {
        match self {
            Sizing::Fr(_) => true,
            _ => false,
        }
    }
}

impl Default for Sizing {
    /// The default sizing fits the contents.
    fn default() -> (r: Self)
        ensures
            r == Sizing::Auto,
    {
        Sizing::Auto
    }
}

impl From<Spacing> for Sizing {
    /// Spacing becomes the corresponding track sizing.
    fn from(spacing: Spacing) -> (r: Self)
        ensures
            r == Self::spec_from_spacing(spacing),
    {
        match spacing {
            Spacing::Rel(rel) => Sizing::Rel(rel),
            Spacing::Fr(fr) => Sizing::Fr(fr),
        }
    }
}

impl vstd::std_specs::convert::FromSpecImpl<Spacing> for Sizing {
    open spec fn obeys_from_spec() -> bool {
        true
    }

    open spec fn from_spec(spacing: Spacing) -> Sizing {
        Sizing::spec_from_spacing(spacing)
    }
}

impl Sizing {
    /// What a piece of spacing converts to.
    pub open spec fn spec_from_spacing(spacing: Spacing) -> Sizing {
        match spacing {
            Spacing::Rel(rel) => Sizing::Rel(rel),
            Spacing::Fr(fr) => Sizing::Fr(fr),
        }
    }
}

/// Track sizing definitions, as given by the user.
#[derive(Clone, Debug)]
pub struct TrackSizings(pub Vec<Sizing>);

/// An inline-level container that sizes content.
#[derive(Clone, Copy, Debug)]
pub struct BoxNode {
    /// The box's content.
    pub body: Content,
    /// The box's width.
    pub width: Sizing,
    /// The box's height.
    pub height: Smart<Rel>,
}

/// A block-level container.
#[derive(Clone, Copy, Debug)]
pub struct BlockNode {
    /// The block's content.
    pub body: Content,
    /// The block's width.
    pub width: Smart<Rel>,
    /// The block's height.
    pub height: Smart<Rel>,
}

} // verus!

//! Geometric primitives for layout: absolute lengths, ratios, relative
//! lengths, fractions, sizes and points.
//!
//! All lengths are measured in raw integer units (one unit per point) on an
//! extended number line clamped to `[-Abs::INF, Abs::INF]`: arithmetic that
//! would leave the range saturates at the ends, which stand in for the
//! infinities of an unbounded page.

use vstd::prelude::*;

verus! {

/// The raw value standing for an infinite length.
pub const INF_RAW: i64 = 0x2000_0000_0000_0000;

/// The raw value standing for the length of ten thousand per one whole ratio.
pub const RATIO_ONE: i64 = 10000;

/// Saturate an unbounded value into the representable range of lengths.
pub open spec fn clamped(v: int) -> int {
    if v > INF_RAW as int {
        INF_RAW as int
    } else if v < -(INF_RAW as int) {
        -(INF_RAW as int)
    } else {
        v
    }
}

/// Saturate an unbounded value into the nonnegative range of fractions.
pub open spec fn clamped_share(v: int) -> int {
    if v > INF_RAW as int {
        INF_RAW as int
    } else if v < 0 {
        0
    } else {
        v
    }
}

/// What a ratio yields when applied to a base length: nothing for the zero
/// ratio, a signed infinity against an infinite base, and otherwise the
/// floored product in units.
pub open spec fn ratio_of(r: int, base: int) -> int {
    if r == 0 {
        0
    } else if base == INF_RAW as int {
        if r > 0 {
            INF_RAW as int
        } else {
            -(INF_RAW as int)
        }
    } else if base == -(INF_RAW as int) {
        if r > 0 {
            -(INF_RAW as int)
        } else {
            INF_RAW as int
        }
    } else {
        clamped(r * base / (RATIO_ONE as int))
    }
}

/// A relative length resolved against a base: its absolute part plus its
/// ratio part applied to the base.
pub open spec fn rel_to(ratio: int, abs: int, base: int) -> int {
    clamped(abs + ratio_of(ratio, base))
}

/// The views of a sequence of absolute lengths.
pub open spec fn abs_views(s: Seq<Abs>) -> Seq<int> {
    s.map_values(|a: Abs| a@)
}

/// The left-to-right saturating sum of a sequence of lengths.
pub open spec fn clamped_sum(s: Seq<int>) -> int
    decreases s.len(),
{
    if s.len() == 0 {
        0
    } else {
        clamped(clamped_sum(s.drop_last()) + s[s.len() - 1])
    }
}

/// An absolute length in raw units.
#[derive(Clone, Copy, PartialEq, Eq, Structural, Debug, Hash)]
pub struct Abs {
    raw: i64,
}

impl View for Abs {
    type V = int;

    closed spec fn view(&self) -> int {
        self.raw as int
    }
}

impl Abs {
    #[verifier::type_invariant]
    pub closed spec fn bounded(self) -> bool {
        -(INF_RAW as int) <= self.raw as int <= INF_RAW as int
    }

    /// The zero length.
    pub fn zero() -> (r: Abs)
        ensures
            r@ == 0,
    {
        Abs { raw: 0 }
    }

    /// The infinite length.
    pub fn inf() -> (r: Abs)
        ensures
            r@ == INF_RAW as int,
    {
        Abs { raw: INF_RAW }
    }

    /// The negative infinite length.
    pub fn neg_inf() -> (r: Abs)
        ensures
            r@ == -(INF_RAW as int),
    {
        Abs { raw: -INF_RAW }
    }

    /// Saturating multiplication by a count.
    pub fn times(self, n: usize) -> (r: Abs)
        ensures
            r@ == clamped(self@ * n as int),
    {
        proof {
            use_type_invariant(&self);
            assert(((self.raw as int) * (n as int)) > -0x4000_0000_0000_0000_0000_0000_0000_0000
                && ((self.raw as int) * (n as int))
                < 0x4000_0000_0000_0000_0000_0000_0000_0000) by (nonlinear_arith)
                requires
                    -0x2000_0000_0000_0000 <= self.raw as int <= 0x2000_0000_0000_0000,
                    0 <= n as int && (n as int) < 0x1_0000_0000_0000_0000,
            ;
        }
        let wide: i128 = (self.raw as i128) * (n as i128);
        clamp_wide(wide)
    }

    /// Floored division by a positive count.
    pub fn div_count(self, n: usize) -> (r: Abs)
        requires
            n > 0,
        ensures
            r@ == clamped(self@ / n as int),
    {
        proof {
            use_type_invariant(&self);
        }
        let q: i128 = floor_div_wide(self.raw as i128, n as i128);
        clamp_wide(q)
    }

    /// A length of the given number of points, saturated into range.
    pub fn pt(v: i64) -> (r: Abs)
        ensures
            r@ == clamped(v as int),
    {
        if v > INF_RAW {
            Abs { raw: INF_RAW }
        } else if v < -INF_RAW {
            Abs { raw: -INF_RAW }
        } else {
            Abs { raw: v }
        }
    }

    /// The length in raw units.
    pub fn to_raw(self) -> (r: i64)
        ensures
            r as int == self@,
    {
        self.raw
    }

    /// Whether this length is neither of the two infinities.
    pub fn is_finite(self) -> (r: bool)
        ensures
            r == (-(INF_RAW as int) < self@ < INF_RAW as int),
    {
        proof {
            use_type_invariant(&self);
        }
        -INF_RAW < self.raw && self.raw < INF_RAW
    }

    /// Whether this length is exactly zero.
    pub fn is_zero(self) -> (r: bool)
        ensures
            r == (self@ == 0),
    {
        self.raw == 0
    }

    /// Saturating addition.
    pub fn add(self, other: Abs) -> (r: Abs)
        ensures
            r@ == clamped(self@ + other@),
    {
        proof {
            use_type_invariant(&self);
            use_type_invariant(&other);
        }
        let v: i64 = self.raw + other.raw;
        if v > INF_RAW {
            Abs { raw: INF_RAW }
        } else if v < -INF_RAW {
            Abs { raw: -INF_RAW }
        } else {
            Abs { raw: v }
        }
    }

    /// Saturating subtraction.
    pub fn sub(self, other: Abs) -> (r: Abs)
        ensures
            r@ == clamped(self@ - other@),
    {
        proof {
            use_type_invariant(&self);
            use_type_invariant(&other);
        }
        let v: i64 = self.raw - other.raw;
        if v > INF_RAW {
            Abs { raw: INF_RAW }
        } else if v < -INF_RAW {
            Abs { raw: -INF_RAW }
        } else {
            Abs { raw: v }
        }
    }

    /// The smaller of two lengths.
    pub fn min(self, other: Abs) -> (r: Abs)
        ensures
            r@ == if self@ <= other@ { self@ } else { other@ },
    {
        if self.raw <= other.raw {
            self
        } else {
            other
        }
    }

    /// The larger of two lengths.
    pub fn max(self, other: Abs) -> (r: Abs)
        ensures
            r@ == if self@ >= other@ { self@ } else { other@ },
    {
        if self.raw >= other.raw {
            self
        } else {
            other
        }
    }

    /// Raise this length to at least the other one.
    pub fn set_max(&mut self, other: Abs)
        ensures
            final(self)@ == if old(self)@ >= other@ { old(self)@ } else { other@ },
    {
        if other.raw > self.raw {
            *self = other;
        }
    }

    /// Whether a piece of the given extent fits into this length.
    pub fn fits(self, piece: Abs) -> (r: bool)
        ensures
            r == (self@ >= piece@),
    {
        self.raw >= piece.raw
    }

    /// Whether this length is at most the other one.
    pub fn le(self, other: Abs) -> (r: bool)
        ensures
            r == (self@ <= other@),
    {
        self.raw <= other.raw
    }

    /// Whether this length is strictly below the other one.
    pub fn lt(self, other: Abs) -> (r: bool)
        ensures
            r == (self@ < other@),
    {
        self.raw < other.raw
    }
}

/// A ratio of a whole, in units of one ten-thousandth.
#[derive(Clone, Copy, PartialEq, Eq, Structural, Debug, Hash)]
pub struct Ratio {
    raw: i64,
}

impl View for Ratio {
    type V = int;

    closed spec fn view(&self) -> int {
        self.raw as int
    }
}

impl Ratio {
    #[verifier::type_invariant]
    pub closed spec fn bounded(self) -> bool {
        -(INF_RAW as int) <= self.raw as int <= INF_RAW as int
    }

    /// The zero ratio.
    pub fn zero() -> (r: Ratio)
        ensures
            r@ == 0,
    {
        Ratio { raw: 0 }
    }

    /// The whole ratio, one hundred percent.
    pub fn one() -> (r: Ratio)
        ensures
            r@ == RATIO_ONE as int,
    {
        Ratio { raw: RATIO_ONE }
    }

    /// A ratio from ten-thousandths of the whole, saturated into range.
    pub fn new(permyriad: i64) -> (r: Ratio)
        ensures
            r@ == clamped(permyriad as int),
    {
        if permyriad > INF_RAW {
            Ratio { raw: INF_RAW }
        } else if permyriad < -INF_RAW {
            Ratio { raw: -INF_RAW }
        } else {
            Ratio { raw: permyriad }
        }
    }

    /// Whether this ratio is exactly zero.
    pub fn is_zero(self) -> (r: bool)
        ensures
            r == (self@ == 0),
    {
        self.raw == 0
    }

    /// This ratio applied to a base length.
    pub fn of(self, base: Abs) -> (r: Abs)
        ensures
            r@ == ratio_of(self@, base@),
    {
        proof {
            use_type_invariant(&self);
            use_type_invariant(&base);
        }
        if self.raw == 0 {
            Abs::zero()
        } else if base.to_raw() == INF_RAW {
            if self.raw > 0 {
                Abs::inf()
            } else {
                Abs::pt(-INF_RAW)
            }
        } else if base.to_raw() == -INF_RAW {
            if self.raw > 0 {
                Abs::pt(-INF_RAW)
            } else {
                Abs::inf()
            }
        } else {
            proof {
                lemma_mul_bounds(self.raw as int, base@, INF_RAW as int);
            }
            let wide: i128 = (self.raw as i128) * (base.to_raw() as i128);
            let q: i128 = floor_div_wide(wide, RATIO_ONE as i128);
            clamp_wide(q)
        }
    }
}

/// A well-formed absolute length lies on the clamped number line.
pub proof fn lemma_abs_bounds(a: Abs)
    requires
        a.bounded(),
    ensures
        -(INF_RAW as int) <= a@ <= INF_RAW as int,
{
}

/// A well-formed ratio lies on the clamped number line.
pub proof fn lemma_ratio_bounds(r: Ratio)
    requires
        r.bounded(),
    ensures
        -(INF_RAW as int) <= r@ <= INF_RAW as int,
{
}

/// A well-formed fraction is a nonnegative share on the clamped number line.
pub proof fn lemma_fr_bounds(f: Fr)
    requires
        f.bounded(),
    ensures
        0 <= f@ <= INF_RAW as int,
{
}

/// The product of two values bounded by `m` is bounded by `m * m`.
pub proof fn lemma_mul_bounds(a: int, b: int, m: int)
    by (nonlinear_arith)
    requires
        0 <= m,
        -m <= a <= m,
        -m <= b <= m,
    ensures
        -(m * m) <= a * b <= m * m,
{
}

/// Floored division of a wide intermediate by a positive divisor.
fn floor_div_wide(a: i128, b: i128) -> (r: i128)
    requires
        b > 0,
        -0x4000_0000_0000_0000_0000_0000_0000_0000 < a,
    ensures
        r == a as int / b as int,
{
    if a >= 0 {
        let q: u128 = (a as u128) / (b as u128);
        proof {
            vstd::arithmetic::div_mod::lemma_fundamental_div_mod(a as int, b as int);
            vstd::arithmetic::div_mod::lemma_fundamental_div_mod(q as int, b as int);
            assert(q as int == a as int / b as int);
        }
        q as i128
    } else {
        let n: u128 = (-a) as u128;
        let q: u128 = n / (b as u128);
        let rm: u128 = n % (b as u128);
        proof {
            vstd::arithmetic::div_mod::lemma_fundamental_div_mod(n as int, b as int);
            if rm == 0 {
                assert(a as int == b as int * (-(q as int)) + 0) by (nonlinear_arith)
                    requires
                        n as int == b as int * (q as int) + 0,
                        a as int == -(n as int),
                ;
                vstd::arithmetic::div_mod::lemma_fundamental_div_mod_converse(
                    a as int,
                    b as int,
                    -(q as int),
                    0,
                );
            } else {
                assert(a as int == b as int * (-(q as int) - 1) + (b as int - rm as int))
                    by (nonlinear_arith)
                    requires
                        n as int == b as int * (q as int) + rm as int,
                        a as int == -(n as int),
                ;
                vstd::arithmetic::div_mod::lemma_fundamental_div_mod_converse(
                    a as int,
                    b as int,
                    -(q as int) - 1,
                    b as int - rm as int,
                );
            }
        }
        if rm == 0 {
            -(q as i128)
        } else {
            -(q as i128) - 1
        }
    }
}

/// Saturate a wide intermediate into an absolute length.
fn clamp_wide(v: i128) -> (r: Abs)
    ensures
        r@ == clamped(v as int),
{
    if v > INF_RAW as i128 {
        Abs::inf()
    } else if v < -(INF_RAW as i128) {
        Abs::pt(-INF_RAW)
    } else {
        Abs::pt(v as i64)
    }
}

/// A relative length: an absolute part plus a ratio of some base.
#[derive(Clone, Copy, PartialEq, Eq, Structural, Debug, Hash)]
pub struct Rel {
    /// The ratio part, resolved against a base length.
    pub rel: Ratio,
    /// The absolute part.
    pub abs: Abs,
}

/// The zero relative length as a spec-level value.
pub closed spec fn spec_rel_zero() -> Rel {
    Rel { rel: Ratio { raw: 0 }, abs: Abs { raw: 0 } }
}

/// The parts of the spec-level zero relative length.
pub proof fn lemma_rel_zero_parts()
    ensures
        spec_rel_zero().rel@ == 0,
        spec_rel_zero().abs@ == 0,
{
}

impl Rel {
    /// A view of the resolution of this relative length against a base.
    pub open spec fn spec_relative_to(self, base: int) -> int {
        rel_to(self.rel@, self.abs@, base)
    }

    /// The zero relative length.
    pub fn zero() -> (r: Rel)
        ensures
            r == spec_rel_zero(),
            r.rel@ == 0,
            r.abs@ == 0,
    {
        Rel { rel: Ratio::zero(), abs: Abs::zero() }
    }

    /// A relative length from its two parts.
    pub fn new(rel: Ratio, abs: Abs) -> (r: Rel)
        ensures
            r == (Rel { rel, abs }),
    {
        Rel { rel, abs }
    }

    /// A purely absolute relative length.
    pub fn from_abs(abs: Abs) -> (r: Rel)
        ensures
            r.rel@ == 0,
            r.abs == abs,
    {
        Rel { rel: Ratio::zero(), abs }
    }

    /// A purely relative length.
    pub fn from_ratio(rel: Ratio) -> (r: Rel)
        ensures
            r.rel == rel,
            r.abs@ == 0,
    {
        Rel { rel, abs: Abs::zero() }
    }

    /// Whether both parts are zero.
    pub fn is_zero(self) -> (r: bool)
        ensures
            r == (self.rel@ == 0 && self.abs@ == 0),
    {
        self.rel.is_zero() && self.abs.is_zero()
    }

    /// Resolve this length against a concrete base.
    pub fn relative_to(self, base: Abs) -> (r: Abs)
        ensures
            r@ == self.spec_relative_to(base@),
    {
        self.abs.add(self.rel.of(base))
    }
}

/// The part of `remaining` that a share of `total` claims: the floored
/// proportional part, saturated into range; nothing when there are no
/// shares at all.
pub open spec fn spec_share(share: int, total: int, remaining: int) -> int {
    if total == 0 {
        0
    } else {
        clamped(share * remaining / total)
    }
}

/// A fraction of the space remaining after absolute sizing: a nonnegative
/// share weighed against the sum of all shares.
#[derive(Clone, Copy, PartialEq, Eq, Structural, Debug, Hash)]
pub struct Fr {
    raw: i64,
}

impl View for Fr {
    type V = int;

    closed spec fn view(&self) -> int {
        self.raw as int
    }
}

impl Fr {
    #[verifier::type_invariant]
    pub closed spec fn bounded(self) -> bool {
        0 <= self.raw as int <= INF_RAW as int
    }

    /// The zero fraction.
    pub fn zero() -> (r: Fr)
        ensures
            r@ == 0,
    {
        Fr { raw: 0 }
    }

    /// One whole fractional unit.
    pub fn one() -> (r: Fr)
        ensures
            r@ == 1,
    {
        Fr { raw: 1 }
    }

    /// A fraction from a raw share count, saturated into range.
    pub fn new(share: i64) -> (r: Fr)
        ensures
            r@ == clamped_share(share as int),
    {
        if share > INF_RAW {
            Fr { raw: INF_RAW }
        } else if share < 0 {
            Fr { raw: 0 }
        } else {
            Fr { raw: share }
        }
    }

    /// The raw share count.
    pub fn get(self) -> (r: i64)
        ensures
            r as int == self@,
    {
        self.raw
    }

    /// Whether this fraction is the zero share.
    pub fn is_zero(self) -> (r: bool)
        ensures
            r == (self@ == 0),
    {
        self.raw == 0
    }

    /// Saturating addition of shares.
    pub fn add(self, other: Fr) -> (r: Fr)
        ensures
            r@ == clamped_share(self@ + other@),
    {
        proof {
            use_type_invariant(&self);
            use_type_invariant(&other);
        }
        let v: i64 = self.raw + other.raw;
        if v > INF_RAW {
            Fr { raw: INF_RAW }
        } else {
            Fr { raw: v }
        }
    }

    /// The part of `remaining` that this share claims out of `total` shares:
    /// the floored proportional part, saturated into range.
    pub fn share(self, total: Fr, remaining: Abs) -> (r: Abs)
        ensures
            r@ == spec_share(self@, total@, remaining@),
    {
        proof {
            use_type_invariant(&self);
            use_type_invariant(&total);
            use_type_invariant(&remaining);
            lemma_mul_bounds(self.raw as int, remaining@, INF_RAW as int);
        }
        if total.raw == 0 {
            Abs::zero()
        } else {
            let wide: i128 = (self.raw as i128) * (remaining.to_raw() as i128);
            let q: i128 = floor_div_wide(wide, total.get() as i128);
            clamp_wide(q)
        }
    }
}

/// A size along both axes.
#[derive(Clone, Copy, PartialEq, Eq, Structural, Debug, Hash)]
pub struct Size {
    /// The horizontal extent.
    pub x: Abs,
    /// The vertical extent.
    pub y: Abs,
}

impl Size {
    /// A size from both extents.
    pub fn new(x: Abs, y: Abs) -> (r: Size)
        ensures
            r == (Size { x, y }),
    {
        Size { x, y }
    }

    /// The zero size.
    pub fn zero() -> (r: Size)
        ensures
            r.x@ == 0,
            r.y@ == 0,
    {
        Size { x: Abs::zero(), y: Abs::zero() }
    }

    /// The componentwise minimum of two sizes.
    pub fn min(self, other: Size) -> (r: Size)
        ensures
            r.x@ == if self.x@ <= other.x@ { self.x@ } else { other.x@ },
            r.y@ == if self.y@ <= other.y@ { self.y@ } else { other.y@ },
    {
        Size { x: self.x.min(other.x), y: self.y.min(other.y) }
    }
}

/// A point in a frame's coordinate space.
#[derive(Clone, Copy, PartialEq, Eq, Structural, Debug, Hash)]
pub struct Point {
    /// The horizontal coordinate.
    pub x: Abs,
    /// The vertical coordinate.
    pub y: Abs,
}

impl Point {
    /// A point from both coordinates.
    pub fn new(x: Abs, y: Abs) -> (r: Point)
        ensures
            r == (Point { x, y }),
    {
        Point { x, y }
    }

    /// The origin.
    pub fn zero() -> (r: Point)
        ensures
            r.x@ == 0,
            r.y@ == 0,
    {
        Point { x: Abs::zero(), y: Abs::zero() }
    }

    /// A point on the horizontal axis.
    pub fn with_x(x: Abs) -> (r: Point)
        ensures
            r.x == x,
            r.y@ == 0,
    {
        Point { x, y: Abs::zero() }
    }
}

/// A pair of values, one per axis.
#[derive(Clone, Copy, PartialEq, Eq, Debug, Hash)]
pub struct Axes<T> {
    /// The horizontal component.
    pub x: T,
    /// The vertical component.
    pub y: T,
}

impl<T> Axes<T> {
    /// A pair from both components.
    pub fn new(x: T, y: T) -> (r: Axes<T>)
        ensures
            r == (Axes { x, y }),
    {
        Axes { x, y }
    }
}

impl<T: Copy> Axes<T> {
    /// The same value on both axes.
    pub fn splat(v: T) -> (r: Axes<T>)
        ensures
            r == (Axes { x: v, y: v }),
    {
        Axes { x: v, y: v }
    }
}

/// An angle, in degrees.
#[derive(Clone, Copy, PartialEq, Eq, Structural, Debug, Hash)]
pub struct Angle {
    /// The number of degrees.
    pub deg: i64,
}

impl Angle {
    /// An angle from degrees.
    pub fn deg(deg: i64) -> (r: Angle)
        ensures
            r == (Angle { deg }),
    {
        Angle { deg }
    }
}

/// A geometric transformation, kept as data: what to apply is recorded,
/// the rendering backend computes the matrices.
#[derive(Debug)]
pub enum Transform {
    /// Move by an offset.
    Translate(Point),
    /// Rotate by an angle.
    Rotate(Angle),
    /// Scale by a factor per axis.
    Scale(Ratio, Ratio),
    /// Apply the second transformation, then the first.
    Then(Box<Transform>, Box<Transform>),
}

impl Transform {
    /// A translation by the given offsets.
    pub fn translate(x: Abs, y: Abs) -> (r: Transform)
        ensures
            r == Transform::Translate(Point { x, y }),
    {
        Transform::Translate(Point { x, y })
    }

    /// A rotation by the given angle.
    pub fn rotate(angle: Angle) -> (r: Transform)
        ensures
            r == Transform::Rotate(angle),
    {
        Transform::Rotate(angle)
    }

    /// A scaling by the given factors.
    pub fn scale(x: Ratio, y: Ratio) -> (r: Transform)
        ensures
            r == Transform::Scale(x, y),
    {
        Transform::Scale(x, y)
    }

    /// This transformation, preceded by another one.
    pub fn pre_concat(self, prior: Transform) -> (r: Transform)
        ensures
            r is Then,
    {
        Transform::Then(Box::new(self), Box::new(prior))
    }
}

/// A writing direction.
#[derive(Clone, Copy, PartialEq, Eq, Structural, Debug, Hash)]
pub enum Dir {
    /// Left to right.
    LTR,
    /// Right to left.
    RTL,
    /// Top to bottom.
    TTB,
    /// Bottom to top.
    BTT,
}

impl Dir {
    /// Whether the direction points along the positive axis.
    pub fn is_positive(self) -> (r: bool)
        ensures
            r == (self == Dir::LTR || self == Dir::TTB),
    {
        match self {
            Dir::LTR | Dir::TTB => true,
            Dir::RTL | Dir::BTT => false,
        }
    }
}

/// The axis a piece of spacing belongs to.
#[derive(Clone, Copy, PartialEq, Eq, Structural, Debug, Hash)]
pub enum GenAxis {
    /// Within a line: horizontal in horizontal writing.
    Inline,
    /// Between blocks: vertical in horizontal writing.
    Block,
}

/// A value that can defer to a smart default.
#[derive(Clone, Copy, PartialEq, Eq, Debug, Hash)]
pub enum Smart<T> {
    /// Let the layouter choose.
    Auto,
    /// Use this value.
    Custom(T),
}

/// Spacing between layout children: either relative or fractional.
#[derive(Clone, Copy, PartialEq, Eq, Structural, Debug, Hash)]
pub enum Spacing {
    /// Spacing of a concrete relative length.
    Rel(Rel),
    /// Spacing claiming a fraction of the leftover space.
    Fr(Fr),
}

} // verus!

//! What is drawn by hand, and how.

use vstd::prelude::*;
use crate::scalar::{Scalar, ONE_BITS};
use crate::scene::Element;
use crate::style::{SketchFillStyle, GAP_BITS, SLANT_BITS, WEIGHT_BITS};

verus! {

/// The bit pattern of `0.7`.
pub const ROUGHNESS_BITS: u64 = 0x3fe6_6666_6666_6666;

/// The bit pattern of `0.5`.
pub const BOWING_BITS: u64 = 0x3fe0_0000_0000_0000;

/// The bit pattern of `12.0`.
pub const CURVE_STEP_BITS: u64 = 0x4028_0000_0000_0000;

/// A kind of element that can be drawn by hand.
///
/// Text, images and groups have none.
#[derive(Debug, Clone, Copy, PartialEq, Eq, Hash, Structural)]
pub enum SketchKind {
    Rect,
    RoundedRect,
    Circle,
    Ellipse,
    Line,
    Polyline,
    Polygon,
    Arc,
    Pie,
    Path,
    GradientPath,
}

impl SketchKind {
    /// The kind of an element.
    pub open spec fn kind_of(el: Element) -> Option<SketchKind> {
        match el {
            Element::Rect { .. } => Some(SketchKind::Rect),
            Element::RoundedRect { .. } => Some(SketchKind::RoundedRect),
            Element::Circle { .. } => Some(SketchKind::Circle),
            Element::Ellipse { .. } => Some(SketchKind::Ellipse),
            Element::Line { .. } => Some(SketchKind::Line),
            Element::Polyline { .. } => Some(SketchKind::Polyline),
            Element::Polygon { .. } => Some(SketchKind::Polygon),
            Element::Arc { .. } => Some(SketchKind::Arc),
            Element::Pie { .. } => Some(SketchKind::Pie),
            Element::Path { .. } => Some(SketchKind::Path),
            Element::GradientPath { .. } => Some(SketchKind::GradientPath),
            _ => None,
        }
    }

    /// The place of the kind in the order of declaration.
    pub open spec fn place(self) -> u16 {
        match self {
            SketchKind::Rect => 0,
            SketchKind::RoundedRect => 1,
            SketchKind::Circle => 2,
            SketchKind::Ellipse => 3,
            SketchKind::Line => 4,
            SketchKind::Polyline => 5,
            SketchKind::Polygon => 6,
            SketchKind::Arc => 7,
            SketchKind::Pie => 8,
            SketchKind::Path => 9,
            SketchKind::GradientPath => 10,
        }
    }

    /// The kind of an element; none where it is never drawn by hand.
    pub fn of(el: &Element) -> (r: Option<SketchKind>)
        ensures
            r == SketchKind::kind_of(*el),
    {
        match el {
            Element::Rect { .. } => Some(SketchKind::Rect),
            Element::RoundedRect { .. } => Some(SketchKind::RoundedRect),
            Element::Circle { .. } => Some(SketchKind::Circle),
            Element::Ellipse { .. } => Some(SketchKind::Ellipse),
            Element::Line { .. } => Some(SketchKind::Line),
            Element::Polyline { .. } => Some(SketchKind::Polyline),
            Element::Polygon { .. } => Some(SketchKind::Polygon),
            Element::Arc { .. } => Some(SketchKind::Arc),
            Element::Pie { .. } => Some(SketchKind::Pie),
            Element::Path { .. } => Some(SketchKind::Path),
            Element::GradientPath { .. } => Some(SketchKind::GradientPath),
            _ => None,
        }
    }

    /// The bit of the kind in a set.
    pub fn bit(self) -> (b: u16)
        ensures
            b == 1u16 << self.place(),
    {
        let place: u16 = match self {
            SketchKind::Rect => 0,
            SketchKind::RoundedRect => 1,
            SketchKind::Circle => 2,
            SketchKind::Ellipse => 3,
            SketchKind::Line => 4,
            SketchKind::Polyline => 5,
            SketchKind::Polygon => 6,
            SketchKind::Arc => 7,
            SketchKind::Pie => 8,
            SketchKind::Path => 9,
            SketchKind::GradientPath => 10,
        };
        1u16 << place
    }
}

/// A set of kinds.
#[derive(Debug, Clone, Copy, PartialEq, Eq, Structural)]
pub struct SketchKinds {
    pub bits: u16,
}

/// The bits of all kinds.
pub const ALL_KINDS: u16 = 0b0000_0111_1111_1111;

impl SketchKinds {
    /// The kind is in the set.
    pub open spec fn has(self, kind: SketchKind) -> bool {
        self.bits & (1u16 << kind.place()) != 0
    }

    /// The empty set.
    pub fn none() -> (r: SketchKinds)
        ensures
            forall|k: SketchKind| !r.has(k),
            r.bits == 0,
            r.bits & ALL_KINDS == r.bits,
    {
        let r = SketchKinds { bits: 0 };
        assert(0u16 & 0b0000_0111_1111_1111u16 == 0) by (bit_vector);
        assert forall|k: SketchKind| !r.has(k) by {
            let p = k.place();
            assert(0u16 & (1u16 << p) == 0) by (bit_vector);
        }
        r
    }

    /// The set of all kinds.
    pub fn all() -> (r: SketchKinds)
        ensures
            forall|k: SketchKind| r.has(k),
            r.bits == ALL_KINDS,
            r.bits & ALL_KINDS == r.bits,
    {
        let r = SketchKinds { bits: ALL_KINDS };
        assert(0b0000_0111_1111_1111u16 & 0b0000_0111_1111_1111u16 == 0b0000_0111_1111_1111u16)
            by (bit_vector);
        assert forall|k: SketchKind| r.has(k) by {
            let p = k.place();
            assert(0b0000_0111_1111_1111u16 & (1u16 << p) != 0) by (bit_vector)
                requires
                    p <= 10,
            ;
        }
        r
    }

    /// The set of the given kinds.
    pub fn only(kinds: &[SketchKind]) -> (r: SketchKinds)
        ensures
            forall|k: SketchKind| r.has(k) <==> kinds@.contains(k),
            r.bits & ALL_KINDS == r.bits,
    {
        let mut r = SketchKinds::none();
        let mut i: usize = 0;
        while i < kinds.len()
            invariant
                i <= kinds@.len(),
                r.bits & ALL_KINDS == r.bits,
                forall|k: SketchKind| r.has(k) <==> kinds@.take(i as int).contains(k),
            decreases kinds.len() - i,
        {
            r = r.with(kinds[i]);
            i += 1;
            assert forall|k: SketchKind| r.has(k) <==> kinds@.take(i as int).contains(k) by {
                let old_take = kinds@.take(i - 1);
                let new_take = kinds@.take(i as int);
                if old_take.contains(k) {
                    let j = choose|j: int| 0 <= j < old_take.len() && old_take[j] == k;
                    assert(new_take[j] == k);
                }
                if k == kinds@[i - 1] {
                    assert(new_take[i - 1] == k);
                }
                if new_take.contains(k) {
                    let j = choose|j: int| 0 <= j < new_take.len() && new_take[j] == k;
                    if j < i - 1 {
                        assert(old_take[j] == k);
                    }
                }
            }
        }
        assert(kinds@.take(kinds@.len() as int) =~= kinds@);
        r
    }

    /// The set with a kind more.
    pub fn with(self, kind: SketchKind) -> (r: SketchKinds)
        ensures
            r.bits == self.bits | (1u16 << kind.place()),
            forall|k: SketchKind| r.has(k) <==> (self.has(k) || k == kind),
            self.bits & ALL_KINDS == self.bits ==> r.bits & ALL_KINDS == r.bits,
    {
        let r = SketchKinds { bits: self.bits | kind.bit() };
        proof {
            let b = self.bits;
            let p = kind.place();
            assert(b & 0b0000_0111_1111_1111u16 == b ==> (b | (1u16 << p))
                & 0b0000_0111_1111_1111u16 == b | (1u16 << p)) by (bit_vector)
                requires
                    p <= 10,
            ;
        }
        assert forall|k: SketchKind| r.has(k) <==> (self.has(k) || k == kind) by {
            let b = self.bits;
            let p = kind.place();
            let q = k.place();
            assert((b | (1u16 << p)) & (1u16 << q) != 0 <==> (b & (1u16 << q) != 0 || p == q))
                by (bit_vector)
                requires
                    p <= 10,
                    q <= 10,
            ;
        }
        r
    }

    /// The set without a kind.
    pub fn without(self, kind: SketchKind) -> (r: SketchKinds)
        ensures
            r.bits == self.bits & !(1u16 << kind.place()),
            forall|k: SketchKind| r.has(k) <==> (self.has(k) && k != kind),
            self.bits & ALL_KINDS == self.bits ==> r.bits & ALL_KINDS == r.bits,
    {
        let r = SketchKinds { bits: self.bits & !kind.bit() };
        proof {
            let b = self.bits;
            let p = kind.place();
            assert(b & 0b0000_0111_1111_1111u16 == b ==> (b & !(1u16 << p))
                & 0b0000_0111_1111_1111u16 == b & !(1u16 << p)) by (bit_vector)
                requires
                    p <= 10,
            ;
        }
        assert forall|k: SketchKind| r.has(k) <==> (self.has(k) && k != kind) by {
            let b = self.bits;
            let p = kind.place();
            let q = k.place();
            assert((b & !(1u16 << p)) & (1u16 << q) != 0 <==> (b & (1u16 << q) != 0 && p != q))
                by (bit_vector)
                requires
                    p <= 10,
                    q <= 10,
            ;
        }
        r
    }

    /// Whether the kind is in the set.
    pub fn contains(self, kind: SketchKind) -> (r: bool)
        ensures
            r == self.has(kind),
    {
        self.bits & kind.bit() != 0
    }

    /// Whether no bit is set.
    pub fn is_empty(self) -> (r: bool)
        ensures
            r == (self.bits == 0),
            r ==> forall|k: SketchKind| !self.has(k),
            self.bits & ALL_KINDS == self.bits && !r ==> exists|k: SketchKind| self.has(k),
    {
        let r = self.bits == 0;
        proof {
            if r {
                assert forall|k: SketchKind| !self.has(k) by {
                    let p = k.place();
                    assert(0u16 & (1u16 << p) == 0) by (bit_vector);
                }
            } else if self.bits & ALL_KINDS == self.bits {
                lemma_some_bit(self.bits);
                assert(self.has(SketchKind::Rect) || self.has(SketchKind::RoundedRect) || self.has(
                    SketchKind::Circle,
                ) || self.has(SketchKind::Ellipse) || self.has(SketchKind::Line) || self.has(
                    SketchKind::Polyline,
                ) || self.has(SketchKind::Polygon) || self.has(SketchKind::Arc) || self.has(
                    SketchKind::Pie,
                ) || self.has(SketchKind::Path) || self.has(SketchKind::GradientPath));
            }
        }
        r
    }
}

/// Two sets of kinds with the same members are the same set.
pub proof fn law_members_make_the_set(a: SketchKinds, b: SketchKinds)
    requires
        a.bits & ALL_KINDS == a.bits,
        b.bits & ALL_KINDS == b.bits,
        forall|k: SketchKind| a.has(k) <==> b.has(k),
    ensures
        a == b,
{
    assert(a.has(SketchKind::Rect) == b.has(SketchKind::Rect));
    assert(a.has(SketchKind::RoundedRect) == b.has(SketchKind::RoundedRect));
    assert(a.has(SketchKind::Circle) == b.has(SketchKind::Circle));
    assert(a.has(SketchKind::Ellipse) == b.has(SketchKind::Ellipse));
    assert(a.has(SketchKind::Line) == b.has(SketchKind::Line));
    assert(a.has(SketchKind::Polyline) == b.has(SketchKind::Polyline));
    assert(a.has(SketchKind::Polygon) == b.has(SketchKind::Polygon));
    assert(a.has(SketchKind::Arc) == b.has(SketchKind::Arc));
    assert(a.has(SketchKind::Pie) == b.has(SketchKind::Pie));
    assert(a.has(SketchKind::Path) == b.has(SketchKind::Path));
    assert(a.has(SketchKind::GradientPath) == b.has(SketchKind::GradientPath));
    let x = a.bits;
    let y = b.bits;
    assert(x == y) by (bit_vector)
        requires
            x & 0b0000_0111_1111_1111u16 == x,
            y & 0b0000_0111_1111_1111u16 == y,
            (x & (1u16 << 0u16) != 0) == (y & (1u16 << 0u16) != 0),
            (x & (1u16 << 1u16) != 0) == (y & (1u16 << 1u16) != 0),
            (x & (1u16 << 2u16) != 0) == (y & (1u16 << 2u16) != 0),
            (x & (1u16 << 3u16) != 0) == (y & (1u16 << 3u16) != 0),
            (x & (1u16 << 4u16) != 0) == (y & (1u16 << 4u16) != 0),
            (x & (1u16 << 5u16) != 0) == (y & (1u16 << 5u16) != 0),
            (x & (1u16 << 6u16) != 0) == (y & (1u16 << 6u16) != 0),
            (x & (1u16 << 7u16) != 0) == (y & (1u16 << 7u16) != 0),
            (x & (1u16 << 8u16) != 0) == (y & (1u16 << 8u16) != 0),
            (x & (1u16 << 9u16) != 0) == (y & (1u16 << 9u16) != 0),
            (x & (1u16 << 10u16) != 0) == (y & (1u16 << 10u16) != 0),
    ;
}

proof fn lemma_some_bit(b: u16)
    requires
        b != 0,
        b & ALL_KINDS == b,
    ensures
        b & (1u16 << 0u16) != 0 || b & (1u16 << 1u16) != 0 || b & (1u16 << 2u16) != 0 || b & (1u16
            << 3u16) != 0 || b & (1u16 << 4u16) != 0 || b & (1u16 << 5u16) != 0 || b & (1u16
            << 6u16) != 0 || b & (1u16 << 7u16) != 0 || b & (1u16 << 8u16) != 0 || b & (1u16
            << 9u16) != 0 || b & (1u16 << 10u16) != 0,
{
    assert(b & (1u16 << 0u16) != 0 || b & (1u16 << 1u16) != 0 || b & (1u16 << 2u16) != 0 || b & (
    1u16 << 3u16) != 0 || b & (1u16 << 4u16) != 0 || b & (1u16 << 5u16) != 0 || b & (1u16 << 6u16)
        != 0 || b & (1u16 << 7u16) != 0 || b & (1u16 << 8u16) != 0 || b & (1u16 << 9u16) != 0 || b
        & (1u16 << 10u16) != 0) by (bit_vector)
        requires
            b != 0,
            b & 0b0000_0111_1111_1111u16 == b,
    ;
}

impl Default for SketchKinds {
    fn default() -> (r: SketchKinds)
        ensures
            r.bits == ALL_KINDS,
    {
        SketchKinds::all()
    }
}

/// How a scene is drawn by hand.
#[derive(Debug, Clone, Copy, PartialEq, Eq, Structural)]
pub struct SketchOptions {
    /// Scales the jitter; 0 keeps the geometry.
    pub roughness: Scalar,
    /// How much lines bend.
    pub bowing: Scalar,
    /// Seed of the generator; `None` seeds it from the time.
    pub seed: Option<u64>,
    /// Whether each line is drawn twice.
    pub multistroke: bool,
    /// Distance between samples of a curve.
    pub curve_step: Scalar,
    pub kinds: SketchKinds,
    /// Whether a shape with a fill and no stroke gets an outline in the color of its fill.
    pub outline_when_unstroked: bool,
    /// Width of that outline.
    pub outline_width: Scalar,
    /// How fills are drawn; `None` keeps them.
    pub fill: Option<SketchFillStyle>,
    /// Fills of a smaller area are kept; `None` draws all.
    pub min_fill_area: Option<Scalar>,
    /// Direction of the lines of a fill in degrees.
    pub fill_angle: Scalar,
    /// Distance between the lines of a fill.
    pub fill_gap: Scalar,
    /// Width of the lines of a fill.
    pub fill_weight: Scalar,
    /// Largest number of lines in a fill.
    pub max_fill_strokes: usize,
}

/// The default options.
pub open spec fn default_options() -> SketchOptions {
    SketchOptions {
        roughness: Scalar { bits: ROUGHNESS_BITS },
        bowing: Scalar { bits: BOWING_BITS },
        seed: None,
        multistroke: true,
        curve_step: Scalar { bits: CURVE_STEP_BITS },
        kinds: SketchKinds { bits: ALL_KINDS },
        outline_when_unstroked: true,
        outline_width: Scalar { bits: ONE_BITS },
        fill: None,
        min_fill_area: None,
        fill_angle: Scalar { bits: SLANT_BITS },
        fill_gap: Scalar { bits: GAP_BITS },
        fill_weight: Scalar { bits: WEIGHT_BITS },
        max_fill_strokes: 2000,
    }
}

impl Default for SketchOptions {
    fn default() -> (r: SketchOptions)
        ensures
            r == default_options(),
    {
        SketchOptions {
            roughness: Scalar { bits: ROUGHNESS_BITS },
            bowing: Scalar { bits: BOWING_BITS },
            seed: None,
            multistroke: true,
            curve_step: Scalar { bits: CURVE_STEP_BITS },
            kinds: SketchKinds { bits: ALL_KINDS },
            outline_when_unstroked: true,
            outline_width: Scalar { bits: ONE_BITS },
            fill: None,
            min_fill_area: None,
            fill_angle: Scalar { bits: SLANT_BITS },
            fill_gap: Scalar { bits: GAP_BITS },
            fill_weight: Scalar { bits: WEIGHT_BITS },
            max_fill_strokes: 2000,
        }
    }
}

impl SketchOptions {
    pub fn new() -> (r: SketchOptions)
        ensures
            r == default_options(),
    {
        SketchOptions::default()
    }

    /// Sets the roughness, at least 0.
    pub fn with_roughness(self, roughness: Scalar) -> (r: SketchOptions)
        ensures
            r == (SketchOptions { roughness: roughness.greatest(Scalar { bits: 0 }), ..self }),
    {
        SketchOptions { roughness: roughness.max(Scalar { bits: 0 }), ..self }
    }

    pub fn with_bowing(self, bowing: Scalar) -> (r: SketchOptions)
        ensures
            r == (SketchOptions { bowing, ..self }),
    {
        SketchOptions { bowing, ..self }
    }

    pub fn with_seed(self, seed: u64) -> (r: SketchOptions)
        ensures
            r == (SketchOptions { seed: Some(seed), ..self }),
    {
        SketchOptions { seed: Some(seed), ..self }
    }

    pub fn with_multistroke(self, multistroke: bool) -> (r: SketchOptions)
        ensures
            r == (SketchOptions { multistroke, ..self }),
    {
        SketchOptions { multistroke, ..self }
    }

    /// Sets the distance between samples, at least 0.5.
    pub fn with_curve_step(self, step: Scalar) -> (r: SketchOptions)
        ensures
            r == (SketchOptions { curve_step: step.greatest(Scalar { bits: BOWING_BITS }), ..self }),
    {
        SketchOptions { curve_step: step.max(Scalar { bits: BOWING_BITS }), ..self }
    }

    pub fn with_kinds(self, kinds: SketchKinds) -> (r: SketchOptions)
        ensures
            r == (SketchOptions { kinds, ..self }),
    {
        SketchOptions { kinds, ..self }
    }

    pub fn with_outline_when_unstroked(self, on: bool) -> (r: SketchOptions)
        ensures
            r == (SketchOptions { outline_when_unstroked: on, ..self }),
    {
        SketchOptions { outline_when_unstroked: on, ..self }
    }

    pub fn with_fill(self, style: SketchFillStyle) -> (r: SketchOptions)
        ensures
            r == (SketchOptions { fill: Some(style), ..self }),
    {
        SketchOptions { fill: Some(style), ..self }
    }

    /// Sets the area below which fills are kept, at least 0.
    pub fn with_min_fill_area(self, area: Scalar) -> (r: SketchOptions)
        ensures
            r == (SketchOptions {
                min_fill_area: Some(area.greatest(Scalar { bits: 0 })),
                ..self
            }),
    {
        SketchOptions { min_fill_area: Some(area.max(Scalar { bits: 0 })), ..self }
    }

    pub fn with_fill_angle(self, angle: Scalar) -> (r: SketchOptions)
        ensures
            r == (SketchOptions { fill_angle: angle, ..self }),
    {
        SketchOptions { fill_angle: angle, ..self }
    }

    pub fn with_fill_gap(self, gap: Scalar) -> (r: SketchOptions)
        ensures
            r == (SketchOptions { fill_gap: gap, ..self }),
    {
        SketchOptions { fill_gap: gap, ..self }
    }

    pub fn with_fill_weight(self, weight: Scalar) -> (r: SketchOptions)
        ensures
            r == (SketchOptions { fill_weight: weight, ..self }),
    {
        SketchOptions { fill_weight: weight, ..self }
    }

    /// Sets the largest number of lines in a fill, at least 1.
    pub fn with_max_fill_strokes(self, max: usize) -> (r: SketchOptions)
        ensures
            r == (SketchOptions {
                max_fill_strokes: if max == 0 {
                    1
                } else {
                    max
                },
                ..self
            }),
    {
        SketchOptions {
            max_fill_strokes: if max == 0 {
                1
            } else {
                max
            },
            ..self
        }
    }
}

} // verus!

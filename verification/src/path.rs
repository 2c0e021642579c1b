//! Bézier paths.

use vstd::prelude::*;
use crate::geometry::{Point, Transform};

verus! {

/// A step of a path.
#[derive(Debug, Clone, Copy, PartialEq, Eq, Structural)]
pub enum PathEl {
    MoveTo(Point),
    LineTo(Point),
    /// Control point, end point.
    QuadTo(Point, Point),
    /// Two control points, end point.
    CurveTo(Point, Point, Point),
    ClosePath,
}

impl PathEl {
    /// Where the step ends; closing a path names no point.
    pub open spec fn end(self) -> Option<Point> {
        match self {
            PathEl::MoveTo(p) => Some(p),
            PathEl::LineTo(p) => Some(p),
            PathEl::QuadTo(_, p) => Some(p),
            PathEl::CurveTo(_, _, p) => Some(p),
            PathEl::ClosePath => None,
        }
    }
}

/// A path of lines and Bézier curves.
#[derive(Debug, PartialEq)]
pub struct BezPath {
    pub els: Vec<PathEl>,
}

impl View for BezPath {
    type V = Seq<PathEl>;

    open spec fn view(&self) -> Seq<PathEl> {
        self.els@
    }
}

/// The end of the last step that names a point.
pub open spec fn last_point(els: Seq<PathEl>) -> Option<Point>
    decreases els.len(),
{
    if els.len() == 0 {
        None
    } else if els.last().end() is Some {
        els.last().end()
    } else {
        last_point(els.drop_last())
    }
}

impl BezPath {
    /// The empty path.
    pub fn new() -> (p: BezPath)
        ensures
            p@ == Seq::<PathEl>::empty(),
    {
        BezPath { els: Vec::new() }
    }

    /// The path of the given steps.
    pub fn from_vec(els: Vec<PathEl>) -> (p: BezPath)
        ensures
            p@ == els@,
    {
        BezPath { els }
    }

    /// The steps.
    pub fn elements(&self) -> (els: &[PathEl])
        ensures
            els@ == self@,
    {
        self.els.as_slice()
    }

    /// Whether there is no step.
    pub fn is_empty(&self) -> (r: bool)
        ensures
            r == (self@.len() == 0),
    {
        self.els.len() == 0
    }

    /// Appends a step.
    pub fn push(&mut self, el: PathEl)
        ensures
            final(self)@ == old(self)@.push(el),
    {
        self.els.push(el);
    }

    /// Appends the steps of another path.
    pub fn extend(&mut self, other: &BezPath)
        ensures
            final(self)@ == old(self)@ + other@,
    {
        let ghost start = self.els@;
        let mut i: usize = 0;
        while i < other.els.len()
            invariant
                i <= other@.len(),
                self.els@ == start + other@.take(i as int),
            decreases other.els.len() - i,
        {
            self.els.push(other.els[i]);
            i += 1;
            assert(self.els@ =~= start + other@.take(i as int));
        }
        assert(other@.take(other@.len() as int) =~= other@);
    }

    /// The end of the last step that names a point.
    pub fn current_point(&self) -> (p: Option<Point>)
        ensures
            p == last_point(self@),
    {
        let mut n: usize = self.els.len();
        assert(self@.take(n as int) =~= self@);
        while n > 0
            invariant
                n <= self@.len(),
                last_point(self@) == last_point(self@.take(n as int)),
            decreases n,
        {
            assert(self@.take(n as int).drop_last() =~= self@.take(n - 1));
            match self.els[n - 1] {
                PathEl::MoveTo(p) => {
                    return Some(p);
                },
                PathEl::LineTo(p) => {
                    return Some(p);
                },
                PathEl::QuadTo(_, p) => {
                    return Some(p);
                },
                PathEl::CurveTo(_, _, p) => {
                    return Some(p);
                },
                PathEl::ClosePath => {},
            }
            n -= 1;
        }
        None
    }
}

/// The element with its points moved by a transform.
pub open spec fn moved_el(t: Transform, el: PathEl) -> PathEl {
    match el {
        PathEl::MoveTo(p) => PathEl::MoveTo(t.image(p)),
        PathEl::LineTo(p) => PathEl::LineTo(t.image(p)),
        PathEl::QuadTo(a, p) => PathEl::QuadTo(t.image(a), t.image(p)),
        PathEl::CurveTo(a, b, p) => PathEl::CurveTo(t.image(a), t.image(b), t.image(p)),
        PathEl::ClosePath => PathEl::ClosePath,
    }
}

/// The elements with their points moved by a transform.
pub open spec fn moved_els(t: Transform, els: Seq<PathEl>) -> Seq<PathEl> {
    Seq::new(els.len(), |i: int| moved_el(t, els[i]))
}

impl BezPath {
    /// The path with its points moved by a transform.
    pub fn transformed(&self, t: &Transform) -> (r: BezPath)
        ensures
            r@ == moved_els(*t, self@),
    {
        let mut els: Vec<PathEl> = Vec::new();
        let mut i: usize = 0;
        while i < self.els.len()
            invariant
                i <= self.els@.len(),
                els@ == moved_els(*t, self@).take(i as int),
            decreases self.els.len() - i,
        {
            let el = match self.els[i] {
                PathEl::MoveTo(p) => PathEl::MoveTo(t.apply_point(p)),
                PathEl::LineTo(p) => PathEl::LineTo(t.apply_point(p)),
                PathEl::QuadTo(a, p) => PathEl::QuadTo(t.apply_point(a), t.apply_point(p)),
                PathEl::CurveTo(a, b, p) => PathEl::CurveTo(
                    t.apply_point(a),
                    t.apply_point(b),
                    t.apply_point(p),
                ),
                PathEl::ClosePath => PathEl::ClosePath,
            };
            els.push(el);
            i += 1;
            assert(els@ =~= moved_els(*t, self@).take(i as int));
        }
        assert(els@ =~= moved_els(*t, self@));
        BezPath { els }
    }
}

impl Clone for BezPath {
    fn clone(&self) -> (p: BezPath)
        ensures
            p@ == self@,
    {
        let mut p = BezPath::new();
        p.extend(self);
        assert(p@ =~= self@);
        p
    }
}

} // verus!

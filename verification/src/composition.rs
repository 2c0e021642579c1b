//! Composed transforms up to rounding.
//!
//! A composition applied to a point, and its two parts applied one after the other, round at
//! different places. Both stay near the exact image, and so near each other.

use vstd::prelude::*;
use vstd::math::abs;
use crate::accuracy;
use crate::accuracy::PARTS;
use crate::digits;
use crate::geometry::{Point, Transform};
use crate::laws;
use crate::scalar::{Scalar, FRACTION_RANGE};

verus! {

/// The number of units in `1.0`.
pub open spec fn unit() -> nat {
    digits::two_pow(1074)
}

/// Half of the smallest positive number, `2^-1075`, in parts of `2^-2201`.
pub open spec fn least() -> nat {
    unit() * (FRACTION_RANGE as nat)
}

/// `v / k` is `x` up to `c` parts in `2^53` of `s`, a bound of `x`, and `t` parts of one.
pub open spec fn near(v: int, k: nat, x: int, s: nat, c: nat, t: nat) -> bool {
    &&& abs(x) <= s
    &&& abs(v * k - x) * PARTS <= c * s + t
}

pub proof fn lemma_abs_mul(x: int, y: int)
    ensures
        abs(x * y) == abs(x) * abs(y),
{
    let p = abs(x);
    let q = abs(y);
    assert(x * y == p * q || x * y == -(p * q)) by (nonlinear_arith)
        requires
            x == p || x == -p,
            y == q || y == -q,
    ;
    assert(p * q >= 0) by (nonlinear_arith);
}

/// The difference from the exact value is itself bounded.
pub proof fn lemma_near_bound(v: int, k: nat, x: int, s: nat, c: nat, t: nat)
    requires
        near(v, k, x, s, c, t),
        c <= PARTS,
    ensures
        abs(v * k) <= 2 * s + t,
{
    let d = abs(v * k - x);
    assert(d <= s + t) by (nonlinear_arith)
        requires
            d * PARTS <= c * s + t,
            c <= PARTS,
            PARTS == 0x20_0000_0000_0000,
            s >= 0,
            t >= 0,
    ;
}

/// A number is near itself.
pub proof fn lemma_near_self(v: int)
    ensures
        near(v, 1, v, abs(v), 0, 0),
{
    assert(v * 1 == v);
    assert(0 * abs(v) == 0);
    assert(0 * PARTS == 0);
}

/// A larger bound of the error.
pub proof fn lemma_near_weaker(v: int, k: nat, x: int, s: nat, c: nat, t: nat, more: nat)
    requires
        near(v, k, x, s, c, t),
        c <= more,
    ensures
        near(v, k, x, s, more, t),
{
    assert(c * s <= more * s) by (nonlinear_arith)
        requires
            c <= more,
            s >= 0,
    ;
}

/// A finer scale.
pub proof fn lemma_near_scaled(v: int, k: nat, x: int, s: nat, c: nat, t: nat, m: nat)
    requires
        near(v, k, x, s, c, t),
    ensures
        near(v, k * m, x * m, s * m, c, t * m),
{
    let d = v * k - x;
    assert(v * (k * m) - x * m == d * m) by (nonlinear_arith)
        requires
            d == v * k - x,
    ;
    lemma_abs_mul(d, m as int);
    lemma_abs_mul(x, m as int);
    assert(abs(x) * m <= s * m) by (nonlinear_arith)
        requires
            abs(x) <= s,
            m >= 0,
    ;
    assert((abs(d) * m) * PARTS <= c * (s * m) + t * m) by (nonlinear_arith)
        requires
            abs(d) * PARTS <= c * s + t,
            m >= 0,
    ;
}

/// Adds two numbers at one scale.
pub proof fn lemma_near_sum(
    a: Scalar,
    b: Scalar,
    k: nat,
    x: (int, int),
    s: (nat, nat),
    c: nat,
    t: (nat, nat),
)
    requires
        a.sum(b).finite(),
        near(a.units(), k, x.0, s.0, c, t.0),
        near(b.units(), k, x.1, s.1, c, t.1),
        c <= PARTS,
    ensures
        a.finite(),
        b.finite(),
        near(a.sum(b).units(), k, x.0 + x.1, s.0 + s.1, c + 2, 2 * (t.0 + t.1)),
{
    accuracy::law_sum_error(a, b);
    let r = a.sum(b).units();
    let v = a.units() + b.units();
    let e = x.0 + x.1;
    let m = s.0 + s.1;
    let u = t.0 + t.1;
    let d0 = a.units() * k - x.0;
    let d1 = b.units() * k - x.1;
    let d = v * k - e;
    assert(d == d0 + d1) by (nonlinear_arith)
        requires
            d == v * k - e,
            v == a.units() + b.units(),
            d0 == a.units() * k - x.0,
            d1 == b.units() * k - x.1,
            e == x.0 + x.1,
    ;
    assert(abs(d) * PARTS <= c * m + u) by (nonlinear_arith)
        requires
            abs(d) <= abs(d0) + abs(d1),
            abs(d0) * PARTS <= c * s.0 + t.0,
            abs(d1) * PARTS <= c * s.1 + t.1,
            m == s.0 + s.1,
            u == t.0 + t.1,
    ;
    lemma_near_bound(v, k, e, m, c, u);
    lemma_abs_mul(v, k as int);
    let g = r - v;
    lemma_abs_mul(g, PARTS as int);
    lemma_abs_mul(g, k as int);
    let f = r * k - e;
    assert(f == g * k + d) by (nonlinear_arith)
        requires
            f == r * k - e,
            g == r - v,
            d == v * k - e,
    ;
    assert(abs(f) * PARTS <= (abs(g) * PARTS) * k + abs(d) * PARTS) by (nonlinear_arith)
        requires
            abs(f) <= abs(g) * k + abs(d),
    ;
    assert((abs(g) * PARTS) * k <= abs(v) * k) by (nonlinear_arith)
        requires
            abs(g) * PARTS <= abs(v),
            k >= 0,
    ;
    assert((c + 2) * m == c * m + 2 * m) by (nonlinear_arith);
}

/// Multiplies by a number.
pub proof fn lemma_near_product(a: Scalar, b: Scalar, k: nat, x: int, s: nat, c: nat, t: nat)
    requires
        a.product(b).finite(),
        near(a.units(), k, x, s, c, t),
        c <= PARTS,
    ensures
        a.finite(),
        b.finite(),
        near(
            a.product(b).units(),
            k * unit(),
            x * b.units(),
            s * abs(b.units()),
            c + 2,
            k * least() + 2 * (t * abs(b.units())),
        ),
{
    accuracy::law_product_error(a, b);
    let u = unit();
    let r = a.product(b).units();
    let v = a.units();
    let w = b.units();
    let z = abs(w);
    let d = v * k - x;
    let g = r * u - v * w;
    let q = least();
    lemma_near_bound(v, k, x, s, c, t);
    lemma_abs_mul(x, w);
    lemma_abs_mul(v, w);
    lemma_abs_mul(v, k as int);
    lemma_abs_mul(g, PARTS as int);
    lemma_abs_mul(g, k as int);
    lemma_abs_mul(d, w);
    assert(abs(x) * z <= s * z) by (nonlinear_arith)
        requires
            abs(x) <= s,
            z >= 0,
    ;
    let f = r * (k * u) - x * w;
    assert(f == g * k + d * w) by (nonlinear_arith)
        requires
            f == r * (k * u) - x * w,
            g == r * u - v * w,
            d == v * k - x,
    ;
    assert(abs(f) * PARTS <= (abs(g) * PARTS) * k + (abs(d) * PARTS) * z) by (nonlinear_arith)
        requires
            abs(f) <= abs(g) * k + abs(d) * z,
    ;
    assert((abs(g) * PARTS) * k <= (abs(v) * k) * z + k * q) by (nonlinear_arith)
        requires
            abs(g) * PARTS <= abs(v) * z + q,
            k >= 0,
    ;
    assert((abs(v) * k) * z <= (2 * s + t) * z) by (nonlinear_arith)
        requires
            abs(v) * k <= 2 * s + t,
            z >= 0,
    ;
    assert((abs(d) * PARTS) * z <= (c * s + t) * z) by (nonlinear_arith)
        requires
            abs(d) * PARTS <= c * s + t,
            z >= 0,
    ;
    assert((2 * s + t) * z + (c * s + t) * z == (c + 2) * (s * z) + 2 * (t * z))
        by (nonlinear_arith);
}

/// The sum of two products.
pub proof fn lemma_pair(a: Scalar, x: Scalar, c: Scalar, y: Scalar)
    requires
        a.product(x).sum(c.product(y)).finite(),
    ensures
        near(
            a.product(x).sum(c.product(y)).units(),
            unit(),
            a.units() * x.units() + c.units() * y.units(),
            abs(a.units()) * abs(x.units()) + abs(c.units()) * abs(y.units()),
            4,
            4 * least(),
        ),
{
    accuracy::law_sum_error(a.product(x), c.product(y));
    lemma_near_self(a.units());
    lemma_near_self(c.units());
    lemma_near_product(a, x, 1, a.units(), abs(a.units()), 0, 0);
    lemma_near_product(c, y, 1, c.units(), abs(c.units()), 0, 0);
    assert(1 * unit() == unit() && 1 * least() == least());
    assert(0 * abs(x.units()) == 0 && 0 * abs(y.units()) == 0);
    lemma_near_sum(
        a.product(x),
        c.product(y),
        unit(),
        (a.units() * x.units(), c.units() * y.units()),
        (abs(a.units()) * abs(x.units()), abs(c.units()) * abs(y.units())),
        2,
        (least(), least()),
    );
}

/// One coordinate of the image of a point, by the row `(a, c, e)` of a transform.
pub open spec fn row(a: Scalar, c: Scalar, e: Scalar, x: Scalar, y: Scalar) -> Scalar {
    a.product(x).sum(c.product(y)).sum(e)
}

/// The exact value of a coordinate, in parts of `2^-2148`.
pub open spec fn exact_row(a: Scalar, c: Scalar, e: Scalar, x: Scalar, y: Scalar) -> int {
    a.units() * x.units() + c.units() * y.units() + e.units() * unit()
}

/// The sum of the absolute values of the terms of a coordinate, in parts of `2^-2148`.
pub open spec fn row_terms(a: Scalar, c: Scalar, e: Scalar, x: Scalar, y: Scalar) -> nat {
    abs(a.units()) * abs(x.units()) + abs(c.units()) * abs(y.units()) + abs(e.units()) * unit()
}

/// A coordinate is near its exact value.
pub proof fn lemma_row(a: Scalar, c: Scalar, e: Scalar, x: Scalar, y: Scalar)
    requires
        row(a, c, e, x, y).finite(),
    ensures
        near(
            row(a, c, e, x, y).units(),
            unit(),
            exact_row(a, c, e, x, y),
            row_terms(a, c, e, x, y),
            6,
            8 * least(),
        ),
{
    let s = a.product(x).sum(c.product(y));
    accuracy::law_sum_error(s, e);
    lemma_pair(a, x, c, y);
    lemma_near_self(e.units());
    lemma_near_scaled(e.units(), 1, e.units(), abs(e.units()), 0, 0, unit());
    assert(1 * unit() == unit() && 0 * unit() == 0);
    lemma_near_weaker(
        e.units(),
        unit(),
        e.units() * unit(),
        abs(e.units()) * unit(),
        0,
        0,
        4,
    );
    lemma_near_sum(
        s,
        e,
        unit(),
        (a.units() * x.units() + c.units() * y.units(), e.units() * unit()),
        (
            abs(a.units()) * abs(x.units()) + abs(c.units()) * abs(y.units()),
            abs(e.units()) * unit(),
        ),
        4,
        (4 * least(), 0),
    );
}

/// What the absolute slack of a second step comes to.
pub open spec fn slack(t: nat, v: nat, w: nat, e: nat) -> nat {
    2 * (2 * ((unit() * least() + 2 * (t * v)) + (unit() * least() + 2 * (t * w))) + e)
}

/// A coordinate that is computed from rounded values is near its exact value.
proof fn lemma_second(
    a: Scalar,
    c: Scalar,
    e: Scalar,
    v: Scalar,
    w: Scalar,
    x: (int, int, int),
    s: (nat, nat, nat),
    k: nat,
    t: nat,
    te: nat,
)
    requires
        row(a, c, e, v, w).finite(),
        near(a.units(), unit(), x.0, s.0, k, t),
        near(c.units(), unit(), x.1, s.1, k, t),
        near(e.units(), unit() * unit(), x.2, s.2, k + 4, te),
        k <= 100,
    ensures
        near(
            row(a, c, e, v, w).units(),
            unit() * unit(),
            x.0 * v.units() + x.1 * w.units() + x.2,
            s.0 * abs(v.units()) + s.1 * abs(w.units()) + s.2,
            k + 6,
            slack(t, abs(v.units()), abs(w.units()), te),
        ),
{
    let p = a.product(v);
    let q = c.product(w);
    accuracy::law_sum_error(p.sum(q), e);
    accuracy::law_sum_error(p, q);
    lemma_near_product(a, v, unit(), x.0, s.0, k, t);
    lemma_near_product(c, w, unit(), x.1, s.1, k, t);
    let xs = (x.0 * v.units(), x.1 * w.units());
    let ss = (s.0 * abs(v.units()), s.1 * abs(w.units()));
    let ts = (
        unit() * least() + 2 * (t * abs(v.units())),
        unit() * least() + 2 * (t * abs(w.units())),
    );
    lemma_near_sum(p, q, unit() * unit(), xs, ss, k + 2, ts);
    lemma_near_sum(
        p.sum(q),
        e,
        unit() * unit(),
        (xs.0 + xs.1, x.2),
        (ss.0 + ss.1, s.2),
        k + 4,
        (2 * (ts.0 + ts.1), te),
    );
}

/// The sum of the absolute values of the terms of a coordinate after two transforms, in parts of
/// `2^-3222`.
pub open spec fn terms(a: Scalar, c: Scalar, e: Scalar, t: Transform, p: Point) -> nat {
    row_terms(t.a, t.c, t.e, p.x, p.y) * abs(a.units()) + row_terms(t.b, t.d, t.f, p.x, p.y) * abs(
        c.units(),
    ) + abs(e.units()) * (unit() * unit())
}

/// The row `(a, c, e)` of a transform after the transform `t`.
pub open spec fn composed_row(a: Scalar, c: Scalar, e: Scalar, t: Transform) -> (
    Scalar,
    Scalar,
    Scalar,
) {
    (
        a.product(t.a).sum(c.product(t.b)),
        a.product(t.c).sum(c.product(t.d)),
        row(a, c, e, t.e, t.f),
    )
}

/// The coordinate by a composed row.
pub open spec fn at_once(a: Scalar, c: Scalar, e: Scalar, t: Transform, p: Point) -> Scalar {
    let (g, h, i) = composed_row(a, c, e, t);
    row(g, h, i, p.x, p.y)
}

/// The coordinate by two transforms, one after the other.
pub open spec fn in_turn(a: Scalar, c: Scalar, e: Scalar, t: Transform, p: Point) -> Scalar {
    let q = t.image(p);
    row(a, c, e, q.x, q.y)
}

/// How far the two coordinates are apart at most.
pub open spec fn agree(a: Scalar, c: Scalar, e: Scalar, t: Transform, p: Point) -> bool {
    let (v, w) = (at_once(a, c, e, t, p).units(), in_turn(a, c, e, t, p).units());
    abs(v - w) * (unit() * unit()) * PARTS <= 22 * terms(a, c, e, t, p) + 32 * (least() * (unit()
        + abs(p.x.units()) + abs(p.y.units()) + 2 * abs(a.units()) + 2 * abs(c.units())))
}

/// The exact coordinate after two transforms.
pub open spec fn exact(a: Scalar, c: Scalar, e: Scalar, t: Transform, p: Point) -> int {
    exact_row(t.a, t.c, t.e, p.x, p.y) * a.units() + exact_row(t.b, t.d, t.f, p.x, p.y) * c.units()
        + e.units() * (unit() * unit())
}

pub proof fn lemma_at_once(a: Scalar, c: Scalar, e: Scalar, t: Transform, p: Point)
    requires
        at_once(a, c, e, t, p).finite(),
    ensures
        near(
            at_once(a, c, e, t, p).units(),
            unit() * unit(),
            exact(a, c, e, t, p),
            terms(a, c, e, t, p),
            10,
            slack(4 * least(), abs(p.x.units()), abs(p.y.units()), 8 * least() * unit()),
        ),
{
    let (g, h, i) = composed_row(a, c, e, t);
    accuracy::law_sum_error(g.product(p.x).sum(h.product(p.y)), i);
    accuracy::law_sum_error(g.product(p.x), h.product(p.y));
    accuracy::law_product_error(g, p.x);
    accuracy::law_product_error(h, p.y);
    lemma_pair(a, t.a, c, t.b);
    lemma_pair(a, t.c, c, t.d);
    lemma_row(a, c, e, t.e, t.f);
    let u = unit();
    let xe = exact_row(a, c, e, t.e, t.f);
    let se = row_terms(a, c, e, t.e, t.f);
    lemma_near_scaled(i.units(), u, xe, se, 6, 8 * least(), u);
    lemma_near_weaker(i.units(), u * u, xe * u, se * u, 6, 8 * least() * u, 8);
    let x = (
        a.units() * t.a.units() + c.units() * t.b.units(),
        a.units() * t.c.units() + c.units() * t.d.units(),
        xe * u,
    );
    let s = (
        abs(a.units()) * abs(t.a.units()) + abs(c.units()) * abs(t.b.units()),
        abs(a.units()) * abs(t.c.units()) + abs(c.units()) * abs(t.d.units()),
        se * u,
    );
    lemma_second(g, h, i, p.x, p.y, x, s, 4, 4 * least(), 8 * least() * u);
    lemma_regroup(
        (a.units(), c.units(), e.units()),
        (t.a.units(), t.b.units(), t.c.units()),
        (t.d.units(), t.e.units(), t.f.units()),
        (p.x.units(), p.y.units()),
        u as int,
    );
    lemma_regroup(
        (abs(a.units()) as int, abs(c.units()) as int, abs(e.units()) as int),
        (abs(t.a.units()) as int, abs(t.b.units()) as int, abs(t.c.units()) as int),
        (abs(t.d.units()) as int, abs(t.e.units()) as int, abs(t.f.units()) as int),
        (abs(p.x.units()) as int, abs(p.y.units()) as int),
        u as int,
    );
}

proof fn lemma_spread(x: int, y: int, z: int, m: int)
    ensures
        (x + y + z) * m == x * m + y * m + z * m,
{
    assert((x + y + z) * m == x * m + y * m + z * m) by (nonlinear_arith);
}

/// The matrix product is associative.
proof fn lemma_regroup(
    o: (int, int, int),
    i: (int, int, int),
    j: (int, int, int),
    p: (int, int),
    u: int,
)
    ensures
        (o.0 * i.0 + o.1 * i.1) * p.0 + (o.0 * i.2 + o.1 * j.0) * p.1 + (o.0 * j.1 + o.1 * j.2
            + o.2 * u) * u == (i.0 * p.0 + i.2 * p.1 + j.1 * u) * o.0 + (i.1 * p.0 + j.0 * p.1
            + j.2 * u) * o.1 + o.2 * (u * u),
{
    let (a, c, e) = o;
    let (x, y) = p;
    assert((a * i.0 + c * i.1) * x == (i.0 * x) * a + (i.1 * x) * c) by (nonlinear_arith);
    assert((a * i.2 + c * j.0) * y == (i.2 * y) * a + (j.0 * y) * c) by (nonlinear_arith);
    lemma_spread(a * j.1, c * j.2, e * u, u);
    assert((a * j.1) * u == (j.1 * u) * a) by (nonlinear_arith);
    assert((c * j.2) * u == (j.2 * u) * c) by (nonlinear_arith);
    assert((e * u) * u == e * (u * u)) by (nonlinear_arith);
    lemma_spread(i.0 * x, i.2 * y, j.1 * u, a);
    lemma_spread(i.1 * x, j.0 * y, j.2 * u, c);
}

proof fn lemma_in_turn(a: Scalar, c: Scalar, e: Scalar, t: Transform, p: Point)
    requires
        in_turn(a, c, e, t, p).finite(),
    ensures
        near(
            in_turn(a, c, e, t, p).units(),
            unit() * unit(),
            exact(a, c, e, t, p),
            terms(a, c, e, t, p),
            12,
            slack(8 * least(), abs(a.units()), abs(c.units()), 0),
        ),
{
    let q = t.image(p);
    let u = unit();
    laws::law_product_commutes(a, q.x);
    laws::law_product_commutes(c, q.y);
    accuracy::law_sum_error(a.product(q.x).sum(c.product(q.y)), e);
    accuracy::law_sum_error(a.product(q.x), c.product(q.y));
    accuracy::law_product_error(a, q.x);
    accuracy::law_product_error(c, q.y);
    lemma_row(t.a, t.c, t.e, p.x, p.y);
    lemma_row(t.b, t.d, t.f, p.x, p.y);
    lemma_near_self(e.units());
    lemma_near_scaled(e.units(), 1, e.units(), abs(e.units()), 0, 0, u * u);
    assert(1 * (u * u) == u * u && 0 * (u * u) == 0);
    lemma_near_weaker(e.units(), u * u, e.units() * (u * u), abs(e.units()) * (u * u), 0, 0, 10);
    let x = (
        exact_row(t.a, t.c, t.e, p.x, p.y),
        exact_row(t.b, t.d, t.f, p.x, p.y),
        e.units() * (u * u),
    );
    let s = (
        row_terms(t.a, t.c, t.e, p.x, p.y),
        row_terms(t.b, t.d, t.f, p.x, p.y),
        abs(e.units()) * (u * u),
    );
    assert(in_turn(a, c, e, t, p) == row(q.x, q.y, e, a, c));
    lemma_second(q.x, q.y, e, a, c, x, s, 6, 8 * least(), 0);
}

/// Two numbers that are near a third are near each other.
proof fn lemma_apart(v: int, w: int, k: nat, x: int, s: nat, t: (nat, nat))
    requires
        near(v, k, x, s, 10, t.0),
        near(w, k, x, s, 12, t.1),
    ensures
        abs(v - w) * k * PARTS <= 22 * s + t.0 + t.1,
{
    let d = v * k - x;
    let e = w * k - x;
    lemma_abs_mul(v - w, k as int);
    assert((v - w) * k == d - e) by (nonlinear_arith)
        requires
            d == v * k - x,
            e == w * k - x,
    ;
    assert(abs(d - e) * PARTS <= abs(d) * PARTS + abs(e) * PARTS) by (nonlinear_arith)
        requires
            abs(d - e) <= abs(d) + abs(e),
    ;
}

/// One coordinate of a composition.
proof fn lemma_coordinate(a: Scalar, c: Scalar, e: Scalar, t: Transform, p: Point)
    requires
        at_once(a, c, e, t, p).finite(),
        in_turn(a, c, e, t, p).finite(),
    ensures
        agree(a, c, e, t, p),
{
    lemma_at_once(a, c, e, t, p);
    lemma_in_turn(a, c, e, t, p);
    let u = unit();
    let l = least();
    let (x, y, z, w) = (abs(p.x.units()), abs(p.y.units()), abs(a.units()), abs(c.units()));
    lemma_apart(
        at_once(a, c, e, t, p).units(),
        in_turn(a, c, e, t, p).units(),
        u * u,
        exact(a, c, e, t, p),
        terms(a, c, e, t, p),
        (slack(4 * l, x, y, 8 * l * u), slack(8 * l, z, w, 0)),
    );
    assert(slack(4 * l, x, y, 8 * l * u) == 24 * (l * u) + 32 * (l * x) + 32 * (l * y)) by {
        assert((4 * l) * x == 4 * (l * x) && (4 * l) * y == 4 * (l * y) && 8 * l * u == 8 * (l * u)
            && u * l == l * u) by (nonlinear_arith);
    }
    assert(slack(8 * l, z, w, 0) == 8 * (l * u) + 64 * (l * z) + 64 * (l * w)) by {
        assert((8 * l) * z == 8 * (l * z) && (8 * l) * w == 8 * (l * w) && u * l == l * u)
            by (nonlinear_arith);
    }
    assert(l * (u + x + y + 2 * z + 2 * w) == l * u + l * x + l * y + 2 * (l * z) + 2 * (l * w))
        by (nonlinear_arith);
}

/// A composition does what its two parts do, the first one first: each coordinate of the image
/// of a point differs by at most 22 parts in `2^53` of the sum of its terms, and by a few of the
/// smallest numbers, wherever both images are finite.
pub proof fn law_composition_applies_in_turn(first: Transform, second: Transform, p: Point)
    requires
        second.after(first).image(p).finite(),
        second.image(first.image(p)).finite(),
    ensures
        second.after(first).image(p).x == at_once(second.a, second.c, second.e, first, p),
        second.after(first).image(p).y == at_once(second.b, second.d, second.f, first, p),
        second.image(first.image(p)).x == in_turn(second.a, second.c, second.e, first, p),
        second.image(first.image(p)).y == in_turn(second.b, second.d, second.f, first, p),
        agree(second.a, second.c, second.e, first, p),
        agree(second.b, second.d, second.f, first, p),
{
    lemma_coordinate(second.a, second.c, second.e, first, p);
    lemma_coordinate(second.b, second.d, second.f, first, p);
}

} // verus!

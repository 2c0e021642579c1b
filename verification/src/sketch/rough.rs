//! Outlines with jitter.
//!
//! A line is drawn as two curves that bend to one side, and by default a second time with half
//! the jitter. Jitter is damped on long lines and capped on short ones.

use vstd::prelude::*;
use crate::geometry::{Point, Rect, Vec2, HALF_BITS, TWO_BITS};
use crate::fit;
use crate::laws;
use crate::path::{BezPath, PathEl};
use crate::scalar;
use crate::scalar::{Scalar, ONE_BITS};
use crate::sketch::options::SketchOptions;
use crate::sketch::rng;
use crate::sketch::rng::Rng;

verus! {

/// The bit pattern of `200.0`.
pub const SHORT_BITS: u64 = 0x4069_0000_0000_0000;

/// The bit pattern of `500.0`.
pub const LONG_BITS: u64 = 0x407f_4000_0000_0000;

/// The bit pattern of `0.4`.
pub const DAMPED_BITS: u64 = 0x3fd9_9999_9999_999a;

/// The bit pattern of `-0.0016668`.
pub const DAMPING_SLOPE_BITS: u64 = 0xbf5b_4f10_df4b_5492;

/// The bit pattern of `1.233334`.
pub const DAMPING_START_BITS: u64 = 0x3ff3_bbbc_6eb0_b7c3;

/// The bit pattern of `100.0`.
pub const HUNDRED_BITS: u64 = 0x4059_0000_0000_0000;

/// The bit pattern of `10.0`.
pub const TEN_BITS: u64 = 0x4024_0000_0000_0000;

/// The bit pattern of `0.2`.
pub const FIFTH_BITS: u64 = 0x3fc9_9999_9999_999a;

/// The bit pattern of `3.0`.
pub const THREE_BITS: u64 = 0x4008_0000_0000_0000;

/// The bit pattern of half a turn.
pub const PI_BITS: u64 = 0x4009_21fb_5444_2d18;

/// The bit pattern of a full turn.
pub const TAU_BITS: u64 = 0x4019_21fb_5444_2d18;

/// The bit pattern of `8.0`.
pub const LEAST_SAMPLES_BITS: u64 = 0x4020_0000_0000_0000;

/// The bit pattern of `48.0`.
pub const MOST_SAMPLES_BITS: u64 = 0x4048_0000_0000_0000;

/// The bit pattern of `64.0`.
pub const MOST_CURVE_SAMPLES_BITS: u64 = 0x4050_0000_0000_0000;

/// The bit pattern of `0.05`.
pub const HEAD_LOW_BITS: u64 = 0x3fa9_9999_9999_999a;

/// The bit pattern of `0.15`.
pub const HEAD_HIGH_BITS: u64 = 0x3fc3_3333_3333_3333;

/// The bit pattern of `0.1`.
pub const TAIL_BITS: u64 = 0x3fb9_9999_9999_999a;

/// The bit pattern of `1e-9`.
pub const JOINED_BITS: u64 = 0x3e11_2e0b_e826_d695;

/// How much of the jitter a line of a given length gets: all of it below 200, two fifths above
/// 500, and a share that falls with the length in between.
pub open spec fn damping(len: Scalar) -> Scalar {
    if len.less(Scalar { bits: SHORT_BITS }) {
        Scalar { bits: ONE_BITS }
    } else if (Scalar { bits: LONG_BITS }).less(len) {
        Scalar { bits: DAMPED_BITS }
    } else {
        Scalar { bits: DAMPING_SLOPE_BITS }.product(len).sum(Scalar { bits: DAMPING_START_BITS })
    }
}

/// How much of the jitter a line of a given length gets.
pub fn dampening(len: Scalar) -> (r: Scalar)
    ensures
        r == damping(len),
{
    if len.lt(Scalar { bits: SHORT_BITS }) {
        Scalar { bits: ONE_BITS }
    } else if (Scalar { bits: LONG_BITS }).lt(len) {
        Scalar { bits: DAMPED_BITS }
    } else {
        (Scalar { bits: DAMPING_SLOPE_BITS }).mul(len).add(Scalar { bits: DAMPING_START_BITS })
    }
}

/// The amplitude for a line of a given length: 2, and a tenth of the length of a short line.
pub open spec fn amplitude(len: Scalar) -> Scalar {
    let two = Scalar { bits: TWO_BITS };
    if len.product(len).less(two.product(two).product(Scalar { bits: HUNDRED_BITS })) {
        len.quotient(Scalar { bits: TEN_BITS })
    } else {
        two
    }
}

fn amplitude_of(len: Scalar) -> (r: Scalar)
    ensures
        r == amplitude(len),
{
    let two = Scalar { bits: TWO_BITS };
    if len.mul(len).lt(two.mul(two).mul(Scalar { bits: HUNDRED_BITS })) {
        len.div(Scalar { bits: TEN_BITS })
    } else {
        two
    }
}

/// A point moved by two offsets.
pub open spec fn shaken(r: Rng, p: Point, amp: Scalar, roughness: Scalar, gain: Scalar) -> Point {
    Point {
        x: p.x.sum(r.draw_offset(amp, roughness, gain)),
        y: p.y.sum(r.next().draw_offset(amp, roughness, gain)),
    }
}

fn shake(r: &mut Rng, p: Point, amp: Scalar, roughness: Scalar, gain: Scalar) -> (q: Point)
    ensures
        q == shaken(*old(r), p, amp, roughness, gain),
        *final(r) == old(r).next().next(),
{
    let x = p.x.add(r.offset(amp, roughness, gain));
    let y = p.y.add(r.offset(amp, roughness, gain));
    Point { x, y }
}

/// What one line is drawn with.
pub struct Jitter {
    /// Amplitude at the points of the curves.
    pub amp: Scalar,
    pub gain: Scalar,
    /// The control points that the line bends through.
    pub near: Point,
    pub far: Point,
}

/// What the line from `a` to `b` is drawn with; it takes three numbers.
pub open spec fn jitter(
    r: Rng,
    a: Point,
    b: Point,
    len: Scalar,
    opts: SketchOptions,
    overlay: bool,
) -> Jitter {
    let dx = b.x.difference(a.x);
    let dy = b.y.difference(a.y);
    let gain = damping(len);
    let off = amplitude(len);
    let bow = opts.bowing.product(off);
    let span = Scalar { bits: SHORT_BITS };
    let mx = r.draw_offset(bow.product(dy).quotient(span), opts.roughness, gain);
    let my = r.after(1).draw_offset(bow.product(dx.negated()).quotient(span), opts.roughness, gain);
    let fifth = Scalar { bits: FIFTH_BITS };
    let two = Scalar { bits: TWO_BITS };
    let diverge = fifth.sum(r.after(2).draw().product(fifth));
    Jitter {
        amp: if overlay {
            off.product(Scalar { bits: HALF_BITS })
        } else {
            off
        },
        gain,
        near: Point {
            x: mx.sum(a.x).sum(dx.product(diverge)),
            y: my.sum(a.y).sum(dy.product(diverge)),
        },
        far: Point {
            x: mx.sum(a.x).sum(dx.product(diverge).product(two)),
            y: my.sum(a.y).sum(dy.product(diverge).product(two)),
        },
    }
}

/// The numbers that one line takes.
pub const DRAWS: usize = 17;

/// The elements of one line.
#[verifier::opaque]
pub open spec fn segment_els(
    r: Rng,
    a: Point,
    b: Point,
    len: Scalar,
    opts: SketchOptions,
    first: bool,
    overlay: bool,
) -> Seq<PathEl> {
    let j = jitter(r, a, b, len, opts, overlay);
    let p0 = shaken(r.after(3), a, j.amp, opts.roughness, j.gain);
    let c1 = shaken(r.after(5), a, j.amp, opts.roughness, j.gain);
    let c2 = shaken(r.after(7), j.near, j.amp, opts.roughness, j.gain);
    let m1 = shaken(r.after(9), j.far, j.amp, opts.roughness, j.gain);
    let c3 = shaken(r.after(11), j.near, j.amp, opts.roughness, j.gain);
    let c4 = shaken(r.after(13), j.far, j.amp, opts.roughness, j.gain);
    let p1 = shaken(r.after(15), b, j.amp, opts.roughness, j.gain);
    if overlay {
        seq![PathEl::MoveTo(p0), PathEl::CurveTo(c2, m1, p1)]
    } else if first {
        seq![PathEl::MoveTo(p0), PathEl::CurveTo(c1, c2, m1), PathEl::CurveTo(c3, c4, p1)]
    } else {
        seq![PathEl::CurveTo(c1, c2, m1), PathEl::CurveTo(c3, c4, p1)]
    }
}

fn jitter_of(
    r: &mut Rng,
    a: Point,
    b: Point,
    len: Scalar,
    opts: &SketchOptions,
    overlay: bool,
) -> (j: (Scalar, Scalar, Point, Point))
    ensures
        j.0 == jitter(*old(r), a, b, len, *opts, overlay).amp,
        j.1 == jitter(*old(r), a, b, len, *opts, overlay).gain,
        j.2 == jitter(*old(r), a, b, len, *opts, overlay).near,
        j.3 == jitter(*old(r), a, b, len, *opts, overlay).far,
        *final(r) == old(r).after(3),
{
    let ghost start = *r;
    let dx = b.x.sub(a.x);
    let dy = b.y.sub(a.y);
    let gain = dampening(len);
    let off = amplitude_of(len);
    let amp = if overlay {
        off.mul(Scalar { bits: HALF_BITS })
    } else {
        off
    };
    let bow = opts.bowing.mul(off);
    let span = Scalar { bits: SHORT_BITS };
    let mx = r.offset(bow.mul(dy).div(span), opts.roughness, gain);
    proof {
        rng::lemma_step(start, 0);
        rng::lemma_step(start, 1);
        rng::lemma_step(start, 2);
        assert(start.after(0) == start);
    }
    let my = r.offset(bow.mul(dx.neg()).div(span), opts.roughness, gain);
    let fifth = Scalar { bits: FIFTH_BITS };
    let two = Scalar { bits: TWO_BITS };
    let diverge = fifth.add(r.next_f64().mul(fifth));
    let near = Point {
        x: mx.add(a.x).add(dx.mul(diverge)),
        y: my.add(a.y).add(dy.mul(diverge)),
    };
    let far = Point {
        x: mx.add(a.x).add(dx.mul(diverge).mul(two)),
        y: my.add(a.y).add(dy.mul(diverge).mul(two)),
    };
    (amp, gain, near, far)
}

/// Appends one line from `a` to `b`, which are `len` apart.
///
/// The first line starts a new part of the path and the others continue it; an overlay starts
/// its own.
pub fn segment(
    r: &mut Rng,
    path: &mut BezPath,
    a: Point,
    b: Point,
    len: Scalar,
    opts: &SketchOptions,
    first: bool,
    overlay: bool,
)
    ensures
        final(path)@ == old(path)@ + segment_els(*old(r), a, b, len, *opts, first, overlay),
        *final(r) == old(r).after(DRAWS as nat),
{
    let ghost start = *r;
    let ghost before = path@;
    let (amp, gain, near, far) = jitter_of(r, a, b, len, opts, overlay);
    proof {
        reveal(segment_els);
        rng::lemma_step(start, 3);
        rng::lemma_step(start, 4);
        rng::lemma_step(start, 5);
        rng::lemma_step(start, 6);
        rng::lemma_step(start, 7);
        rng::lemma_step(start, 8);
        rng::lemma_step(start, 9);
        rng::lemma_step(start, 10);
        rng::lemma_step(start, 11);
        rng::lemma_step(start, 12);
        rng::lemma_step(start, 13);
        rng::lemma_step(start, 14);
        rng::lemma_step(start, 15);
        rng::lemma_step(start, 16);
    }
    let p0 = shake(r, a, amp, opts.roughness, gain);
    let c1 = shake(r, a, amp, opts.roughness, gain);
    let c2 = shake(r, near, amp, opts.roughness, gain);
    let m1 = shake(r, far, amp, opts.roughness, gain);
    let c3 = shake(r, near, amp, opts.roughness, gain);
    let c4 = shake(r, far, amp, opts.roughness, gain);
    let p1 = shake(r, b, amp, opts.roughness, gain);
    if overlay {
        path.push(PathEl::MoveTo(p0));
        path.push(PathEl::CurveTo(c2, m1, p1));
    } else {
        if first {
            path.push(PathEl::MoveTo(p0));
        }
        path.push(PathEl::CurveTo(c1, c2, m1));
        path.push(PathEl::CurveTo(c3, c4, p1));
    }
    assert(path@ =~= before + segment_els(start, a, b, len, *opts, first, overlay));
}

/// The lines of a point list: each point to the next, and for a closed list back to the first
/// and along the first line again.
pub open spec fn edge_list(n: nat, closed: bool) -> Seq<(int, int)> {
    let open = Seq::new((n - 1) as nat, |i: int| (i, i + 1));
    if closed && n > 2 {
        open + seq![(n - 1, 0int), (0int, 1int)]
    } else {
        open
    }
}

/// The elements of lines between points.
pub open spec fn edges_els(
    r: Rng,
    points: Seq<Point>,
    lens: Seq<Scalar>,
    edges: Seq<(int, int)>,
    opts: SketchOptions,
    overlay: bool,
) -> Seq<PathEl>
    decreases edges.len(),
{
    if edges.len() == 0 {
        Seq::empty()
    } else {
        let n = (edges.len() - 1) as nat;
        let (i, j) = edges.last();
        edges_els(r, points, lens, edges.drop_last(), opts, overlay) + segment_els(
            r.after(DRAWS as nat * n),
            points[i],
            points[j],
            lens[i],
            opts,
            n == 0,
            overlay,
        )
    }
}

/// The numbers that a point list takes.
pub open spec fn polyline_draws(n: nat, closed: bool, multistroke: bool) -> nat {
    if n < 2 {
        0
    } else if multistroke {
        2 * (DRAWS as nat * edge_list(n, closed).len())
    } else {
        DRAWS as nat * edge_list(n, closed).len()
    }
}

/// The elements of a point list.
pub open spec fn polyline_els(
    r: Rng,
    points: Seq<Point>,
    lens: Seq<Scalar>,
    closed: bool,
    opts: SketchOptions,
) -> Seq<PathEl> {
    let edges = edge_list(points.len(), closed);
    if points.len() < 2 {
        Seq::empty()
    } else if opts.multistroke {
        edges_els(r, points, lens, edges, opts, false) + edges_els(
            r.after(DRAWS as nat * edges.len()),
            points,
            lens,
            edges,
            opts,
            true,
        )
    } else {
        edges_els(r, points, lens, edges, opts, false)
    }
}

/// Edges as pairs of integers.
pub open spec fn as_int_pairs(v: Seq<(usize, usize)>) -> Seq<(int, int)> {
    Seq::new(v.len(), |i: int| (v[i].0 as int, v[i].1 as int))
}

fn edges_of(n: usize, closed: bool) -> (edges: Vec<(usize, usize)>)
    requires
        n >= 2,
    ensures
        as_int_pairs(edges@) == edge_list(n as nat, closed),
        forall|i: int| 0 <= i < edges@.len() ==> (#[trigger] edges@[i]).0 < n && edges@[i].1 < n,
{
    let mut edges: Vec<(usize, usize)> = Vec::new();
    let mut i: usize = 1;
    while i < n
        invariant
            1 <= i <= n,
            edges@.len() == i - 1,
            forall|j: int| 0 <= j < i - 1 ==> #[trigger] edges@[j] == (j as usize, (j + 1) as usize),
        decreases n - i,
    {
        edges.push((i - 1, i));
        i += 1;
    }
    if closed && n > 2 {
        edges.push((n - 1, 0));
        edges.push((0, 1));
    }
    assert(as_int_pairs(edges@) =~= edge_list(n as nat, closed));
    edges
}

fn draw_edges(
    r: &mut Rng,
    path: &mut BezPath,
    points: &Vec<Point>,
    lens: &Vec<Scalar>,
    edges: &Vec<(usize, usize)>,
    opts: &SketchOptions,
    overlay: bool,
)
    requires
        lens@.len() == points@.len(),
        forall|i: int|
            0 <= i < edges@.len() ==> (#[trigger] edges@[i]).0 < points@.len() && edges@[i].1
                < points@.len(),
    ensures
        final(path)@ == old(path)@ + edges_els(
            *old(r),
            points@,
            lens@,
            as_int_pairs(edges@),
            *opts,
            overlay,
        ),
        *final(r) == old(r).after(DRAWS as nat * edges@.len()),
{
    let ghost start = *r;
    let ghost before = path@;
    let ghost all = as_int_pairs(edges@);
    let mut i: usize = 0;
    proof {
        assert(DRAWS as nat * 0 == 0);
        assert(path@ =~= before + edges_els(start, points@, lens@, all.take(0), *opts, overlay));
    }
    while i < edges.len()
        invariant
            i <= edges@.len(),
            all == as_int_pairs(edges@),
            lens@.len() == points@.len(),
            forall|j: int|
                0 <= j < edges@.len() ==> (#[trigger] edges@[j]).0 < points@.len() && edges@[j].1
                    < points@.len(),
            path@ == before + edges_els(
                start,
                points@,
                lens@,
                all.take(i as int),
                *opts,
                overlay,
            ),
            *r == start.after(DRAWS as nat * i as nat),
        decreases edges.len() - i,
    {
        let (a, b) = edges[i];
        segment(r, path, points[a], points[b], lens[a], opts, i == 0, overlay);
        proof {
            let done = all.take(i + 1);
            assert(done.drop_last() =~= all.take(i as int));
            assert(done.last() == (a as int, b as int));
            rng::lemma_steps(start, DRAWS as nat * i as nat, DRAWS as nat);
            assert(DRAWS as nat * i as nat + DRAWS as nat == DRAWS as nat * (i + 1) as nat)
                by (nonlinear_arith);
            assert(path@ =~= before + edges_els(start, points@, lens@, done, *opts, overlay));
        }
        i += 1;
    }
    assert(all.take(all.len() as int) =~= all);
}

/// Appends a point list; `lens` are the distances from each point to the next, and from the
/// last to the first.
pub fn polyline(
    r: &mut Rng,
    path: &mut BezPath,
    points: &Vec<Point>,
    lens: &Vec<Scalar>,
    closed: bool,
    opts: &SketchOptions,
)
    requires
        lens@.len() == points@.len(),
    ensures
        final(path)@ == old(path)@ + polyline_els(*old(r), points@, lens@, closed, *opts),
        *final(r) == old(r).after(polyline_draws(points@.len(), closed, opts.multistroke)),
{
    let ghost start = *r;
    let ghost before = path@;
    if points.len() < 2 {
        assert(path@ =~= before + polyline_els(start, points@, lens@, closed, *opts));
        return;
    }
    let edges = edges_of(points.len(), closed);
    draw_edges(r, path, points, lens, &edges, opts, false);
    if opts.multistroke {
        draw_edges(r, path, points, lens, &edges, opts, true);
        proof {
            let n = DRAWS as nat * edges@.len();
            rng::lemma_steps(start, n, n);
            assert(edge_list(points@.len(), closed).len() == edges@.len());
        }
    }
    assert(path@ =~= before + polyline_els(start, points@, lens@, closed, *opts));
}

/// Without roughness the points stay where they are.
pub proof fn law_no_roughness_no_shaking(
    r: Rng,
    p: Point,
    amp: Scalar,
    roughness: Scalar,
    gain: Scalar,
)
    requires
        roughness.magnitude() == 0,
        gain.finite(),
        p.finite(),
        r.draw_range(amp.negated(), amp).finite(),
        r.next().draw_range(amp.negated(), amp).finite(),
    ensures
        shaken(r, p, amp, roughness, gain).x.same(p.x),
        shaken(r, p, amp, roughness, gain).y.same(p.y),
{
    lemma_still(r, p.x, amp, roughness, gain);
    lemma_still(r.next(), p.y, amp, roughness, gain);
}

proof fn lemma_still(r: Rng, x: Scalar, amp: Scalar, roughness: Scalar, gain: Scalar)
    requires
        roughness.magnitude() == 0,
        gain.finite(),
        x.finite(),
        r.draw_range(amp.negated(), amp).finite(),
    ensures
        x.sum(r.draw_offset(amp, roughness, gain)).same(x),
{
    let z = r.draw_offset(amp, roughness, gain);
    let zero = Scalar { bits: 0 };
    rng::law_no_roughness_no_offset(r, amp, roughness, gain);
    scalar::lemma_zero(z);
    scalar::lemma_zero(zero);
    scalar::lemma_zero(x);
    laws::law_zero_is_neutral(x, z);
    scalar::lemma_zero(x.sum(z));
}

/// The value under the root in the length of an ellipse.
pub open spec fn radicand(radii: Vec2) -> Scalar {
    let rx = radii.x.absolute();
    let ry = radii.y.absolute();
    let three = Scalar { bits: THREE_BITS };
    three.product(rx).sum(ry).product(rx.sum(three.product(ry)))
}

/// The value whose square root [`arc_sample_angles`] takes.
pub fn arc_radicand(radii: Vec2) -> (r: Scalar)
    ensures
        r == radicand(radii),
{
    let rx = radii.x.abs();
    let ry = radii.y.abs();
    let three = Scalar { bits: THREE_BITS };
    three.mul(rx).add(ry).mul(rx.add(three.mul(ry)))
}

/// The length of an arc, given the root: Ramanujan's formula for an ellipse, times the part
/// that is swept.
pub open spec fn arc_length(radii: Vec2, root: Scalar, sweep: Scalar) -> Scalar {
    let three = Scalar { bits: THREE_BITS };
    Scalar { bits: PI_BITS }.product(
        three.product(radii.x.absolute().sum(radii.y.absolute())).difference(
            root.greatest(Scalar { bits: 0 }),
        ),
    ).product(sweep.absolute().quotient(Scalar { bits: TAU_BITS }))
}

/// The number of steps along a line: between `lo` and `hi`, and 0 for what is not a number.
pub open spec fn step_count(len: Scalar, step: Scalar, lo: Scalar, hi: Scalar) -> nat {
    len.quotient(step).ceiled().clamped(lo, hi).truncated(64)
}

fn count_steps(len: Scalar, step: Scalar, lo: Scalar, hi: Scalar) -> (n: usize)
    ensures
        n == step_count(len, step, lo, hi),
        n <= 64,
{
    proof {
        reveal(Scalar::truncated);
    }
    len.div(step).ceil().clamp(lo, hi).to_u64(64) as usize
}

/// The steps of an arc.
pub open spec fn arc_steps(radii: Vec2, root: Scalar, sweep: Scalar, step: Scalar) -> nat {
    step_count(
        arc_length(radii, root, sweep),
        step.greatest(Scalar { bits: ONE_BITS }),
        Scalar { bits: LEAST_SAMPLES_BITS },
        Scalar { bits: MOST_SAMPLES_BITS },
    )
}

/// The angle of sample `i` of `n`.
pub open spec fn sample_angle(start: Scalar, sweep: Scalar, i: nat, n: nat) -> Scalar {
    start.sum(sweep.product(Scalar::integer(i).quotient(Scalar::integer(n))))
}

/// The angles at which an arc is sampled.
pub open spec fn sample_angles(
    radii: Vec2,
    root: Scalar,
    start: Scalar,
    sweep: Scalar,
    step: Scalar,
) -> Seq<Scalar> {
    let n = arc_steps(radii, root, sweep, step);
    Seq::new(n + 1, |i: int| sample_angle(start, sweep, i as nat, n))
}

/// The angles at which an arc is sampled; `root` is the square root of [`arc_radicand`].
pub fn arc_sample_angles(
    radii: Vec2,
    root: Scalar,
    start: Scalar,
    sweep: Scalar,
    step: Scalar,
) -> (angles: Vec<Scalar>)
    ensures
        angles@ == sample_angles(radii, root, start, sweep, step),
{
    let three = Scalar { bits: THREE_BITS };
    let len = (Scalar { bits: PI_BITS }).mul(
        three.mul(radii.x.abs().add(radii.y.abs())).sub(root.max(Scalar { bits: 0 })),
    ).mul(sweep.abs().div(Scalar { bits: TAU_BITS }));
    let n: usize = count_steps(
        len,
        step.max(Scalar { bits: ONE_BITS }),
        Scalar { bits: LEAST_SAMPLES_BITS },
        Scalar { bits: MOST_SAMPLES_BITS },
    );
    let count = Scalar::from_u64(n as u64);
    let mut angles: Vec<Scalar> = Vec::new();
    let ghost all = sample_angles(radii, root, start, sweep, step);
    let mut i: usize = 0;
    while i <= n
        invariant
            i <= n + 1,
            n <= 64,
            n == arc_steps(radii, root, sweep, step),
            count == Scalar::integer(n as nat),
            all == sample_angles(radii, root, start, sweep, step),
            angles@ == all.take(i as int),
        decreases n + 1 - i,
    {
        angles.push(start.add(sweep.mul(Scalar::from_u64(i as u64).div(count))));
        i += 1;
        assert(angles@ =~= all.take(i as int));
    }
    assert(angles@ =~= all);
    angles
}

/// The point of a turned ellipse in a direction.
pub open spec fn turned_point(center: Point, radii: Vec2, turn: Vec2, d: Vec2) -> Point {
    let x = radii.x.absolute().product(d.x);
    let y = radii.y.absolute().product(d.y);
    Point {
        x: center.x.sum(x.product(turn.x)).difference(y.product(turn.y)),
        y: center.y.sum(x.product(turn.y)).sum(y.product(turn.x)),
    }
}

/// The points of a turned ellipse in given directions.
pub open spec fn turned_points(
    center: Point,
    radii: Vec2,
    turn: Vec2,
    directions: Seq<Vec2>,
) -> Seq<Point> {
    Seq::new(directions.len(), |i: int| turned_point(center, radii, turn, directions[i]))
}

/// The sampled points of an arc: `turn` is the cosine and the sine of its rotation, and
/// `directions` those of its sample angles.
pub fn sample_arc(center: Point, radii: Vec2, turn: Vec2, directions: &Vec<Vec2>) -> (points: Vec<
    Point,
>)
    ensures
        points@ == turned_points(center, radii, turn, directions@),
{
    let rx = radii.x.abs();
    let ry = radii.y.abs();
    let mut points: Vec<Point> = Vec::new();
    let ghost all = turned_points(center, radii, turn, directions@);
    let mut i: usize = 0;
    while i < directions.len()
        invariant
            i <= directions@.len(),
            rx == radii.x.absolute(),
            ry == radii.y.absolute(),
            all == turned_points(center, radii, turn, directions@),
            points@ == all.take(i as int),
        decreases directions.len() - i,
    {
        let d = directions[i];
        let x = rx.mul(d.x);
        let y = ry.mul(d.y);
        points.push(
            Point {
                x: center.x.add(x.mul(turn.x)).sub(y.mul(turn.y)),
                y: center.y.add(x.mul(turn.y)).add(y.mul(turn.x)),
            },
        );
        i += 1;
        assert(points@ =~= all.take(i as int));
    }
    assert(points@ =~= all);
    points
}

/// The start and the sweep of a full ellipse: the pen starts a little early and stops a little
/// late.
pub open spec fn full_sweep(r: Rng) -> (Scalar, Scalar) {
    let tau = Scalar { bits: TAU_BITS };
    (
        r.draw_range(Scalar { bits: HEAD_LOW_BITS }, Scalar { bits: HEAD_HIGH_BITS }).product(
            tau,
        ).negated(),
        tau.sum(
            r.next().draw_range(Scalar { bits: 0 }, Scalar { bits: TAIL_BITS }).product(tau),
        ),
    )
}

/// The start and the sweep of a full ellipse.
pub fn ellipse_sweep(r: &mut Rng) -> (s: (Scalar, Scalar))
    ensures
        s == full_sweep(*old(r)),
        *final(r) == old(r).after(2),
{
    let ghost start = *r;
    let tau = Scalar { bits: TAU_BITS };
    let head = r.range(Scalar { bits: HEAD_LOW_BITS }, Scalar { bits: HEAD_HIGH_BITS }).mul(tau);
    let tail = r.range(Scalar { bits: 0 }, Scalar { bits: TAIL_BITS }).mul(tau);
    proof {
        rng::lemma_step(start, 0);
        rng::lemma_step(start, 1);
        assert(start.after(0) == start);
    }
    (head.neg(), tau.add(tail))
}

/// A sampled curve: where it starts, and the points after that.
#[derive(Debug)]
pub struct CurveSample {
    pub start: Point,
    pub points: Vec<Point>,
}

/// The number of samples of a curve.
pub open spec fn curve_steps(len: Scalar, step: Scalar) -> nat {
    step_count(
        len,
        step.greatest(Scalar { bits: HALF_BITS }),
        Scalar { bits: ONE_BITS },
        Scalar { bits: MOST_CURVE_SAMPLES_BITS },
    )
}

/// The number of samples of a curve of a given length.
pub fn sample_count(len: Scalar, step: Scalar) -> (n: usize)
    ensures
        n == curve_steps(len, step),
{
    count_steps(
        len,
        step.max(Scalar { bits: HALF_BITS }),
        Scalar { bits: ONE_BITS },
        Scalar { bits: MOST_CURVE_SAMPLES_BITS },
    )
}

/// A curve that starts at `p` does not continue the points.
pub open spec fn breaks(points: Seq<Point>, p: Point) -> bool {
    let eps = Scalar { bits: JOINED_BITS };
    points.len() == 0 || eps.less(points.last().x.difference(p.x).absolute()) || eps.less(
        points.last().y.difference(p.y).absolute(),
    )
}

/// The finished parts, and the part that the first `n` curves have reached.
pub open spec fn grouped(curves: Seq<CurveSample>, n: nat) -> (Seq<Seq<Point>>, Seq<Point>)
    decreases n,
{
    if n == 0 || n > curves.len() {
        (Seq::empty(), Seq::empty())
    } else {
        let c = curves[n - 1];
        let (done, open) = grouped(curves, (n - 1) as nat);
        if breaks(open, c.start) {
            (
                if open.len() == 0 {
                    done
                } else {
                    done.push(open)
                },
                seq![c.start] + c.points@,
            )
        } else {
            (done, open + c.points@)
        }
    }
}

/// The points of each part of a path.
pub open spec fn parts_of(curves: Seq<CurveSample>) -> Seq<Seq<Point>> {
    let (done, open) = grouped(curves, curves.len());
    if open.len() == 0 {
        done
    } else {
        done.push(open)
    }
}

/// The values of point lists.
pub open spec fn point_views(v: Seq<Vec<Point>>) -> Seq<Seq<Point>> {
    Seq::new(v.len(), |i: int| v[i]@)
}

/// The points of each part of a path, from the samples of its curves: a new part starts where a
/// curve does not continue the one before.
pub fn flatten_points(curves: &Vec<CurveSample>) -> (parts: Vec<Vec<Point>>)
    ensures
        point_views(parts@) == parts_of(curves@),
{
    let eps = Scalar { bits: JOINED_BITS };
    let mut done: Vec<Vec<Point>> = Vec::new();
    let mut open: Vec<Point> = Vec::new();
    let mut i: usize = 0;
    assert(point_views(done@) =~= Seq::<Seq<Point>>::empty());
    assert(open@ =~= Seq::<Point>::empty());
    while i < curves.len()
        invariant
            i <= curves@.len(),
            eps == (Scalar { bits: JOINED_BITS }),
            (point_views(done@), open@) == grouped(curves@, i as nat),
        decreases curves.len() - i,
    {
        let ghost views = point_views(done@);
        let ghost before = open@;
        let c = &curves[i];
        let apart = if open.len() == 0 {
            true
        } else {
            let last = open[open.len() - 1];
            eps.lt(last.x.sub(c.start.x).abs()) || eps.lt(last.y.sub(c.start.y).abs())
        };
        if apart {
            if open.len() > 0 {
                done.push(open);
                assert(point_views(done@) =~= views.push(before));
                open = Vec::new();
            }
            open.push(c.start);
            assert(open@ =~= seq![c.start]);
        }
        let ghost base = open@;
        let mut j: usize = 0;
        while j < c.points.len()
            invariant
                j <= c.points@.len(),
                open@ == base + c.points@.take(j as int),
            decreases c.points.len() - j,
        {
            open.push(c.points[j]);
            j += 1;
            assert(open@ =~= base + c.points@.take(j as int));
        }
        assert(open@ =~= base + c.points@);
        i += 1;
    }
    if open.len() > 0 {
        let ghost views = point_views(done@);
        let ghost last = open@;
        done.push(open);
        assert(point_views(done@) =~= views.push(last));
    }
    done
}

/// The corners of a rectangle.
pub open spec fn corners(rect: Rect) -> Seq<Point> {
    let o = rect.ordered();
    seq![
        Point { x: o.x0, y: o.y0 },
        Point { x: o.x1, y: o.y0 },
        Point { x: o.x1, y: o.y1 },
        Point { x: o.x0, y: o.y1 },
    ]
}

/// The corners of a rectangle, from the upper left one clockwise.
pub fn rect_points(rect: Rect) -> (points: Vec<Point>)
    ensures
        points@ == corners(rect),
{
    let mut points: Vec<Point> = Vec::new();
    points.push(Point { x: rect.min_x(), y: rect.min_y() });
    points.push(Point { x: rect.max_x(), y: rect.min_y() });
    points.push(Point { x: rect.max_x(), y: rect.max_y() });
    points.push(Point { x: rect.min_x(), y: rect.max_y() });
    assert(points@ =~= corners(rect));
    points
}

/// The corner radius that a rectangle has room for.
pub open spec fn fitting_radius(rect: Rect, radius: Scalar) -> Scalar {
    let r = fit::in_order(rect);
    radius.absolute().least(
        r.x1.difference(r.x0).least(r.y1.difference(r.y0)).quotient(Scalar { bits: TWO_BITS }),
    ).greatest(Scalar { bits: 0 })
}

/// The rectangle with its corners in order, and the corner radius that it has room for.
pub fn rounded_outline(rect: Rect, radius: Scalar) -> (r: (Rect, Scalar))
    ensures
        r == (fit::in_order(rect), fitting_radius(rect, radius)),
{
    let n = fit::normalized(rect);
    let room = n.x1.sub(n.x0).min(n.y1.sub(n.y0)).div(Scalar { bits: TWO_BITS });
    (n, radius.abs().min(room).max(Scalar { bits: 0 }))
}

} // verus!

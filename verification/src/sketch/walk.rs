//! The pass over a whole scene.
//!
//! The elements are drawn one after the other with one generator. The caller hands in what is
//! computed outside as functions: the measure of an element, the points of a line, and the
//! distance between points.

use vstd::prelude::*;
use crate::copy::same_scene;
use crate::fit::{Facts, Measure};
use crate::geometry::{Point, Vec2};
use crate::scalar::Scalar;
use crate::scene::{Element, Scene};
use crate::sketch::options::{SketchKind, SketchOptions};
use crate::sketch::pass;
use crate::sketch::pass::{Plan, Trace, Verdict};
use crate::sketch::repeat;
use crate::sketch::repeat::{Outside, Reply, TraceView};
use crate::sketch::rng;
use crate::sketch::rng::Rng;
use crate::sketch::rough;

verus! {

/// The distances that a function of the caller may give.
pub open spec fn distance_of<D>(distance: D) -> spec_fn(Point, Point, Scalar) -> bool where
    D: Fn(Point, Point) -> Scalar,
 {
    |p: Point, q: Point, x: Scalar| call_ensures(distance, (p, q), x)
}

/// The answers that the functions of the caller may give.
pub open spec fn outside_of<M, S, D>(
    measure: M,
    turn: Vec2,
    sample: S,
    distance: D,
) -> Outside where
    M: Fn(&Element) -> Measure,
    S: Fn(&Trace) -> Vec<Vec<Point>>,
    D: Fn(Point, Point) -> Scalar,
 {
    Outside {
        measure: |el: Element, facts: Facts, below: Seq<Measure>| exists|m: Measure| #[trigger]
            call_ensures(measure, (&el,), m) && m.facts() == facts && m.children@ == below,
        turn,
        sample: |trace: TraceView, parts: Seq<Seq<Point>>| exists|t: Trace, r: Vec<Vec<Point>>|
            #[trigger] call_ensures(sample, (&t,), r) && t@ == trace && rough::point_views(r@)
                == parts,
        distance: distance_of(distance),
    }
}

/// A pass leads from one scene and generator to another.
pub open spec fn leads(
    from: (Scene, Rng),
    to: (Scene, Rng),
    vs: Seq<Verdict>,
    layers: Seq<Vec<Verdict>>,
    o: Outside,
    opts: SketchOptions,
) -> bool {
    exists|states: Seq<(Scene, Rng)>| #[trigger]
        repeat::is_pass(states, vs, layers, o, opts) && states[0] == from && states.last() == to
}

/// The distances from each point to the next, and from the last to the first.
fn part_lengths<D>(part: &Vec<Point>, distance: &D) -> (lens: Vec<Scalar>) where
    D: Fn(Point, Point) -> Scalar,

    requires
        forall|p: Point, q: Point| call_requires(*distance, (p, q)),
    ensures
        repeat::are_part_lengths(lens@, part@, distance_of(*distance)),
{
    let mut lens: Vec<Scalar> = Vec::new();
    let mut i: usize = 0;
    while i < part.len()
        invariant
            i <= part@.len(),
            i == lens@.len(),
            forall|p: Point, q: Point| call_requires(*distance, (p, q)),
            forall|j: int|
                0 <= j < i ==> distance_of(*distance)(
                    part@[j],
                    part@[repeat::following(j, part@.len())],
                    #[trigger] lens@[j],
                ),
        decreases part.len() - i,
    {
        let next: usize = if i + 1 == part.len() {
            0
        } else {
            i + 1
        };
        lens.push(distance(part[i], part[next]));
        i += 1;
    }
    lens
}

/// The distances between the points of each part.
fn lengths<D>(parts: &Vec<Vec<Point>>, distance: &D) -> (lens: Vec<Vec<Scalar>>) where
    D: Fn(Point, Point) -> Scalar,

    requires
        forall|p: Point, q: Point| call_requires(*distance, (p, q)),
    ensures
        repeat::are_lengths(
            pass::scalar_views(lens@),
            rough::point_views(parts@),
            distance_of(*distance),
        ),
        lens@.len() == parts@.len(),
        forall|i: int| 0 <= i < parts@.len() ==> (#[trigger] lens@[i])@.len() == parts@[i]@.len(),
{
    let mut lens: Vec<Vec<Scalar>> = Vec::new();
    let ghost of = distance_of(*distance);
    let mut i: usize = 0;
    while i < parts.len()
        invariant
            i <= parts@.len(),
            i == lens@.len(),
            of == distance_of(*distance),
            forall|p: Point, q: Point| call_requires(*distance, (p, q)),
            forall|j: int|
                0 <= j < i ==> repeat::are_part_lengths((#[trigger] lens@[j])@, parts@[j]@, of),
        decreases parts.len() - i,
    {
        lens.push(part_lengths(&parts[i], distance));
        i += 1;
    }
    proof {
        let views = pass::scalar_views(lens@);
        assert forall|j: int| 0 <= j < parts@.len() implies repeat::are_part_lengths(
            #[trigger] views[j],
            rough::point_views(parts@)[j],
            of,
        ) by {
            assert(repeat::are_part_lengths(lens@[j]@, parts@[j]@, of));
        }
    }
    lens
}

/// Draws an element by hand: a fill, an outline above it, or both.
pub fn sketch_element<M, S, D>(
    el: &Element,
    r: &mut Rng,
    turn: Vec2,
    measure: &M,
    sample: &S,
    distance: &D,
    opts: &SketchOptions,
) -> (out: Vec<Element>) where
    M: Fn(&Element) -> Measure,
    S: Fn(&Trace) -> Vec<Vec<Point>>,
    D: Fn(Point, Point) -> Scalar,

    requires
        forall|el: &Element| call_requires(*measure, (el,)),
        forall|t: &Trace| call_requires(*sample, (t,)),
        forall|p: Point, q: Point| call_requires(*distance, (p, q)),
    ensures
        exists|plan: Plan, reply: Reply| #[trigger]
            repeat::sketched(
                *el,
                out@,
                *old(r),
                *final(r),
                plan,
                reply,
                outside_of(*measure, turn, *sample, *distance),
                *opts,
            ),
        out@.len() <= 2,
{
    let ghost o = outside_of(*measure, turn, *sample, *distance);
    let ghost start = *r;
    let m = measure(el);
    let plan = pass::plan_element(el, &m, turn, r, opts);
    let parts = sample(&plan.trace);
    let lens = lengths(&parts, distance);
    let ghost planned = plan;
    let ghost reply = Reply {
        facts: m.facts(),
        below: m.children@,
        parts: rough::point_views(parts@),
        lens: pass::scalar_views(lens@),
    };
    proof {
        assert((o.measure)(*el, m.facts(), m.children@));
        assert((o.sample)(planned.trace@, rough::point_views(parts@)));
        assert(o.answers(*el, planned.trace@, reply));
    }
    let out = pass::roughen_element(el, plan, &parts, &lens, r, opts);
    assert(repeat::sketched(*el, out@, start, *r, planned, reply, o, *opts));
    out
}

/// Draws the element at a place by hand; the scene stays where there is none.
fn draw_at<M, S, D>(
    scene: &mut Scene,
    place: &Vec<usize>,
    r: &mut Rng,
    turn: Vec2,
    measure: &M,
    sample: &S,
    distance: &D,
    opts: &SketchOptions,
) where
    M: Fn(&Element) -> Measure,
    S: Fn(&Trace) -> Vec<Vec<Point>>,
    D: Fn(Point, Point) -> Scalar,

    requires
        forall|el: &Element| call_requires(*measure, (el,)),
        forall|t: &Trace| call_requires(*sample, (t,)),
        forall|p: Point, q: Point| call_requires(*distance, (p, q)),
    ensures
        repeat::step(
            (*old(scene), *old(r)),
            (*final(scene), *final(r)),
            pass::indices(place@),
            outside_of(*measure, turn, *sample, *distance),
            *opts,
        ),
{
    let ghost o = outside_of(*measure, turn, *sample, *distance);
    let ghost prior = (*scene, *r);
    if let Some(el) = pass::element_at(scene, place) {
        let ghost found = *el;
        let out = sketch_element(el, r, turn, measure, sample, distance, opts);
        let ghost drawn = out@;
        pass::replace_at(scene, place, out);
        proof {
            let next = (*scene, *r);
            let (plan, reply) = choose|plan: Plan, reply: Reply| #[trigger]
                repeat::sketched(found, drawn, prior.1, next.1, plan, reply, o, *opts);
            let path = pass::indices(place@);
            assert(repeat::draws(prior, next, path, found, plan, drawn, reply, o, *opts));
        }
    }
}

/// Draws the selected elements of a scene by hand, in document order and with one generator.
///
/// `nodes` and `layers` say which nodes the caller accepts.
pub fn roughen_with<M, S, D>(
    scene: &mut Scene,
    nodes: &Vec<Verdict>,
    layers: &Vec<Vec<Verdict>>,
    r: &mut Rng,
    turn: Vec2,
    measure: &M,
    sample: &S,
    distance: &D,
    opts: &SketchOptions,
) where
    M: Fn(&Element) -> Measure,
    S: Fn(&Trace) -> Vec<Vec<Point>>,
    D: Fn(Point, Point) -> Scalar,

    requires
        old(scene).layers@.len() < usize::MAX,
        forall|el: &Element| call_requires(*measure, (el,)),
        forall|t: &Trace| call_requires(*sample, (t,)),
        forall|p: Point, q: Point| call_requires(*distance, (p, q)),
    ensures
        leads(
            (*old(scene), *old(r)),
            (*final(scene), *final(r)),
            nodes@,
            layers@,
            outside_of(*measure, turn, *sample, *distance),
            *opts,
        ),
{
    let ghost o = outside_of(*measure, turn, *sample, *distance);
    let ghost first = (*scene, *r);
    let places = pass::sketch_targets(scene, nodes, layers, opts);
    let ghost targets = pass::path_views(places@);
    let ghost mut states: Seq<(Scene, Rng)> = seq![first];
    let mut i: usize = 0;
    while i < places.len()
        invariant
            i <= places@.len(),
            targets == pass::path_views(places@),
            o == outside_of(*measure, turn, *sample, *distance),
            forall|el: &Element| call_requires(*measure, (el,)),
            forall|t: &Trace| call_requires(*sample, (t,)),
            forall|p: Point, q: Point| call_requires(*distance, (p, q)),
            states.len() == i + 1,
            states[0] == first,
            states.last() == (*scene, *r),
            forall|j: int|
                #![trigger targets[j]]
                0 <= j < i ==> repeat::step(states[j], states[j + 1], targets[j], o, *opts),
        decreases places.len() - i,
    {
        draw_at(scene, &places[i], r, turn, measure, sample, distance, opts);
        proof {
            assert(targets[i as int] == pass::indices(places@[i as int]@));
            states = states.push((*scene, *r));
        }
        i += 1;
    }
    assert(repeat::is_pass(states, nodes@, layers@, o, *opts));
}

/// The generator that a pass starts with: that of the seed, or one from the time and a count.
pub open spec fn starts<E>(r: Rng, entropy: E, opts: SketchOptions) -> bool where
    E: Fn() -> (u64, u32),
 {
    match opts.seed {
        Some(seed) => r == rng::seeded(seed),
        None => exists|e: (u64, u32)| #[trigger]
            call_ensures(entropy, (), e) && r == rng::seeded(rng::mixed_seed(e.0, e.1)),
    }
}

/// Draws the selected elements of accepted nodes by hand.
///
/// `nodes` and `layers` say which nodes the caller accepts. `entropy` gives the time in
/// nanoseconds and the number of generators seeded from it so far; it is asked where the options
/// hold no seed.
pub fn roughen_scene_if<E, M, S, D>(
    scene: &mut Scene,
    nodes: &Vec<Verdict>,
    layers: &Vec<Vec<Verdict>>,
    entropy: &E,
    turn: Vec2,
    measure: &M,
    sample: &S,
    distance: &D,
    opts: &SketchOptions,
) where
    E: Fn() -> (u64, u32),
    M: Fn(&Element) -> Measure,
    S: Fn(&Trace) -> Vec<Vec<Point>>,
    D: Fn(Point, Point) -> Scalar,

    requires
        old(scene).layers@.len() < usize::MAX,
        call_requires(*entropy, ()),
        forall|el: &Element| call_requires(*measure, (el,)),
        forall|t: &Trace| call_requires(*sample, (t,)),
        forall|p: Point, q: Point| call_requires(*distance, (p, q)),
    ensures
        exists|r: Rng, next: Rng|
            starts(r, *entropy, *opts) && #[trigger] leads(
                (*old(scene), r),
                (*final(scene), next),
                nodes@,
                layers@,
                outside_of(*measure, turn, *sample, *distance),
                *opts,
            ),
        (forall|k: SketchKind| !opts.kinds.has(k)) ==> *final(scene) == *old(scene),
{
    let mut r = match opts.seed {
        Some(seed) => Rng::new(seed),
        None => {
            let e = entropy();
            Rng::from_entropy(e.0, e.1)
        },
    };
    let ghost start = r;
    let ghost prior = *scene;
    let ghost o = outside_of(*measure, turn, *sample, *distance);
    roughen_with(scene, nodes, layers, &mut r, turn, measure, sample, distance, opts);
    proof {
        assert(starts(start, *entropy, *opts));
        if forall|k: SketchKind| !opts.kinds.has(k) {
            law_no_kinds_change_nothing((prior, start), (*scene, r), nodes@, layers@, o, *opts);
        }
    }
}

/// Draws the selected elements of a scene by hand.
///
/// See [`roughen_scene_if`]; here every node is accepted.
pub fn roughen_scene<E, M, S, D>(
    scene: &mut Scene,
    entropy: &E,
    turn: Vec2,
    measure: &M,
    sample: &S,
    distance: &D,
    opts: &SketchOptions,
) where
    E: Fn() -> (u64, u32),
    M: Fn(&Element) -> Measure,
    S: Fn(&Trace) -> Vec<Vec<Point>>,
    D: Fn(Point, Point) -> Scalar,

    requires
        old(scene).layers@.len() < usize::MAX,
        call_requires(*entropy, ()),
        forall|el: &Element| call_requires(*measure, (el,)),
        forall|t: &Trace| call_requires(*sample, (t,)),
        forall|p: Point, q: Point| call_requires(*distance, (p, q)),
    ensures
        exists|r: Rng, next: Rng|
            starts(r, *entropy, *opts) && #[trigger] leads(
                (*old(scene), r),
                (*final(scene), next),
                Seq::empty(),
                Seq::empty(),
                outside_of(*measure, turn, *sample, *distance),
                *opts,
            ),
        (forall|k: SketchKind| !opts.kinds.has(k)) ==> *final(scene) == *old(scene),
{
    let nodes: Vec<Verdict> = Vec::new();
    let layers: Vec<Vec<Verdict>> = Vec::new();
    roughen_scene_if(
        scene,
        &nodes,
        &layers,
        entropy,
        turn,
        measure,
        sample,
        distance,
        opts,
    );
    assert(nodes@ =~= Seq::empty() && layers@ =~= Seq::empty());
}

/// With no kinds selected a pass changes nothing.
pub proof fn law_no_kinds_change_nothing(
    from: (Scene, Rng),
    to: (Scene, Rng),
    vs: Seq<Verdict>,
    layers: Seq<Vec<Verdict>>,
    o: Outside,
    opts: SketchOptions,
)
    requires
        leads(from, to, vs, layers, o, opts),
        forall|k: SketchKind| !opts.kinds.has(k),
    ensures
        to == from,
{
    let states = choose|states: Seq<(Scene, Rng)>| #[trigger]
        repeat::is_pass(states, vs, layers, o, opts) && states[0] == from && states.last() == to;
    repeat::law_no_kinds_leave_the_scene(states, vs, layers, o, opts);
}

/// Passes with the same seed over scenes that draw the same give scenes that draw the same, where
/// what is computed outside gives the same answer to the same question.
pub proof fn law_same_seed_same_result(
    a: (Scene, Rng),
    b: (Scene, Rng),
    a_next: (Scene, Rng),
    b_next: (Scene, Rng),
    seed: u64,
    vs: Seq<Verdict>,
    layers: Seq<Vec<Verdict>>,
    o: Outside,
    opts: SketchOptions,
)
    requires
        o.steady(),
        leads(a, a_next, vs, layers, o, opts),
        leads(b, b_next, vs, layers, o, opts),
        same_scene(a.0, b.0),
        a.1 == rng::seeded(seed),
        b.1 == rng::seeded(seed),
    ensures
        same_scene(a_next.0, b_next.0),
        a_next.1 == b_next.1,
{
    let x = choose|states: Seq<(Scene, Rng)>| #[trigger]
        repeat::is_pass(states, vs, layers, o, opts) && states[0] == a && states.last() == a_next;
    let y = choose|states: Seq<(Scene, Rng)>| #[trigger]
        repeat::is_pass(states, vs, layers, o, opts) && states[0] == b && states.last() == b_next;
    repeat::law_same_seed_same_scene(x, y, seed, vs, layers, o, opts);
}

} // verus!

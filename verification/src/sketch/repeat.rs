//! The states of a pass over a scene, and what two passes have in common.
//!
//! A pass draws the selected elements one after the other. What is computed outside, the measure
//! of an element, the points of a line and their distances, stands here as a relation between a
//! question and its answers.

use vstd::prelude::*;
use crate::copy;
use crate::copy::{same_element, same_node, same_nodes, same_scene};
use crate::fit;
use crate::fit::{Facts, Measure};
use crate::geometry::{Point, Rect, Vec2};
use crate::path::PathEl;
use crate::scalar::Scalar;
use crate::scene::{Element, Scene, SceneNode};
use crate::sketch::options::{SketchKind, SketchOptions};
use crate::sketch::pass;
use crate::sketch::pass::{Plan, Trace, Verdict};
use crate::sketch::rng;
use crate::sketch::rng::Rng;
use crate::style;
use crate::style::{SketchFill, Stroke};

verus! {

/// The value of a [`Trace`].
#[verifier::ext_equal]
pub enum TraceView {
    Nothing,
    Points { points: Seq<Point>, closed: bool },
    Rounded { rect: Rect, radius: Scalar },
    Arc {
        center: Point,
        radii: Vec2,
        rotation: Scalar,
        start: Scalar,
        sweep: Scalar,
        lead: Option<Point>,
        closed: bool,
    },
    Path { path: Seq<PathEl>, closed: bool },
}

impl View for Trace {
    type V = TraceView;

    open spec fn view(&self) -> TraceView {
        match *self {
            Trace::Nothing => TraceView::Nothing,
            Trace::Points { points, closed } => TraceView::Points { points: points@, closed },
            Trace::Rounded { rect, radius } => TraceView::Rounded { rect, radius },
            Trace::Arc { center, radii, rotation, start, sweep, lead, closed } => TraceView::Arc {
                center,
                radii,
                rotation,
                start,
                sweep,
                lead,
                closed,
            },
            Trace::Path { path, closed } => TraceView::Path { path: path@, closed },
        }
    }
}

/// What a pass gets from outside: which answers may come back.
pub struct Outside {
    /// The measure of an element, and those below it.
    pub measure: spec_fn(Element, Facts, Seq<Measure>) -> bool,
    /// The cosine and the sine of the direction of fill lines.
    pub turn: Vec2,
    /// The points of a line, part by part.
    pub sample: spec_fn(TraceView, Seq<Seq<Point>>) -> bool,
    /// The distance between two points.
    pub distance: spec_fn(Point, Point, Scalar) -> bool,
}

/// The answers to what is asked of one element.
pub struct Reply {
    pub facts: Facts,
    pub below: Seq<Measure>,
    pub parts: Seq<Seq<Point>>,
    pub lens: Seq<Seq<Scalar>>,
}

impl Outside {
    /// The same question gets the same answer, and elements that draw the same measure the same.
    pub open spec fn steady(self) -> bool {
        &&& forall|a: Element, b: Element, f: Facts, g: Facts, x: Seq<Measure>, y: Seq<Measure>|
            #![trigger (self.measure)(a, f, x), (self.measure)(b, g, y)]
            same_element(a, b) && (self.measure)(a, f, x) && (self.measure)(b, g, y) ==> f == g && x
                == y
        &&& forall|t: TraceView, x: Seq<Seq<Point>>, y: Seq<Seq<Point>>|
            #![trigger (self.sample)(t, x), (self.sample)(t, y)]
            (self.sample)(t, x) && (self.sample)(t, y) ==> x == y
        &&& forall|p: Point, q: Point, x: Scalar, y: Scalar|
            #![trigger (self.distance)(p, q, x), (self.distance)(p, q, y)]
            (self.distance)(p, q, x) && (self.distance)(p, q, y) ==> x == y
    }

    /// The answers may come back for an element that is followed along a line.
    pub open spec fn answers(self, el: Element, trace: TraceView, reply: Reply) -> bool {
        &&& (self.measure)(el, reply.facts, reply.below)
        &&& (self.sample)(trace, reply.parts)
        &&& are_lengths(reply.lens, reply.parts, self.distance)
    }
}

/// The distances from each point of a part to the next, and from the last to the first.
pub open spec fn are_lengths(
    lens: Seq<Seq<Scalar>>,
    parts: Seq<Seq<Point>>,
    distance: spec_fn(Point, Point, Scalar) -> bool,
) -> bool {
    &&& lens.len() == parts.len()
    &&& forall|i: int|
        0 <= i < parts.len() ==> are_part_lengths(#[trigger] lens[i], parts[i], distance)
}

/// The distances from each point to the next, and from the last to the first.
pub open spec fn are_part_lengths(
    lens: Seq<Scalar>,
    part: Seq<Point>,
    distance: spec_fn(Point, Point, Scalar) -> bool,
) -> bool {
    &&& lens.len() == part.len()
    &&& forall|i: int|
        0 <= i < part.len() ==> distance(
            part[i],
            part[following(i, part.len())],
            #[trigger] lens[i],
        )
}

/// The index after `i` in a ring of `n`.
pub open spec fn following(i: int, n: nat) -> int {
    if i + 1 == n {
        0
    } else {
        i + 1
    }
}

/// An element is drawn by hand with a generator: it is planned, its line sampled, and the plan
/// carried out.
pub open spec fn sketched(
    el: Element,
    out: Seq<Element>,
    r: Rng,
    next: Rng,
    plan: Plan,
    reply: Reply,
    o: Outside,
    opts: SketchOptions,
) -> bool {
    let bounds = fit::element_rect(el, reply.facts, reply.below);
    &&& o.answers(el, plan.trace@, reply)
    &&& pass::is_plan(plan, el, bounds, o.turn, r, opts)
    &&& pass::carried_out(
        out,
        el,
        plan,
        reply.parts,
        reply.lens,
        r.after(pass::plan_draws(el, opts)),
        next,
        opts,
    )
}

/// The plan leads from one scene and generator to the next: the element is drawn by hand, and
/// what comes of it put in its place.
pub open spec fn draws(
    prior: (Scene, Rng),
    next: (Scene, Rng),
    path: Seq<int>,
    el: Element,
    plan: Plan,
    out: Seq<Element>,
    reply: Reply,
    o: Outside,
    opts: SketchOptions,
) -> bool {
    &&& sketched(el, out, prior.1, next.1, plan, reply, o, opts)
    &&& pass::replaced(next.0, prior.0, path, out)
}

/// The element at a place is drawn by hand.
pub open spec fn step(
    prior: (Scene, Rng),
    next: (Scene, Rng),
    path: Seq<int>,
    o: Outside,
    opts: SketchOptions,
) -> bool {
    match pass::element_of(prior.0, path) {
        None => next == prior,
        Some(el) => exists|plan: Plan, out: Seq<Element>, reply: Reply| #[trigger]
            draws(prior, next, path, el, plan, out, reply, o, opts),
    }
}

/// The scenes and generators of a pass, from before the first element to after the last.
pub open spec fn is_pass(
    states: Seq<(Scene, Rng)>,
    vs: Seq<Verdict>,
    layers: Seq<Vec<Verdict>>,
    o: Outside,
    opts: SketchOptions,
) -> bool {
    let s = states[0].0;
    let targets = pass::scene_targets(s, vs, layers, opts, s.layers@.len());
    &&& states.len() == targets.len() + 1
    &&& forall|i: int|
        #![trigger targets[i]]
        0 <= i < targets.len() ==> step(states[i], states[i + 1], targets[i], o, opts)
}

proof fn lemma_no_targets_in_node(
    node: SceneNode,
    accepted: bool,
    vs: Seq<Verdict>,
    path: Seq<int>,
    opts: SketchOptions,
)
    requires
        forall|k: SketchKind| !opts.kinds.has(k),
    ensures
        pass::node_targets(node, accepted, vs, path, opts) == Seq::<Seq<int>>::empty(),
    decreases node, 0nat,
{
    match node.element {
        Element::Group { children } => {
            lemma_no_targets_in_list(children@, vs, path, opts, children@.len());
        },
        _ => {},
    }
}

proof fn lemma_no_targets_in_list(
    nodes: Seq<SceneNode>,
    vs: Seq<Verdict>,
    path: Seq<int>,
    opts: SketchOptions,
    n: nat,
)
    requires
        forall|k: SketchKind| !opts.kinds.has(k),
    ensures
        pass::list_targets(nodes, vs, path, opts, n) == Seq::<Seq<int>>::empty(),
    decreases nodes, n,
{
    if 0 < n <= nodes.len() {
        let i = n - 1;
        lemma_no_targets_in_list(nodes, vs, path, opts, i as nat);
        lemma_no_targets_in_node(
            nodes[i],
            pass::accepted_at(vs, i),
            pass::verdicts_below(vs, i),
            path.push(i),
            opts,
        );
    }
}

/// With no kinds selected no element of a scene is drawn by hand.
pub proof fn law_no_kinds_no_targets(
    s: Scene,
    vs: Seq<Verdict>,
    layers: Seq<Vec<Verdict>>,
    opts: SketchOptions,
    n: nat,
)
    requires
        forall|k: SketchKind| !opts.kinds.has(k),
    ensures
        pass::scene_targets(s, vs, layers, opts, n) == Seq::<Seq<int>>::empty(),
    decreases n,
{
    lemma_no_targets_in_list(s.nodes@, vs, seq![0int], opts, s.nodes@.len());
    if 0 < n <= s.layers@.len() {
        let i = n - 1;
        let layer = s.layers@[i];
        law_no_kinds_no_targets(s, vs, layers, opts, i as nat);
        lemma_no_targets_in_list(
            layer.nodes@,
            pass::layer_verdicts(layers, i),
            seq![i + 1],
            opts,
            layer.nodes@.len(),
        );
    }
}

/// With no kinds selected a pass leaves the scene as it was.
pub proof fn law_no_kinds_leave_the_scene(
    states: Seq<(Scene, Rng)>,
    vs: Seq<Verdict>,
    layers: Seq<Vec<Verdict>>,
    o: Outside,
    opts: SketchOptions,
)
    requires
        is_pass(states, vs, layers, o, opts),
        forall|k: SketchKind| !opts.kinds.has(k),
    ensures
        states.last() == states[0],
{
    let s = states[0].0;
    law_no_kinds_no_targets(s, vs, layers, opts, s.layers@.len());
}

/// Elements that draw the same have the same stroke, fill and kind.
proof fn lemma_same_looks(a: Element, b: Element)
    requires
        same_element(a, b),
    ensures
        pass::style_view(a) == pass::style_view(b),
        pass::stroke_view_of(a) == pass::stroke_view_of(b),
        pass::fill_view_of(a) == pass::fill_view_of(b),
        pass::trace_draws(a) == pass::trace_draws(b),
        SketchKind::kind_of(a) == SketchKind::kind_of(b),
        a is Group <==> b is Group,
{
}

/// Strokes of the same width need the same room.
proof fn lemma_same_room(r: Rect, a: Option<Stroke>, b: Option<Stroke>)
    requires
        style::stroke_view(a) == style::stroke_view(b),
    ensures
        fit::outlined(r, a) == fit::outlined(r, b),
{
    if a is Some {
        assert(a->0@.width == b->0@.width);
    }
}

/// Primitives that draw the same and measure the same have the same box.
proof fn lemma_same_primitive_rect(a: Element, b: Element, m: Facts)
    requires
        same_element(a, b),
        !(a is Group),
    ensures
        fit::primitive_rect(a, m) == fit::primitive_rect(b, m),
{
    reveal(fit::primitive_rect);
    assert forall|r: Rect|
        #![trigger fit::outlined(r, fit_stroke(a))]
        fit::outlined(r, fit_stroke(a)) == fit::outlined(r, fit_stroke(b)) by {
        lemma_same_room(r, fit_stroke(a), fit_stroke(b));
    }
}

/// The stroke that an element keeps room for.
spec fn fit_stroke(el: Element) -> Option<Stroke> {
    match el {
        Element::Rect { rect, style } => style.stroke,
        Element::RoundedRect { rect, radius, style } => style.stroke,
        Element::Circle { center, radius, style } => style.stroke,
        Element::Ellipse { center, radii, rotation, style } => style.stroke,
        Element::Polygon { points, style } => style.stroke,
        Element::Pie { center, radius, start_angle, sweep_angle, style } => style.stroke,
        Element::Path { path, style, closed } => style.stroke,
        Element::GradientPath { path, gradient, stroke } => stroke,
        Element::Line { start, end, style } => Some(style),
        Element::Polyline { points, style } => Some(style),
        Element::Arc { center, radii, start_angle, sweep_angle, style } => Some(style),
        _ => None,
    }
}

proof fn lemma_same_element_rect(a: Element, b: Element, m: Facts, ms: Seq<Measure>)
    requires
        same_element(a, b),
    ensures
        fit::element_rect(a, m, ms) == fit::element_rect(b, m, ms),
    decreases a, 0nat,
{
    match (a, b) {
        (Element::Group { children: c }, Element::Group { children: d }) => {
            lemma_same_nodes_rect(c@, d@, ms, c@.len());
        },
        _ => {
            lemma_same_primitive_rect(a, b, m);
        },
    }
}

proof fn lemma_same_node_rect(a: SceneNode, b: SceneNode, m: Facts, ms: Seq<Measure>)
    requires
        same_node(a, b),
    ensures
        fit::node_rect(a, m, ms) == fit::node_rect(b, m, ms),
    decreases a, 0nat,
{
    lemma_same_element_rect(a.element, b.element, m, ms);
}

proof fn lemma_same_nodes_rect(a: Seq<SceneNode>, b: Seq<SceneNode>, ms: Seq<Measure>, n: nat)
    requires
        n <= a.len(),
        a.len() == b.len(),
        same_nodes(a, b, n),
    ensures
        fit::nodes_rect(a, ms, n) == fit::nodes_rect(b, ms, n),
    decreases a, n + 1,
{
    if n > 0 {
        let i = n - 1;
        lemma_same_nodes_rect(a, b, ms, i as nat);
        lemma_same_node_rect(a[i], b[i], fit::facts_at(ms, i), fit::below(ms, i));
    }
}

proof fn lemma_same_node_targets(
    a: SceneNode,
    b: SceneNode,
    accepted: bool,
    vs: Seq<Verdict>,
    path: Seq<int>,
    opts: SketchOptions,
)
    requires
        same_node(a, b),
    ensures
        pass::node_targets(a, accepted, vs, path, opts) == pass::node_targets(
            b,
            accepted,
            vs,
            path,
            opts,
        ),
    decreases a, 0nat,
{
    lemma_same_looks(a.element, b.element);
    match (a.element, b.element) {
        (Element::Group { children: c }, Element::Group { children: d }) => {
            lemma_same_list_targets(c@, d@, vs, path, opts, c@.len());
        },
        _ => {},
    }
}

proof fn lemma_same_list_targets(
    a: Seq<SceneNode>,
    b: Seq<SceneNode>,
    vs: Seq<Verdict>,
    path: Seq<int>,
    opts: SketchOptions,
    n: nat,
)
    requires
        n <= a.len(),
        a.len() == b.len(),
        same_nodes(a, b, n),
    ensures
        pass::list_targets(a, vs, path, opts, n) == pass::list_targets(b, vs, path, opts, n),
    decreases a, n + 1,
{
    if n > 0 {
        let i = n - 1;
        lemma_same_list_targets(a, b, vs, path, opts, i as nat);
        lemma_same_node_targets(
            a[i],
            b[i],
            pass::accepted_at(vs, i),
            pass::verdicts_below(vs, i),
            path.push(i),
            opts,
        );
    }
}

/// In scenes that draw the same the same places are drawn by hand.
pub proof fn law_same_scenes_same_targets(
    a: Scene,
    b: Scene,
    vs: Seq<Verdict>,
    layers: Seq<Vec<Verdict>>,
    opts: SketchOptions,
    n: nat,
)
    requires
        same_scene(a, b),
    ensures
        pass::scene_targets(a, vs, layers, opts, n) == pass::scene_targets(
            b,
            vs,
            layers,
            opts,
            n,
        ),
    decreases n,
{
    lemma_same_list_targets(a.nodes@, b.nodes@, vs, seq![0int], opts, a.nodes@.len());
    if 0 < n <= a.layers@.len() {
        let i = n - 1;
        law_same_scenes_same_targets(a, b, vs, layers, opts, i as nat);
        assert(copy::same_layer(a.layers@[i], b.layers@[i]));
        lemma_same_list_targets(
            a.layers@[i].nodes@,
            b.layers@[i].nodes@,
            pass::layer_verdicts(layers, i),
            seq![i + 1],
            opts,
            a.layers@[i].nodes@.len(),
        );
    }
}

/// The elements, where there are any, draw the same.
spec fn same_found(a: Option<Element>, b: Option<Element>) -> bool {
    match (a, b) {
        (Some(a), Some(b)) => same_element(a, b),
        (None, None) => true,
        _ => false,
    }
}

proof fn lemma_same_element_in(a: Seq<SceneNode>, b: Seq<SceneNode>, path: Seq<int>)
    requires
        a.len() == b.len(),
        same_nodes(a, b, a.len()),
    ensures
        same_found(pass::element_in(a, path), pass::element_in(b, path)),
    decreases path.len(),
{
    if path.len() > 0 && 0 <= path[0] < a.len() {
        let k = path[0];
        copy::lemma_same_at(a, b, a.len(), k);
        assert(same_node(a[k], b[k]));
        if path.len() > 1 {
            match (a[k].element, b[k].element) {
                (Element::Group { children: c }, Element::Group { children: d }) => {
                    lemma_same_element_in(c@, d@, path.skip(1));
                },
                _ => {},
            }
        }
    }
}

proof fn lemma_same_element_of(a: Scene, b: Scene, path: Seq<int>)
    requires
        same_scene(a, b),
    ensures
        same_found(pass::element_of(a, path), pass::element_of(b, path)),
{
    if path.len() > 0 {
        if path[0] == 0 {
            lemma_same_element_in(a.nodes@, b.nodes@, path.skip(1));
        } else if 1 <= path[0] <= a.layers@.len() {
            let i = path[0] - 1;
            assert(copy::same_layer(a.layers@[i], b.layers@[i]));
            lemma_same_element_in(a.layers@[i].nodes@, b.layers@[i].nodes@, path.skip(1));
        }
    }
}

/// Shapes that draw the same, filled by hand in the same way, draw the same.
proof fn lemma_same_fill(x: Element, y: Element, a: Element, b: Element, f: SketchFill)
    requires
        same_element(a, b),
        pass::is_fill_of(x, a, f),
        pass::is_fill_of(y, b, f),
    ensures
        same_element(x, y),
{
}

/// Elements that draw the same are followed along the same line.
proof fn lemma_same_trace(t: Trace, u: Trace, a: Element, b: Element, r: Rng)
    requires
        same_element(a, b),
        pass::follows(t, a, r),
        pass::follows(u, b, r),
    ensures
        t@ == u@,
{
}

proof fn lemma_same_closing(t: Trace, u: Trace)
    requires
        t@ == u@,
    ensures
        pass::is_closed(t) == pass::is_closed(u),
        t is Nothing <==> u is Nothing,
{
}

/// The parts draw the same, one by one.
spec fn same_parts(a: Seq<Element>, b: Seq<Element>) -> bool {
    a.len() == b.len() && a.len() <= 2 && forall|i: int|
        0 <= i < a.len() ==> same_element(#[trigger] a[i], b[i])
}

/// Distances between the same points are the same.
proof fn lemma_same_lengths(
    x: Seq<Seq<Scalar>>,
    y: Seq<Seq<Scalar>>,
    parts: Seq<Seq<Point>>,
    o: Outside,
)
    requires
        o.steady(),
        are_lengths(x, parts, o.distance),
        are_lengths(y, parts, o.distance),
    ensures
        x == y,
{
    assert forall|i: int| 0 <= i < x.len() implies x[i] == y[i] by {
        let p = parts[i];
        assert(are_part_lengths(x[i], p, o.distance) && are_part_lengths(y[i], p, o.distance));
        assert forall|j: int| 0 <= j < p.len() implies x[i][j] == y[i][j] by {
            let q = p[following(j, p.len())];
            assert((o.distance)(p[j], q, x[i][j]));
            assert((o.distance)(p[j], q, y[i][j]));
        }
        assert(x[i] =~= y[i]);
    }
    assert(x =~= y);
}

/// Plans for elements that draw the same lead to the same drawing.
proof fn lemma_same_drawing(
    prior: (Scene, Rng),
    next: (Scene, Rng),
    path: Seq<int>,
    el: Element,
    plan: Plan,
    out: Seq<Element>,
    reply: Reply,
    prior2: (Scene, Rng),
    next2: (Scene, Rng),
    el2: Element,
    plan2: Plan,
    out2: Seq<Element>,
    reply2: Reply,
    o: Outside,
    opts: SketchOptions,
)
    requires
        o.steady(),
        same_element(el, el2),
        prior.1 == prior2.1,
        draws(prior, next, path, el, plan, out, reply, o, opts),
        draws(prior2, next2, path, el2, plan2, out2, reply2, o, opts),
    ensures
        same_parts(out, out2),
        next.1 == next2.1,
{
    lemma_same_looks(el, el2);
    assert(reply.facts == reply2.facts && reply.below == reply2.below);
    lemma_same_element_rect(el, el2, reply.facts, reply.below);
    let bounds = fit::element_rect(el, reply.facts, reply.below);
    assert(bounds == fit::element_rect(el2, reply2.facts, reply2.below));
    let fill = pass::sketch_fill_of(el, bounds, o.turn, opts);
    assert(fill == pass::sketch_fill_of(el2, bounds, o.turn, opts));
    assert(pass::outline_stroke(el, opts) == pass::outline_stroke(el2, opts));
    assert(plan.stroke is Some <==> plan2.stroke is Some);
    if plan.stroke is Some {
        lemma_same_trace(plan.trace, plan2.trace, el, el2, prior.1);
        assert(plan.stroke->0@ == plan2.stroke->0@);
    }
    assert(plan.trace@ == plan2.trace@);
    assert(reply.parts == reply2.parts);
    lemma_same_lengths(reply.lens, reply2.lens, reply.parts, o);
    lemma_same_closing(plan.trace, plan2.trace);
    assert(plan.fill is Some <==> plan2.fill is Some);
    if plan.fill is Some {
        lemma_same_fill(plan.fill->0, plan2.fill->0, el, el2, fill->0);
    }
}

/// What stands in the place of elements that draw the same draws the same.
proof fn lemma_same_place(
    x: Element,
    y: Element,
    a: Element,
    b: Element,
    p: Seq<Element>,
    q: Seq<Element>,
)
    requires
        same_element(a, b),
        same_parts(p, q),
        pass::takes_place(x, a, p),
        pass::takes_place(y, b, q),
    ensures
        same_element(x, y),
{
    if p.len() == 1 {
        assert(same_element(p[0], q[0]));
    } else if p.len() == 2 {
        assert(same_element(p[0], q[0]));
        assert(same_element(p[1], q[1]));
        match (x, y) {
            (Element::Group { children: c }, Element::Group { children: d }) => {
                assert forall|i: int| 0 <= i < c@.len() implies same_node(
                    #[trigger] c@[i],
                    d@[i],
                ) by {
                    assert(pass::plain_node(c@[i]) && pass::plain_node(d@[i]));
                }
                copy::lemma_same_by_node(c@, d@, c@.len());
            },
            _ => {},
        }
    }
}

proof fn lemma_same_replaced_in(
    x: Seq<SceneNode>,
    y: Seq<SceneNode>,
    a: Seq<SceneNode>,
    b: Seq<SceneNode>,
    path: Seq<int>,
    p: Seq<Element>,
    q: Seq<Element>,
)
    requires
        a.len() == b.len(),
        same_nodes(a, b, a.len()),
        same_parts(p, q),
        pass::replaced_in(x, a, path, p),
        pass::replaced_in(y, b, path, q),
    ensures
        x.len() == y.len(),
        same_nodes(x, y, x.len()),
    decreases path.len(),
{
    if path.len() > 0 && 0 <= path[0] < a.len() {
        let k = path[0];
        assert forall|i: int| 0 <= i < x.len() implies same_node(#[trigger] x[i], y[i]) by {
            copy::lemma_same_at(a, b, a.len(), i);
            assert(same_node(a[i], b[i]));
            if i == k {
                if path.len() == 1 {
                    lemma_same_place(
                        x[k].element,
                        y[k].element,
                        a[k].element,
                        b[k].element,
                        p,
                        q,
                    );
                } else {
                    match (a[k].element, b[k].element) {
                        (Element::Group { children: c }, Element::Group { children: d }) => {
                            match (x[k].element, y[k].element) {
                                (
                                    Element::Group { children: u },
                                    Element::Group { children: v },
                                ) => {
                                    lemma_same_replaced_in(
                                        u@,
                                        v@,
                                        c@,
                                        d@,
                                        path.skip(1),
                                        p,
                                        q,
                                    );
                                },
                                _ => {},
                            }
                        },
                        _ => {},
                    }
                }
            } else {
                assert(x[i] == a[i] && y[i] == b[i]);
            }
        }
        copy::lemma_same_by_node(x, y, x.len());
    }
}

proof fn lemma_same_replaced(
    x: Scene,
    y: Scene,
    a: Scene,
    b: Scene,
    path: Seq<int>,
    p: Seq<Element>,
    q: Seq<Element>,
)
    requires
        same_scene(a, b),
        same_parts(p, q),
        pass::replaced(x, a, path, p),
        pass::replaced(y, b, path, q),
    ensures
        same_scene(x, y),
{
    if path.len() > 0 && path[0] == 0 {
        lemma_same_replaced_in(x.nodes@, y.nodes@, a.nodes@, b.nodes@, path.skip(1), p, q);
        assert forall|i: int| 0 <= i < x.layers@.len() implies copy::same_layer(
            #[trigger] x.layers@[i],
            y.layers@[i],
        ) by {
            assert(copy::same_layer(a.layers@[i], b.layers@[i]));
        }
    } else if path.len() > 0 && 0 < path[0] <= a.layers@.len() {
        let k = path[0] - 1;
        assert(copy::same_layer(a.layers@[k], b.layers@[k]));
        lemma_same_replaced_in(
            x.layers@[k].nodes@,
            y.layers@[k].nodes@,
            a.layers@[k].nodes@,
            b.layers@[k].nodes@,
            path.skip(1),
            p,
            q,
        );
        assert forall|i: int| 0 <= i < x.layers@.len() implies copy::same_layer(
            #[trigger] x.layers@[i],
            y.layers@[i],
        ) by {
            assert(copy::same_layer(a.layers@[i], b.layers@[i]));
            if i != k {
                assert(x.layers@[i] == a.layers@[i] && y.layers@[i] == b.layers@[i]);
            }
        }
    } else {
        assert forall|i: int| 0 <= i < x.layers@.len() implies copy::same_layer(
            #[trigger] x.layers@[i],
            y.layers@[i],
        ) by {
            assert(copy::same_layer(a.layers@[i], b.layers@[i]));
        }
    }
}

/// One step of a pass: scenes that draw the same go over into scenes that draw the same.
proof fn lemma_same_step(
    prior: (Scene, Rng),
    next: (Scene, Rng),
    prior2: (Scene, Rng),
    next2: (Scene, Rng),
    path: Seq<int>,
    o: Outside,
    opts: SketchOptions,
)
    requires
        o.steady(),
        same_scene(prior.0, prior2.0),
        prior.1 == prior2.1,
        step(prior, next, path, o, opts),
        step(prior2, next2, path, o, opts),
    ensures
        same_scene(next.0, next2.0),
        next.1 == next2.1,
{
    lemma_same_element_of(prior.0, prior2.0, path);
    match (pass::element_of(prior.0, path), pass::element_of(prior2.0, path)) {
        (Some(el), Some(el2)) => {
            let (plan, out, reply) = choose|plan: Plan, out: Seq<Element>, reply: Reply| #[trigger]
                draws(prior, next, path, el, plan, out, reply, o, opts);
            let (plan2, out2, reply2) = choose|
                plan: Plan,
                out: Seq<Element>,
                reply: Reply,
            | #[trigger] draws(prior2, next2, path, el2, plan, out, reply, o, opts);
            lemma_same_drawing(
                prior,
                next,
                path,
                el,
                plan,
                out,
                reply,
                prior2,
                next2,
                el2,
                plan2,
                out2,
                reply2,
                o,
                opts,
            );
            lemma_same_replaced(next.0, next2.0, prior.0, prior2.0, path, out, out2);
        },
        _ => {},
    }
}

proof fn lemma_same_states(
    a: Seq<(Scene, Rng)>,
    b: Seq<(Scene, Rng)>,
    vs: Seq<Verdict>,
    layers: Seq<Vec<Verdict>>,
    o: Outside,
    opts: SketchOptions,
    n: nat,
)
    requires
        o.steady(),
        is_pass(a, vs, layers, o, opts),
        is_pass(b, vs, layers, o, opts),
        same_scene(a[0].0, b[0].0),
        a[0].1 == b[0].1,
        n < a.len(),
    ensures
        a.len() == b.len(),
        same_scene(a[n as int].0, b[n as int].0),
        a[n as int].1 == b[n as int].1,
    decreases n,
{
    let s = a[0].0;
    let t = b[0].0;
    law_same_scenes_same_targets(s, t, vs, layers, opts, s.layers@.len());
    if n > 0 {
        let i = n - 1;
        lemma_same_states(a, b, vs, layers, o, opts, i as nat);
        let targets = pass::scene_targets(s, vs, layers, opts, s.layers@.len());
        let path = targets[i];
        assert(step(a[i], a[i + 1], path, o, opts));
        assert(step(b[i], b[i + 1], path, o, opts));
        lemma_same_step(a[i], a[i + 1], b[i], b[i + 1], path, o, opts);
    }
}

/// Passes with the same seed over scenes that draw the same end with scenes that draw the same:
/// hand-drawn scenes can be made again.
pub proof fn law_same_seed_same_scene(
    a: Seq<(Scene, Rng)>,
    b: Seq<(Scene, Rng)>,
    seed: u64,
    vs: Seq<Verdict>,
    layers: Seq<Vec<Verdict>>,
    o: Outside,
    opts: SketchOptions,
)
    requires
        o.steady(),
        is_pass(a, vs, layers, o, opts),
        is_pass(b, vs, layers, o, opts),
        same_scene(a[0].0, b[0].0),
        a[0].1 == rng::seeded(seed),
        b[0].1 == rng::seeded(seed),
    ensures
        same_scene(a.last().0, b.last().0),
        a.last().1 == b.last().1,
{
    lemma_same_states(a, b, vs, layers, o, opts, (a.len() - 1) as nat);
}

} // verus!

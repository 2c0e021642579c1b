//! From a scene to the operations that draw it.
//!
//! A backend carries out the operations in order. Each opens or closes a scope or draws one
//! element; scopes nest.

use vstd::prelude::*;
use crate::geometry::Transform;
use crate::scalar::{Scalar, ONE_BITS};
use crate::scene;
use crate::scene::{Clip, Element, Layer, Scene, SceneNode};

pub mod arcs;
pub mod attributes;
pub mod bitmap;
pub mod encode;
pub mod frames;
pub mod inverse;
pub mod markup;
pub mod placement;
pub mod raster;
pub mod shapes;
pub mod spans;
pub mod svg;

verus! {

/// A drawing operation.
#[derive(Debug)]
pub enum RenderOp<'a> {
    PushTransform(Transform),
    PopTransform,
    PushClip(&'a Clip),
    PopClip,
    PushOpacity(Scalar),
    PopOpacity,
    PushName(&'a str),
    PopName,
    /// An element other than a group.
    Draw(&'a Element),
}

/// The value of a [`RenderOp`].
pub enum Op {
    PushTransform(Transform),
    PopTransform,
    PushClip(Clip),
    PopClip,
    PushOpacity(Scalar),
    PopOpacity,
    PushName(Seq<char>),
    PopName,
    Draw(Element),
}

impl<'a> View for RenderOp<'a> {
    type V = Op;

    open spec fn view(&self) -> Op {
        match *self {
            RenderOp::PushTransform(t) => Op::PushTransform(t),
            RenderOp::PopTransform => Op::PopTransform,
            RenderOp::PushClip(c) => Op::PushClip(*c),
            RenderOp::PopClip => Op::PopClip,
            RenderOp::PushOpacity(o) => Op::PushOpacity(o),
            RenderOp::PopOpacity => Op::PopOpacity,
            RenderOp::PushName(n) => Op::PushName(n@),
            RenderOp::PopName => Op::PopName,
            RenderOp::Draw(e) => Op::Draw(*e),
        }
    }
}

/// The values of a list of operations.
pub open spec fn op_views(v: Seq<RenderOp<'_>>) -> Seq<Op> {
    Seq::new(v.len(), |i: int| v[i]@)
}

/// An opacity of 1 needs no scope.
pub open spec fn faded(opacity: Scalar) -> bool {
    !opacity.same(Scalar { bits: ONE_BITS })
}

/// The operation, where it is needed.
pub open spec fn when(needed: bool, op: Op) -> Seq<Op> {
    if needed {
        seq![op]
    } else {
        Seq::empty()
    }
}

/// Opens the scopes of a node: transform, clip, opacity, name.
pub open spec fn enter_node(node: SceneNode) -> Seq<Op> {
    when(node.transform is Some, Op::PushTransform(node.transform->0)) + when(
        node.clip is Some,
        Op::PushClip(node.clip->0),
    ) + when(faded(node.opacity), Op::PushOpacity(node.opacity)) + when(
        node.name is Some,
        Op::PushName(node.name->0@),
    )
}

/// Closes the scopes of a node, in reverse.
pub open spec fn leave_node(node: SceneNode) -> Seq<Op> {
    when(node.name is Some, Op::PopName) + when(faded(node.opacity), Op::PopOpacity) + when(
        node.clip is Some,
        Op::PopClip,
    ) + when(node.transform is Some, Op::PopTransform)
}

/// Opens the scopes of a layer: transform, opacity, name.
pub open spec fn enter_layer(layer: Layer) -> Seq<Op> {
    when(layer.transform is Some, Op::PushTransform(layer.transform->0)) + when(
        faded(layer.opacity),
        Op::PushOpacity(layer.opacity),
    ) + when(layer.name@.len() > 0, Op::PushName(layer.name@))
}

/// Closes the scopes of a layer, in reverse.
pub open spec fn leave_layer(layer: Layer) -> Seq<Op> {
    when(layer.name@.len() > 0, Op::PopName) + when(faded(layer.opacity), Op::PopOpacity) + when(
        layer.transform is Some,
        Op::PopTransform,
    )
}

/// Draws a node: nothing where it is hidden, a group by its children in drawing order.
pub open spec fn node_ops(node: SceneNode) -> Seq<Op>
    decreases node, 0nat,
{
    if !node.visible {
        Seq::empty()
    } else {
        enter_node(node) + (match node.element {
            Element::Group { children } => list_ops(
                children@,
                scene::draw_order(children@),
            ),
            _ => seq![Op::Draw(node.element)],
        }) + leave_node(node)
    }
}

/// Draws the nodes at the given indices, in this order.
pub open spec fn list_ops(nodes: Seq<SceneNode>, order: Seq<int>) -> Seq<Op>
    decreases nodes, order.len(),
{
    if order.len() == 0 {
        Seq::empty()
    } else {
        list_ops(nodes, order.drop_last()) + (if 0 <= order.last() < nodes.len() {
            node_ops(nodes[order.last()])
        } else {
            Seq::empty()
        })
    }
}

/// Draws a layer: nothing where it is hidden.
pub open spec fn layer_ops(layer: Layer) -> Seq<Op> {
    if !layer.visible {
        Seq::empty()
    } else {
        enter_layer(layer) + list_ops(layer.nodes@, scene::draw_order(layer.nodes@)) + leave_layer(
            layer,
        )
    }
}

/// Draws the layers from bottom to top.
pub open spec fn layers_ops(layers: Seq<Layer>) -> Seq<Op>
    decreases layers.len(),
{
    if layers.len() == 0 {
        Seq::empty()
    } else {
        layers_ops(layers.drop_last()) + layer_ops(layers.last())
    }
}

/// Draws a scene: its nodes, and its layers above them.
pub open spec fn scene_ops(s: Scene) -> Seq<Op> {
    list_ops(s.nodes@, scene::draw_order(s.nodes@)) + layers_ops(s.layers@)
}

/// Appends an operation.
fn emit<'a>(out: &mut Vec<RenderOp<'a>>, op: RenderOp<'a>)
    ensures
        op_views(final(out)@) == op_views(old(out)@).push(op@),
{
    let ghost start = out@;
    out.push(op);
    assert(op_views(out@) =~= op_views(start).push(op@));
}

/// Opens the scopes of a node.
pub fn push_node_scope<'a>(node: &'a SceneNode, out: &mut Vec<RenderOp<'a>>)
    ensures
        op_views(final(out)@) == op_views(old(out)@) + enter_node(*node),
{
    let ghost start = op_views(out@);
    if let Some(t) = node.transform {
        emit(out, RenderOp::PushTransform(t));
    }
    if let Some(c) = &node.clip {
        emit(out, RenderOp::PushClip(c));
    }
    if !node.opacity.same_value(Scalar { bits: ONE_BITS }) {
        emit(out, RenderOp::PushOpacity(node.opacity));
    }
    if let Some(n) = &node.name {
        emit(out, RenderOp::PushName(n.as_str()));
    }
    assert(op_views(out@) =~= start + enter_node(*node));
}

/// Closes the scopes of a node.
pub fn pop_node_scope<'a>(node: &'a SceneNode, out: &mut Vec<RenderOp<'a>>)
    ensures
        op_views(final(out)@) == op_views(old(out)@) + leave_node(*node),
{
    let ghost start = op_views(out@);
    if node.name.is_some() {
        emit(out, RenderOp::PopName);
    }
    if !node.opacity.same_value(Scalar { bits: ONE_BITS }) {
        emit(out, RenderOp::PopOpacity);
    }
    if node.clip.is_some() {
        emit(out, RenderOp::PopClip);
    }
    if node.transform.is_some() {
        emit(out, RenderOp::PopTransform);
    }
    assert(op_views(out@) =~= start + leave_node(*node));
}

/// Draws a node and all below it.
pub fn render_node<'a>(node: &'a SceneNode, out: &mut Vec<RenderOp<'a>>)
    ensures
        op_views(final(out)@) == op_views(old(out)@) + node_ops(*node),
    decreases node, 0nat,
{
    let ghost start = op_views(out@);
    if !node.visible {
        assert(start + node_ops(*node) =~= start);
        return;
    }
    push_node_scope(node, out);
    match &node.element {
        Element::Group { children } => {
            render_list(children, out);
        },
        _ => {
            emit(out, RenderOp::Draw(&node.element));
        },
    }
    pop_node_scope(node, out);
    assert(op_views(out@) =~= start + node_ops(*node));
}

/// Draws nodes in drawing order.
pub fn render_list<'a>(nodes: &'a Vec<SceneNode>, out: &mut Vec<RenderOp<'a>>)
    ensures
        op_views(final(out)@) == op_views(old(out)@) + list_ops(
            nodes@,
            scene::draw_order(nodes@),
        ),
    decreases nodes@, nodes@.len() + 1,
{
    let order: Vec<usize> = SceneNode::ordered(nodes);
    let ghost ints = scene::as_ints(order@);
    let ghost start = op_views(out@);
    let mut i: usize = 0;
    assert(start =~= start + list_ops(nodes@, ints.take(0)));
    while i < order.len()
        invariant
            i <= order@.len(),
            ints == scene::as_ints(order@),
            forall|j: int| 0 <= j < order@.len() ==> #[trigger] order@[j] < nodes@.len(),
            op_views(out@) == start + list_ops(nodes@, ints.take(i as int)),
        decreases order.len() - i,
    {
        let k: usize = order[i];
        assert(order@[i as int] < nodes@.len());
        assert(ints.take(i + 1).drop_last() =~= ints.take(i as int));
        render_node(&nodes[k], out);
        i += 1;
        assert(op_views(out@) =~= start + list_ops(nodes@, ints.take(i as int)));
    }
    assert(ints.take(ints.len() as int) =~= ints);
}

/// Draws a layer.
pub fn render_layer<'a>(layer: &'a Layer, out: &mut Vec<RenderOp<'a>>)
    ensures
        op_views(final(out)@) == op_views(old(out)@) + layer_ops(*layer),
{
    let ghost start = op_views(out@);
    if !layer.visible {
        assert(start + layer_ops(*layer) =~= start);
        return;
    }
    let fade = !layer.opacity.same_value(Scalar { bits: ONE_BITS });
    let named = !layer.name.as_str().is_empty();
    if let Some(t) = layer.transform {
        emit(out, RenderOp::PushTransform(t));
    }
    if fade {
        emit(out, RenderOp::PushOpacity(layer.opacity));
    }
    if named {
        emit(out, RenderOp::PushName(layer.name.as_str()));
    }
    assert(op_views(out@) =~= start + enter_layer(*layer));
    render_list(&layer.nodes, out);
    let ghost drawn = op_views(out@);
    if named {
        emit(out, RenderOp::PopName);
    }
    if fade {
        emit(out, RenderOp::PopOpacity);
    }
    if layer.transform.is_some() {
        emit(out, RenderOp::PopTransform);
    }
    assert(op_views(out@) =~= drawn + leave_layer(*layer));
    assert(op_views(out@) =~= start + layer_ops(*layer));
}

/// The operations that draw a scene.
pub fn render_scene_ordered<'a>(s: &'a Scene) -> (out: Vec<RenderOp<'a>>)
    ensures
        op_views(out@) == scene_ops(*s),
{
    let mut out: Vec<RenderOp<'a>> = Vec::new();
    assert(op_views(out@) =~= Seq::<Op>::empty());
    render_list(&s.nodes, &mut out);
    let ghost below = list_ops(s.nodes@, scene::draw_order(s.nodes@));
    assert(op_views(out@) =~= below);
    let mut i: usize = 0;
    assert(below =~= below + layers_ops(s.layers@.take(0)));
    while i < s.layers.len()
        invariant
            i <= s.layers@.len(),
            op_views(out@) == below + layers_ops(s.layers@.take(i as int)),
        decreases s.layers.len() - i,
    {
        assert(s.layers@.take(i + 1).drop_last() =~= s.layers@.take(i as int));
        render_layer(&s.layers[i], &mut out);
        i += 1;
        assert(op_views(out@) =~= below + layers_ops(s.layers@.take(i as int)));
    }
    assert(s.layers@.take(s.layers@.len() as int) =~= s.layers@);
    out
}

/// The kind of an open scope.
pub enum ScopeKind {
    Transform,
    Clip,
    Opacity,
    Name,
}

/// The open scopes after an operation; `None` where it closes a scope that is not the innermost.
pub open spec fn step(open: Seq<ScopeKind>, op: Op) -> Option<Seq<ScopeKind>> {
    match op {
        Op::PushTransform(_) => Some(open.push(ScopeKind::Transform)),
        Op::PushClip(_) => Some(open.push(ScopeKind::Clip)),
        Op::PushOpacity(_) => Some(open.push(ScopeKind::Opacity)),
        Op::PushName(_) => Some(open.push(ScopeKind::Name)),
        Op::PopTransform => close(open, ScopeKind::Transform),
        Op::PopClip => close(open, ScopeKind::Clip),
        Op::PopOpacity => close(open, ScopeKind::Opacity),
        Op::PopName => close(open, ScopeKind::Name),
        Op::Draw(_) => Some(open),
    }
}

/// The open scopes without the innermost, where that is of the given kind.
pub open spec fn close(open: Seq<ScopeKind>, kind: ScopeKind) -> Option<Seq<ScopeKind>> {
    if open.len() > 0 && open.last() == kind {
        Some(open.drop_last())
    } else {
        None
    }
}

/// The open scopes after a list of operations.
pub open spec fn run(open: Seq<ScopeKind>, ops: Seq<Op>) -> Option<Seq<ScopeKind>>
    decreases ops.len(),
{
    if ops.len() == 0 {
        Some(open)
    } else {
        match run(open, ops.drop_last()) {
            Some(o) => step(o, ops.last()),
            None => None,
        }
    }
}

proof fn lemma_run_concat(open: Seq<ScopeKind>, a: Seq<Op>, b: Seq<Op>)
    ensures
        run(open, a + b) == match run(open, a) {
            Some(o) => run(o, b),
            None => None,
        },
    decreases b.len(),
{
    if b.len() == 0 {
        assert(a + b =~= a);
    } else {
        assert((a + b).drop_last() =~= a + b.drop_last());
        lemma_run_concat(open, a, b.drop_last());
    }
}

proof fn lemma_run_when(open: Seq<ScopeKind>, needed: bool, op: Op)
    ensures
        run(open, when(needed, op)) == if needed {
            step(open, op)
        } else {
            Some(open)
        },
{
    if needed {
        assert(seq![op].drop_last() =~= Seq::<Op>::empty());
        assert(run(open, Seq::<Op>::empty()) == Some(open));
    }
}

/// The scope, where it is opened.
spec fn opened(open: Seq<ScopeKind>, needed: bool, kind: ScopeKind) -> Seq<ScopeKind> {
    if needed {
        open.push(kind)
    } else {
        open
    }
}

proof fn lemma_enter_node(open: Seq<ScopeKind>, node: SceneNode)
    ensures
        run(open, enter_node(node)) == Some(node_scopes(open, node)),
{
    let a = when(node.transform is Some, Op::PushTransform(node.transform->0));
    let b = when(node.clip is Some, Op::PushClip(node.clip->0));
    let c = when(faded(node.opacity), Op::PushOpacity(node.opacity));
    let d = when(node.name is Some, Op::PushName(node.name->0@));
    let s1 = opened(open, node.transform is Some, ScopeKind::Transform);
    let s2 = opened(s1, node.clip is Some, ScopeKind::Clip);
    let s3 = opened(s2, faded(node.opacity), ScopeKind::Opacity);
    lemma_run_when(open, node.transform is Some, Op::PushTransform(node.transform->0));
    lemma_run_when(s1, node.clip is Some, Op::PushClip(node.clip->0));
    lemma_run_when(s2, faded(node.opacity), Op::PushOpacity(node.opacity));
    lemma_run_when(s3, node.name is Some, Op::PushName(node.name->0@));
    lemma_run_concat(open, a, b);
    lemma_run_concat(open, a + b, c);
    lemma_run_concat(open, a + b + c, d);
}

proof fn lemma_leave_node(open: Seq<ScopeKind>, node: SceneNode)
    ensures
        run(node_scopes(open, node), leave_node(node)) == Some(open),
{
    let d = when(node.name is Some, Op::PopName);
    let c = when(faded(node.opacity), Op::PopOpacity);
    let b = when(node.clip is Some, Op::PopClip);
    let a = when(node.transform is Some, Op::PopTransform);
    let s1 = opened(open, node.transform is Some, ScopeKind::Transform);
    let s2 = opened(s1, node.clip is Some, ScopeKind::Clip);
    let s3 = opened(s2, faded(node.opacity), ScopeKind::Opacity);
    let s4 = node_scopes(open, node);
    assert(node.name is Some ==> s4.drop_last() =~= s3);
    assert(faded(node.opacity) ==> s3.drop_last() =~= s2);
    assert(node.clip is Some ==> s2.drop_last() =~= s1);
    assert(node.transform is Some ==> s1.drop_last() =~= open);
    lemma_run_when(s4, node.name is Some, Op::PopName);
    lemma_run_when(s3, faded(node.opacity), Op::PopOpacity);
    lemma_run_when(s2, node.clip is Some, Op::PopClip);
    lemma_run_when(s1, node.transform is Some, Op::PopTransform);
    lemma_run_concat(s4, d, c);
    lemma_run_concat(s4, d + c, b);
    lemma_run_concat(s4, d + c + b, a);
}

/// The open scopes inside a node.
spec fn node_scopes(open: Seq<ScopeKind>, node: SceneNode) -> Seq<ScopeKind> {
    opened(
        opened(
            opened(
                opened(open, node.transform is Some, ScopeKind::Transform),
                node.clip is Some,
                ScopeKind::Clip,
            ),
            faded(node.opacity),
            ScopeKind::Opacity,
        ),
        node.name is Some,
        ScopeKind::Name,
    )
}

/// A node leaves the open scopes as it found them.
pub proof fn law_node_scopes_balance(open: Seq<ScopeKind>, node: SceneNode)
    ensures
        run(open, node_ops(node)) == Some(open),
    decreases node, 0nat,
{
    if node.visible {
        let inside = node_scopes(open, node);
        lemma_enter_node(open, node);
        lemma_leave_node(open, node);
        let body = match node.element {
            Element::Group { children } => list_ops(
                children@,
                scene::draw_order(children@),
            ),
            _ => seq![Op::Draw(node.element)],
        };
        match node.element {
            Element::Group { children } => {
                lemma_list_scopes(inside, children@, scene::draw_order(children@));
            },
            _ => {
                lemma_run_when(inside, true, Op::Draw(node.element));
            },
        }
        lemma_run_concat(open, enter_node(node), body);
        lemma_run_concat(open, enter_node(node) + body, leave_node(node));
    }
}

proof fn lemma_list_scopes(open: Seq<ScopeKind>, nodes: Seq<SceneNode>, order: Seq<int>)
    ensures
        run(open, list_ops(nodes, order)) == Some(open),
    decreases nodes, order.len(),
{
    if order.len() > 0 {
        lemma_list_scopes(open, nodes, order.drop_last());
        let last = if 0 <= order.last() < nodes.len() {
            node_ops(nodes[order.last()])
        } else {
            Seq::empty()
        };
        if 0 <= order.last() < nodes.len() {
            law_node_scopes_balance(open, nodes[order.last()]);
        }
        lemma_run_concat(open, list_ops(nodes, order.drop_last()), last);
    }
}

proof fn lemma_layer_scopes(open: Seq<ScopeKind>, layer: Layer)
    ensures
        run(open, layer_ops(layer)) == Some(open),
{
    if layer.visible {
        let named = layer.name@.len() > 0;
        let moved = layer.transform is Some;
        let fade = faded(layer.opacity);
        let s1 = opened(open, moved, ScopeKind::Transform);
        let s2 = opened(s1, fade, ScopeKind::Opacity);
        let s3 = opened(s2, named, ScopeKind::Name);
        let a = when(moved, Op::PushTransform(layer.transform->0));
        let b = when(fade, Op::PushOpacity(layer.opacity));
        let c = when(named, Op::PushName(layer.name@));
        lemma_run_when(open, moved, Op::PushTransform(layer.transform->0));
        lemma_run_when(s1, fade, Op::PushOpacity(layer.opacity));
        lemma_run_when(s2, named, Op::PushName(layer.name@));
        lemma_run_concat(open, a, b);
        lemma_run_concat(open, a + b, c);
        assert(named ==> s3.drop_last() =~= s2);
        assert(fade ==> s2.drop_last() =~= s1);
        assert(moved ==> s1.drop_last() =~= open);
        let x = when(named, Op::PopName);
        let y = when(fade, Op::PopOpacity);
        let z = when(moved, Op::PopTransform);
        lemma_run_when(s3, named, Op::PopName);
        lemma_run_when(s2, fade, Op::PopOpacity);
        lemma_run_when(s1, moved, Op::PopTransform);
        lemma_run_concat(s3, x, y);
        lemma_run_concat(s3, x + y, z);
        let body = list_ops(layer.nodes@, scene::draw_order(layer.nodes@));
        lemma_list_scopes(s3, layer.nodes@, scene::draw_order(layer.nodes@));
        lemma_run_concat(open, enter_layer(layer), body);
        lemma_run_concat(open, enter_layer(layer) + body, leave_layer(layer));
    }
}

proof fn lemma_layers_scopes(open: Seq<ScopeKind>, layers: Seq<Layer>)
    ensures
        run(open, layers_ops(layers)) == Some(open),
    decreases layers.len(),
{
    if layers.len() > 0 {
        lemma_layers_scopes(open, layers.drop_last());
        lemma_layer_scopes(open, layers.last());
        lemma_run_concat(open, layers_ops(layers.drop_last()), layer_ops(layers.last()));
    }
}

/// The operations of a scene close each scope that they open, innermost first, and no other.
pub proof fn law_scene_scopes_balance(s: Scene)
    ensures
        run(Seq::empty(), scene_ops(s)) == Some(Seq::<ScopeKind>::empty()),
{
    let open = Seq::<ScopeKind>::empty();
    let order = scene::draw_order(s.nodes@);
    lemma_list_scopes(open, s.nodes@, order);
    lemma_layers_scopes(open, s.layers@);
    lemma_run_concat(open, list_ops(s.nodes@, order), layers_ops(s.layers@));
}

/// Hidden nodes draw nothing.
pub proof fn law_hidden_nodes_draw_nothing(nodes: Seq<SceneNode>, order: Seq<int>)
    requires
        forall|i: int| 0 <= i < nodes.len() ==> !(#[trigger] nodes[i]).visible,
    ensures
        list_ops(nodes, order) == Seq::<Op>::empty(),
    decreases order.len(),
{
    if order.len() > 0 {
        law_hidden_nodes_draw_nothing(nodes, order.drop_last());
        if 0 <= order.last() < nodes.len() {
            assert(!nodes[order.last()].visible);
            assert(node_ops(nodes[order.last()]) == Seq::<Op>::empty());
        }
        assert(list_ops(nodes, order) =~= Seq::<Op>::empty());
    }
}

} // verus!

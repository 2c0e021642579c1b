//! Copies of lists and of scenes.

use std::sync::Arc;
use vstd::prelude::*;
use crate::scene;
use crate::scene::{Clip, Element, Layer, Scene, SceneImage, SceneNode};
use crate::style;
use crate::text::layout::TextLayout;
use crate::text::style::{clone_text, RichSpan};

verus! {

/// A copy of a list.
pub fn copied<T: Copy>(v: &Vec<T>) -> (r: Vec<T>)
    ensures
        r@ == v@,
{
    let mut r: Vec<T> = Vec::new();
    let mut i: usize = 0;
    while i < v.len()
        invariant
            i <= v@.len(),
            r@ == v@.take(i as int),
        decreases v.len() - i,
    {
        r.push(v[i]);
        i += 1;
        assert(r@ =~= v@.take(i as int));
    }
    assert(v@.take(v@.len() as int) =~= v@);
    r
}

/// A copy of spans.
pub fn copied_spans(v: &Vec<RichSpan>) -> (r: Vec<RichSpan>)
    ensures
        r@ == v@,
{
    let mut r: Vec<RichSpan> = Vec::new();
    let mut i: usize = 0;
    while i < v.len()
        invariant
            i <= v@.len(),
            r@ == v@.take(i as int),
        decreases v.len() - i,
    {
        r.push(v[i].clone());
        i += 1;
        assert(r@ =~= v@.take(i as int));
    }
    assert(v@.take(v@.len() as int) =~= v@);
    r
}

/// The optional clips cut alike.
pub open spec fn same_clips(a: Option<Clip>, b: Option<Clip>) -> bool {
    match (a, b) {
        (Some(a), Some(b)) => scene::same_clip(a, b),
        (None, None) => true,
        _ => false,
    }
}

/// A copy of an optional clip.
pub fn copied_clip(c: &Option<Clip>) -> (r: Option<Clip>)
    ensures
        same_clips(r, *c),
{
    match c {
        Some(c) => Some(c.clone()),
        None => None,
    }
}

/// The images show the same pixels in the same way.
pub open spec fn same_image(a: SceneImage, b: SceneImage) -> bool {
    a.object_fit == b.object_fit && a.pixmap.columns() == b.pixmap.columns() && a.pixmap.rows()
        == b.pixmap.rows() && a.pixmap.rgba() == b.pixmap.rgba()
}

/// The elements are of the same kind and draw the same.
pub open spec fn same_element(a: Element, b: Element) -> bool
    decreases a, 0nat,
{
    match (a, b) {
        (Element::Rect { rect: r, style: s }, Element::Rect { rect, style }) => r == rect && s@
            == style@,
        (
            Element::Circle { center: c, radius: r, style: s },
            Element::Circle { center, radius, style },
        ) => c == center && r == radius && s@ == style@,
        (
            Element::Ellipse { center: c, radii: r, rotation: t, style: s },
            Element::Ellipse { center, radii, rotation, style },
        ) => c == center && r == radii && t == rotation && s@ == style@,
        (
            Element::RoundedRect { rect: r, radius: k, style: s },
            Element::RoundedRect { rect, radius, style },
        ) => r == rect && k == radius && s@ == style@,
        (
            Element::Line { start: p, end: q, style: s },
            Element::Line { start, end, style },
        ) => p == start && q == end && s@ == style@,
        (
            Element::Polyline { points: p, style: s },
            Element::Polyline { points, style },
        ) => p@ == points@ && s@ == style@,
        (
            Element::Polygon { points: p, style: s },
            Element::Polygon { points, style },
        ) => p@ == points@ && s@ == style@,
        (
            Element::Arc { center: c, radii: r, start_angle: p, sweep_angle: q, style: s },
            Element::Arc { center, radii, start_angle, sweep_angle, style },
        ) => c == center && r == radii && p == start_angle && q == sweep_angle && s@ == style@,
        (
            Element::Pie { center: c, radius: r, start_angle: p, sweep_angle: q, style: s },
            Element::Pie { center, radius, start_angle, sweep_angle, style },
        ) => c == center && r == radius && p == start_angle && q == sweep_angle && s@ == style@,
        (
            Element::Path { path: p, style: s, closed: c },
            Element::Path { path, style, closed },
        ) => p@ == path@ && s@ == style@ && c == closed,
        (
            Element::Image { image: i, frame: f, opacity: o },
            Element::Image { image, frame, opacity },
        ) => same_image(i, image) && f == frame && o == opacity,
        (
            Element::GradientPath { path: p, gradient: g, stroke: s },
            Element::GradientPath { path, gradient, stroke },
        ) => p@ == path@ && g.start == gradient.start && g.end == gradient.end && g.stops@
            == gradient.stops@ && style::stroke_view(s) == style::stroke_view(stroke),
        (
            Element::Text { spans: t, position: p, style: s, layout: l },
            Element::Text { spans, position, style, layout },
        ) => t@ == spans@ && p == position && s == style && l == layout,
        (Element::Group { children: c }, Element::Group { children }) => same_nodes(
            c@,
            children@,
            c@.len(),
        ) && c@.len() == children@.len(),
        _ => false,
    }
}

/// The nodes draw the same.
pub open spec fn same_node(a: SceneNode, b: SceneNode) -> bool
    decreases a, 0nat,
{
    same_element(a.element, b.element) && a.z_index == b.z_index && a.transform == b.transform
        && a.opacity == b.opacity && a.name == b.name && a.visible == b.visible && same_clips(
        a.clip,
        b.clip,
    )
}

/// The first `n` nodes draw the same.
pub open spec fn same_nodes(a: Seq<SceneNode>, b: Seq<SceneNode>, n: nat) -> bool
    decreases a, n + 1,
    when n <= a.len()
{
    n == 0 || same_nodes(a, b, (n - 1) as nat) && same_node(a[n - 1], b[n - 1])
}

/// The layers draw the same.
pub open spec fn same_layer(a: Layer, b: Layer) -> bool {
    a.name == b.name && a.visible == b.visible && a.opacity == b.opacity && a.transform
        == b.transform && a.nodes@.len() == b.nodes@.len() && same_nodes(
        a.nodes@,
        b.nodes@,
        a.nodes@.len(),
    )
}

/// The scenes draw the same.
pub open spec fn same_scene(a: Scene, b: Scene) -> bool {
    &&& a.width == b.width
    &&& a.height == b.height
    &&& a.background == b.background
    &&& a.title == b.title
    &&& a.description == b.description
    &&& a.scale == b.scale
    &&& a.nodes@.len() == b.nodes@.len()
    &&& same_nodes(a.nodes@, b.nodes@, a.nodes@.len())
    &&& a.layers@.len() == b.layers@.len()
    &&& forall|i: int|
        0 <= i < a.layers@.len() ==> same_layer(#[trigger] a.layers@[i], b.layers@[i])
}

/// Lists that draw the same do so node by node.
pub proof fn lemma_same_at(a: Seq<SceneNode>, b: Seq<SceneNode>, n: nat, i: int)
    requires
        n <= a.len(),
        same_nodes(a, b, n),
        0 <= i < n,
    ensures
        same_node(a[i], b[i]),
    decreases n,
{
    if i < n - 1 {
        lemma_same_at(a, b, (n - 1) as nat, i);
    }
}

/// Lists whose nodes draw the same draw the same.
pub proof fn lemma_same_by_node(a: Seq<SceneNode>, b: Seq<SceneNode>, n: nat)
    requires
        n <= a.len(),
        forall|i: int| 0 <= i < n ==> same_node(#[trigger] a[i], b[i]),
    ensures
        same_nodes(a, b, n),
    decreases n,
{
    if n > 0 {
        lemma_same_by_node(a, b, (n - 1) as nat);
        assert(same_node(a[n - 1], b[n - 1]));
    }
}

/// Longer lists of copies agree on their common part.
proof fn lemma_same_prefix(a: Seq<SceneNode>, b: Seq<SceneNode>, x: SceneNode, n: nat)
    requires
        n <= a.len(),
        n <= b.len(),
        same_nodes(a, b, n),
    ensures
        same_nodes(a.push(x), b, n),
    decreases n,
{
    if n > 0 {
        lemma_same_prefix(a, b, x, (n - 1) as nat);
        assert(a.push(x)[n - 1] == a[n - 1]);
    }
}

fn copied_layout(l: &Option<Arc<TextLayout>>) -> (r: Option<Arc<TextLayout>>)
    ensures
        r == *l,
{
    match l {
        Some(l) => Some(l.clone()),
        None => None,
    }
}

fn copied_element(e: &Element) -> (r: Element)
    ensures
        same_element(r, *e),
    decreases e, 0nat,
{
    match e {
        Element::Rect { rect, style } => Element::Rect { rect: *rect, style: style.clone() },
        Element::Circle { center, radius, style } => Element::Circle {
            center: *center,
            radius: *radius,
            style: style.clone(),
        },
        Element::Ellipse { center, radii, rotation, style } => Element::Ellipse {
            center: *center,
            radii: *radii,
            rotation: *rotation,
            style: style.clone(),
        },
        Element::RoundedRect { rect, radius, style } => Element::RoundedRect {
            rect: *rect,
            radius: *radius,
            style: style.clone(),
        },
        Element::Line { start, end, style } => Element::Line {
            start: *start,
            end: *end,
            style: style.clone(),
        },
        Element::Polyline { points, style } => Element::Polyline {
            points: copied(points),
            style: style.clone(),
        },
        Element::Polygon { points, style } => Element::Polygon {
            points: copied(points),
            style: style.clone(),
        },
        Element::Arc { center, radii, start_angle, sweep_angle, style } => Element::Arc {
            center: *center,
            radii: *radii,
            start_angle: *start_angle,
            sweep_angle: *sweep_angle,
            style: style.clone(),
        },
        Element::Pie { center, radius, start_angle, sweep_angle, style } => Element::Pie {
            center: *center,
            radius: *radius,
            start_angle: *start_angle,
            sweep_angle: *sweep_angle,
            style: style.clone(),
        },
        Element::Path { path, style, closed } => Element::Path {
            path: path.clone(),
            style: style.clone(),
            closed: *closed,
        },
        Element::Image { image, frame, opacity } => Element::Image {
            image: image.clone(),
            frame: *frame,
            opacity: *opacity,
        },
        Element::GradientPath { path, gradient, stroke } => Element::GradientPath {
            path: path.clone(),
            gradient: gradient.clone(),
            stroke: style::copy_stroke(stroke),
        },
        Element::Text { spans, position, style, layout } => Element::Text {
            spans: copied_spans(spans),
            position: *position,
            style: style.clone(),
            layout: copied_layout(layout),
        },
        Element::Group { children } => Element::Group { children: copied_nodes(children) },
    }
}

fn copied_node(n: &SceneNode) -> (r: SceneNode)
    ensures
        same_node(r, *n),
    decreases n, 0nat,
{
    SceneNode {
        element: copied_element(&n.element),
        z_index: n.z_index,
        transform: n.transform,
        opacity: n.opacity,
        name: clone_text(&n.name),
        visible: n.visible,
        clip: copied_clip(&n.clip),
    }
}

fn copied_nodes(nodes: &Vec<SceneNode>) -> (r: Vec<SceneNode>)
    ensures
        r@.len() == nodes@.len(),
        same_nodes(r@, nodes@, r@.len()),
    decreases nodes@, nodes@.len() + 1,
{
    let mut r: Vec<SceneNode> = Vec::new();
    let mut i: usize = 0;
    while i < nodes.len()
        invariant
            i <= nodes@.len(),
            r@.len() == i,
            same_nodes(r@, nodes@, i as nat),
        decreases nodes.len() - i,
    {
        let n = copied_node(&nodes[i]);
        proof {
            lemma_same_prefix(r@, nodes@, n, i as nat);
        }
        r.push(n);
        i += 1;
    }
    r
}

impl Clone for Element {
    fn clone(&self) -> (r: Element)
        ensures
            same_element(r, *self),
    {
        copied_element(self)
    }
}

impl Clone for SceneNode {
    fn clone(&self) -> (r: SceneNode)
        ensures
            same_node(r, *self),
    {
        copied_node(self)
    }
}

impl Clone for Layer {
    fn clone(&self) -> (r: Layer)
        ensures
            same_layer(r, *self),
    {
        Layer {
            name: self.name.clone(),
            visible: self.visible,
            opacity: self.opacity,
            transform: self.transform,
            nodes: copied_nodes(&self.nodes),
        }
    }
}

impl Clone for Scene {
    fn clone(&self) -> (r: Scene)
        ensures
            same_scene(r, *self),
    {
        let mut layers: Vec<Layer> = Vec::new();
        let mut i: usize = 0;
        while i < self.layers.len()
            invariant
                i <= self.layers@.len(),
                layers@.len() == i,
                forall|j: int|
                    0 <= j < i ==> same_layer(#[trigger] layers@[j], self.layers@[j]),
            decreases self.layers.len() - i,
        {
            layers.push(self.layers[i].clone());
            i += 1;
        }
        Scene {
            width: self.width,
            height: self.height,
            background: self.background,
            nodes: copied_nodes(&self.nodes),
            layers,
            title: clone_text(&self.title),
            description: clone_text(&self.description),
            scale: self.scale,
        }
    }
}

} // verus!

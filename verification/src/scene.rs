//! The scene graph: elements, nodes, layers and scenes.

use vstd::prelude::*;
use crate::chars;
use crate::geometry::{Color, Point, Rect, Transform, Vec2};
use crate::path::BezPath;
use crate::pixmap;
use crate::pixmap::Pixmap;
use crate::scalar::{Scalar, ONE_BITS};
use crate::style::{FillStrokeStyle, LinearGradient, Stroke};
use crate::text::layout::TextLayout;
use crate::text::style::{RichSpan, TextStyle};
use std::sync::Arc;

verus! {

/// How an image fills its frame.
#[derive(Debug, Clone, Copy, PartialEq, Eq, Structural)]
pub enum ObjectFit {
    /// Scaled to fit inside, aspect kept (default).
    Contain,
    /// Scaled to cover, aspect kept, the rest cut off.
    Cover,
    /// Stretched to the frame.
    Fill,
    /// Not scaled; placed at the top left of the frame.
    Original,
}

impl Default for ObjectFit {
    fn default() -> (r: ObjectFit)
        ensures
            r == ObjectFit::Contain,
    {
        ObjectFit::Contain
    }
}

/// A bitmap in a scene.
#[derive(Debug)]
pub struct SceneImage {
    pub pixmap: Pixmap,
    pub object_fit: ObjectFit,
}

impl Clone for SceneImage {
    fn clone(&self) -> (r: SceneImage)
        ensures
            r.object_fit == self.object_fit,
            r.pixmap.columns() == self.pixmap.columns(),
            r.pixmap.rows() == self.pixmap.rows(),
            r.pixmap.rgba() == self.pixmap.rgba(),
    {
        SceneImage { pixmap: self.pixmap.clone(), object_fit: self.object_fit }
    }
}

impl SceneImage {
    /// An image that fits inside its frame.
    pub fn from_pixmap(pixmap: Pixmap) -> (r: SceneImage)
        ensures
            r == (SceneImage { pixmap, object_fit: ObjectFit::Contain }),
    {
        SceneImage { pixmap, object_fit: ObjectFit::Contain }
    }

    /// An image of RGBA8 pixels; `None` where there are not `4 * width * height` bytes.
    pub fn from_rgba8(width: u32, height: u32, pixels: Vec<u8>) -> (r: Option<SceneImage>)
        ensures
            r is Some <==> pixels@.len() == 4 * width * height,
            r matches Some(i) ==> i.object_fit == ObjectFit::Contain && i.pixmap.columns() == width
                && i.pixmap.rows() == height && i.pixmap.rgba() == pixels@,
    {
        match Pixmap::from_rgba8(width, height, pixels) {
            Some(p) => Some(SceneImage::from_pixmap(p)),
            None => None,
        }
    }

    /// The image in a PNG file; `None` where it cannot be decoded.
    pub fn from_png(bytes: &[u8]) -> (r: Option<SceneImage>)
        ensures
            r is None <==> pixmap::decoded(bytes@) is None,
            r matches Some(i) ==> i.object_fit == ObjectFit::Contain && pixmap::decoded(bytes@)
                == Some((i.pixmap.columns(), i.pixmap.rows(), i.pixmap.rgba())),
    {
        match Pixmap::decode_png(bytes) {
            Some(p) => Some(SceneImage::from_pixmap(p)),
            None => None,
        }
    }

    /// Pixel width.
    pub fn width(&self) -> (w: u32)
        ensures
            w == self.pixmap.columns(),
    {
        self.pixmap.width()
    }

    /// Pixel height.
    pub fn height(&self) -> (h: u32)
        ensures
            h == self.pixmap.rows(),
    {
        self.pixmap.height()
    }

    /// Sets how the image fills its frame.
    pub fn with_object_fit(self, fit: ObjectFit) -> (r: SceneImage)
        ensures
            r == (SceneImage { object_fit: fit, ..self }),
    {
        SceneImage { object_fit: fit, pixmap: self.pixmap }
    }

    /// The value of the SVG attribute `preserveAspectRatio`.
    pub open spec fn aspect(self) -> Seq<char> {
        match self.object_fit {
            ObjectFit::Contain => "xMidYMid meet"@,
            ObjectFit::Cover => "xMidYMid slice"@,
            ObjectFit::Fill => "none"@,
            ObjectFit::Original => "none"@,
        }
    }

    /// The value of the SVG attribute `preserveAspectRatio`.
    pub fn preserve_aspect_ratio(&self) -> (s: &'static str)
        ensures
            s@ == self.aspect(),
    {
        match self.object_fit {
            ObjectFit::Contain => "xMidYMid meet",
            ObjectFit::Cover => "xMidYMid slice",
            ObjectFit::Fill => "none",
            ObjectFit::Original => "none",
        }
    }
}

/// A shape that a node is clipped to.
#[derive(Debug, PartialEq)]
pub enum Clip {
    Rect(Rect),
    RoundedRect { rect: Rect, radius: Scalar },
    Circle { center: Point, radius: Scalar },
    Ellipse { center: Point, radii: Vec2, rotation: Scalar },
    Path(BezPath),
}

/// The value of a [`Clip`] is the clip with its path as a sequence.
pub open spec fn same_clip(a: Clip, b: Clip) -> bool {
    match (a, b) {
        (Clip::Path(p), Clip::Path(q)) => p@ == q@,
        _ => a == b,
    }
}

impl Clone for Clip {
    fn clone(&self) -> (r: Clip)
        ensures
            same_clip(r, *self),
    {
        match self {
            Clip::Rect(rect) => Clip::Rect(*rect),
            Clip::RoundedRect { rect, radius } => Clip::RoundedRect {
                rect: *rect,
                radius: *radius,
            },
            Clip::Circle { center, radius } => Clip::Circle { center: *center, radius: *radius },
            Clip::Ellipse { center, radii, rotation } => Clip::Ellipse {
                center: *center,
                radii: *radii,
                rotation: *rotation,
            },
            Clip::Path(p) => Clip::Path(p.clone()),
        }
    }
}

impl Clip {
    pub fn rect(rect: Rect) -> (r: Clip)
        ensures
            r == Clip::Rect(rect),
    {
        Clip::Rect(rect)
    }

    pub fn rounded_rect(rect: Rect, radius: Scalar) -> (r: Clip)
        ensures
            r == (Clip::RoundedRect { rect, radius }),
    {
        Clip::RoundedRect { rect, radius }
    }

    pub fn circle(center: Point, radius: Scalar) -> (r: Clip)
        ensures
            r == (Clip::Circle { center, radius }),
    {
        Clip::Circle { center, radius }
    }

    pub fn ellipse(center: Point, radii: Vec2, rotation: Scalar) -> (r: Clip)
        ensures
            r == (Clip::Ellipse { center, radii, rotation }),
    {
        Clip::Ellipse { center, radii, rotation }
    }

    pub fn path(path: BezPath) -> (r: Clip)
        ensures
            r == Clip::Path(path),
    {
        Clip::Path(path)
    }
}

/// A primitive or a group.
#[allow(inconsistent_fields)]
#[derive(Debug)]
pub enum Element {
    Rect { rect: Rect, style: FillStrokeStyle },
    Circle { center: Point, radius: Scalar, style: FillStrokeStyle },
    /// `radii` are the semi-axes; `rotation` is about the center, in radians.
    Ellipse { center: Point, radii: Vec2, rotation: Scalar, style: FillStrokeStyle },
    RoundedRect { rect: Rect, radius: Scalar, style: FillStrokeStyle },
    Line { start: Point, end: Point, style: Stroke },
    /// Open, stroke only.
    Polyline { points: Vec<Point>, style: Stroke },
    /// Closed.
    Polygon { points: Vec<Point>, style: FillStrokeStyle },
    /// Open, stroke only; angles in radians, clockwise.
    Arc {
        center: Point,
        radii: Vec2,
        start_angle: Scalar,
        sweep_angle: Scalar,
        style: Stroke,
    },
    /// A sector with its two radii.
    Pie {
        center: Point,
        radius: Scalar,
        start_angle: Scalar,
        sweep_angle: Scalar,
        style: FillStrokeStyle,
    },
    Path { path: BezPath, style: FillStrokeStyle, closed: bool },
    Image { image: SceneImage, frame: Rect, opacity: Scalar },
    GradientPath { path: BezPath, gradient: LinearGradient, stroke: Option<Stroke> },
    /// `layout`, where there is one, is the layout of `spans`.
    Text {
        spans: Vec<RichSpan>,
        position: Point,
        style: TextStyle,
        layout: Option<Arc<TextLayout>>,
    },
    Group { children: Vec<SceneNode> },
}

/// Whether the spans hold any text.
pub open spec fn has_text(spans: Seq<RichSpan>) -> bool {
    exists|i: int| 0 <= i < spans.len() && (#[trigger] spans[i]).text@.len() > 0
}

/// The layout that a text element keeps: one with lines, of spans that hold text.
pub open spec fn kept_layout(spans: Seq<RichSpan>, layout: Option<Arc<TextLayout>>) -> Option<
    Arc<TextLayout>,
> {
    match layout {
        Some(l) => if has_text(spans) && l.lines@.len() > 0 {
            Some(l)
        } else {
            None
        },
        None => None,
    }
}

impl Element {
    pub fn rect(rect: Rect, style: FillStrokeStyle) -> (r: Element)
        ensures
            r == (Element::Rect { rect, style }),
    {
        Element::Rect { rect, style }
    }

    pub fn circle(center: Point, radius: Scalar, style: FillStrokeStyle) -> (r: Element)
        ensures
            r == (Element::Circle { center, radius, style }),
    {
        Element::Circle { center, radius, style }
    }

    pub fn ellipse(center: Point, radii: Vec2, rotation: Scalar, style: FillStrokeStyle) -> (r:
        Element)
        ensures
            r == (Element::Ellipse { center, radii, rotation, style }),
    {
        Element::Ellipse { center, radii, rotation, style }
    }

    pub fn rounded_rect(rect: Rect, radius: Scalar, style: FillStrokeStyle) -> (r: Element)
        ensures
            r == (Element::RoundedRect { rect, radius, style }),
    {
        Element::RoundedRect { rect, radius, style }
    }

    pub fn line(start: Point, end: Point, style: Stroke) -> (r: Element)
        ensures
            r == (Element::Line { start, end, style }),
    {
        Element::Line { start, end, style }
    }

    /// An open polyline.
    pub fn poly(points: Vec<Point>, style: Stroke) -> (r: Element)
        ensures
            r == (Element::Polyline { points, style }),
    {
        Element::Polyline { points, style }
    }

    pub fn polygon(points: Vec<Point>, style: FillStrokeStyle) -> (r: Element)
        ensures
            r == (Element::Polygon { points, style }),
    {
        Element::Polygon { points, style }
    }

    pub fn arc(
        center: Point,
        radii: Vec2,
        start_angle: Scalar,
        sweep_angle: Scalar,
        style: Stroke,
    ) -> (r: Element)
        ensures
            r == (Element::Arc { center, radii, start_angle, sweep_angle, style }),
    {
        Element::Arc { center, radii, start_angle, sweep_angle, style }
    }

    pub fn pie(
        center: Point,
        radius: Scalar,
        start_angle: Scalar,
        sweep_angle: Scalar,
        style: FillStrokeStyle,
    ) -> (r: Element)
        ensures
            r == (Element::Pie { center, radius, start_angle, sweep_angle, style }),
    {
        Element::Pie { center, radius, start_angle, sweep_angle, style }
    }

    /// Text in one style; `layout` is its layout, if it was laid out.
    pub fn text(
        content: String,
        position: Point,
        style: TextStyle,
        layout: Option<Arc<TextLayout>>,
    ) -> (r: Element)
        ensures
            match r {
                Element::Text { spans, position: p, style: s, layout: l } => {
                    &&& spans@ == seq![RichSpan { text: content, style }]
                    &&& p == position
                    &&& s == style
                    &&& l == kept_layout(spans@, layout)
                },
                _ => false,
            },
    {
        let mut spans: Vec<RichSpan> = Vec::new();
        spans.push(RichSpan::new(content, style.clone()));
        assert(spans@ =~= seq![RichSpan { text: content, style }]);
        Element::rich_text(spans, position, style, layout)
    }

    /// Text of styled spans; `layout` is its layout, if it was laid out. A layout of nothing is
    /// dropped.
    pub fn rich_text(
        spans: Vec<RichSpan>,
        position: Point,
        style: TextStyle,
        layout: Option<Arc<TextLayout>>,
    ) -> (r: Element)
        ensures
            r == (Element::Text { spans, position, style, layout: kept_layout(spans@, layout) }),
    {
        let kept = match layout {
            Some(l) => if wants_layout(&spans) && l.lines.len() > 0 {
                Some(l)
            } else {
                None
            },
            None => None,
        };
        Element::Text { spans, position, style, layout: kept }
    }

    /// An opaque image.
    pub fn image(image: SceneImage, frame: Rect) -> (r: Element)
        ensures
            r == (Element::Image { image, frame, opacity: Scalar { bits: ONE_BITS } }),
    {
        Element::Image { image, frame, opacity: Scalar { bits: ONE_BITS } }
    }
}

/// Whether the spans hold any text to lay out.
pub fn wants_layout(spans: &Vec<RichSpan>) -> (r: bool)
    ensures
        r == has_text(spans@),
{
    let mut i: usize = 0;
    while i < spans.len()
        invariant
            i <= spans@.len(),
            forall|j: int| 0 <= j < i ==> (#[trigger] spans@[j]).text@.len() == 0,
        decreases spans.len() - i,
    {
        if !spans[i].text.as_str().is_empty() {
            return true;
        }
        i += 1;
    }
    false
}

/// An element with what applies to it and all below it.
#[derive(Debug)]
pub struct SceneNode {
    pub element: Element,
    /// Nodes with a higher value are drawn later.
    pub z_index: i32,
    pub transform: Option<Transform>,
    /// From 0 to 1.
    pub opacity: Scalar,
    pub name: Option<String>,
    /// Where false, neither the node nor anything below it is drawn.
    pub visible: bool,
    pub clip: Option<Clip>,
}

/// Nodes that are shown, moved and faded together.
#[derive(Debug)]
pub struct Layer {
    pub name: String,
    pub visible: bool,
    /// From 0 to 1.
    pub opacity: Scalar,
    pub transform: Option<Transform>,
    pub nodes: Vec<SceneNode>,
}

/// A drawing: nodes, and layers above them from bottom to top.
#[derive(Debug)]
pub struct Scene {
    pub width: Scalar,
    pub height: Scalar,
    pub background: Color,
    pub nodes: Vec<SceneNode>,
    pub layers: Vec<Layer>,
    pub title: Option<String>,
    pub description: Option<String>,
    /// Pixel density.
    pub scale: Scalar,
}

/// `index` put into `order` behind every index whose value is not larger.
pub open spec fn insert_by_z(zs: Seq<i32>, order: Seq<int>, index: int) -> Seq<int>
    decreases order.len(),
{
    if order.len() == 0 || zs[order.last()] <= zs[index] {
        order.push(index)
    } else {
        insert_by_z(zs, order.drop_last(), index).push(order.last())
    }
}

/// The first `n` indices, ordered by their value; equal values keep their order.
pub open spec fn z_order(zs: Seq<i32>, n: nat) -> Seq<int>
    decreases n,
{
    if n == 0 {
        Seq::empty()
    } else {
        insert_by_z(zs, z_order(zs, (n - 1) as nat), n - 1)
    }
}

/// The drawing order of nodes, as indices.
pub open spec fn draw_order(nodes: Seq<SceneNode>) -> Seq<int> {
    z_order(z_indices(nodes), nodes.len())
}

/// The `z_index` of each node.
pub open spec fn z_indices(nodes: Seq<SceneNode>) -> Seq<i32> {
    Seq::new(nodes.len(), |i: int| nodes[i].z_index)
}

/// The indices hold every index below `n` once, with values ascending and equal values in order.
pub open spec fn stable_order(zs: Seq<i32>, order: Seq<int>, n: nat) -> bool {
    &&& order.len() == n
    &&& forall|i: int| 0 <= i < n ==> 0 <= #[trigger] order[i] < n
    &&& forall|i: int, j: int|
        0 <= i < j < n ==> zs[#[trigger] order[i]] < zs[#[trigger] order[j]] || (zs[order[i]]
            == zs[order[j]] && order[i] < order[j])
    &&& forall|k: int| 0 <= k < n ==> #[trigger] order.contains(k)
}

proof fn lemma_insert_by_z(zs: Seq<i32>, order: Seq<int>, index: int)
    requires
        forall|i: int| 0 <= i < order.len() ==> 0 <= #[trigger] order[i] < index,
        forall|i: int, j: int|
            0 <= i < j < order.len() ==> zs[#[trigger] order[i]] < zs[#[trigger] order[j]] || (
            zs[order[i]] == zs[order[j]] && order[i] < order[j]),
    ensures
        ({
            let r = insert_by_z(zs, order, index);
            &&& r.len() == order.len() + 1
            &&& r.contains(index)
            &&& forall|k: int| #[trigger] order.contains(k) ==> r.contains(k)
            &&& forall|i: int| 0 <= i < r.len() ==> #[trigger] r[i] == index || order.contains(r[i])
            &&& forall|i: int, j: int|
                0 <= i < j < r.len() ==> zs[#[trigger] r[i]] < zs[#[trigger] r[j]] || (zs[r[i]]
                    == zs[r[j]] && r[i] < r[j])
        }),
    decreases order.len(),
{
    let r = insert_by_z(zs, order, index);
    if order.len() == 0 || zs[order.last()] <= zs[index] {
        assert(r[order.len() as int] == index);
        assert forall|k: int| #[trigger] order.contains(k) implies r.contains(k) by {
            let i = choose|i: int| 0 <= i < order.len() && order[i] == k;
            assert(r[i] == k);
        }
        assert forall|i: int| 0 <= i < r.len() implies #[trigger] r[i] == index || order.contains(
            r[i],
        ) by {
            if i < order.len() {
                assert(r[i] == order[i]);
            }
        }
        assert forall|i: int, j: int| 0 <= i < j < r.len() implies zs[#[trigger] r[i]]
            < zs[#[trigger] r[j]] || (zs[r[i]] == zs[r[j]] && r[i] < r[j]) by {
            assert(r[i] == order[i]);
            if j < order.len() {
                assert(r[j] == order[j]);
            } else {
                assert(r[j] == index);
                if i < order.len() - 1 {
                    assert(zs[order[i]] <= zs[order[order.len() - 1]]);
                }
            }
        }
    } else {
        let front = order.drop_last();
        let last = order.last();
        assert forall|i: int, j: int| 0 <= i < j < front.len() implies zs[#[trigger] front[i]]
            < zs[#[trigger] front[j]] || (zs[front[i]] == zs[front[j]] && front[i] < front[j]) by {
            assert(front[i] == order[i] && front[j] == order[j]);
        }
        assert forall|i: int| 0 <= i < front.len() implies 0 <= #[trigger] front[i] < index by {
            assert(front[i] == order[i]);
        }
        lemma_insert_by_z(zs, front, index);
        let q = insert_by_z(zs, front, index);
        assert(r == q.push(last));
        assert(r[q.len() as int] == last);
        let at = choose|i: int| 0 <= i < q.len() && q[i] == index;
        assert(r[at] == index);
        assert forall|k: int| #[trigger] order.contains(k) implies r.contains(k) by {
            let i = choose|i: int| 0 <= i < order.len() && order[i] == k;
            if i < front.len() {
                assert(front[i] == k);
                assert(front.contains(k));
                let m = choose|m: int| 0 <= m < q.len() && q[m] == k;
                assert(r[m] == k);
            }
        }
        assert forall|i: int| 0 <= i < r.len() implies #[trigger] r[i] == index || order.contains(
            r[i],
        ) by {
            if i < q.len() {
                assert(r[i] == q[i]);
                if q[i] != index {
                    assert(front.contains(q[i]));
                    let m = choose|m: int| 0 <= m < front.len() && front[m] == q[i];
                    assert(order[m] == q[i]);
                }
            } else {
                assert(r[i] == order[order.len() - 1]);
            }
        }
        assert forall|i: int, j: int| 0 <= i < j < r.len() implies zs[#[trigger] r[i]]
            < zs[#[trigger] r[j]] || (zs[r[i]] == zs[r[j]] && r[i] < r[j]) by {
            assert(r[i] == q[i]);
            if j < q.len() {
                assert(r[j] == q[j]);
            } else {
                assert(r[j] == last);
                if q[i] != index {
                    assert(front.contains(q[i]));
                    let m = choose|m: int| 0 <= m < front.len() && front[m] == q[i];
                    assert(order[m] == q[i]);
                    assert(order[order.len() - 1] == last);
                }
            }
        }
    }
}

/// Drawing order is ascending by `z_index` and keeps the order of nodes with the same one; every
/// node has its place in it.
pub proof fn law_z_order_is_stable(zs: Seq<i32>, n: nat)
    ensures
        stable_order(zs, z_order(zs, n), n),
    decreases n,
{
    if n > 0 {
        let m = (n - 1) as nat;
        law_z_order_is_stable(zs, m);
        let order = z_order(zs, m);
        lemma_insert_by_z(zs, order, n - 1);
        let r = z_order(zs, n);
        assert forall|i: int| 0 <= i < n implies 0 <= #[trigger] r[i] < n by {
            if r[i] != n - 1 {
                assert(order.contains(r[i]));
                let k = choose|k: int| 0 <= k < order.len() && order[k] == r[i];
                assert(0 <= order[k] < m);
            }
        }
        assert forall|k: int| 0 <= k < n implies #[trigger] r.contains(k) by {
            if k < m {
                assert(order.contains(k));
            }
        }
    }
}

/// The indices of exec vectors as integers.
pub open spec fn as_ints(v: Seq<usize>) -> Seq<int> {
    Seq::new(v.len(), |i: int| v[i] as int)
}

/// Putting an index in at its place is inserting it by its value.
proof fn lemma_insert_at(zs: Seq<i32>, order: Seq<int>, index: int, pos: int)
    requires
        0 <= pos <= order.len(),
        pos > 0 ==> zs[order[pos - 1]] <= zs[index],
        forall|i: int| pos <= i < order.len() ==> zs[#[trigger] order[i]] > zs[index],
    ensures
        insert_by_z(zs, order, index) == order.insert(pos, index),
    decreases order.len(),
{
    if pos == order.len() {
        assert(order.insert(pos, index) =~= order.push(index));
    } else {
        let front = order.drop_last();
        assert(zs[order[order.len() - 1]] > zs[index]);
        assert forall|i: int| pos <= i < front.len() implies zs[#[trigger] front[i]]
            > zs[index] by {
            assert(front[i] == order[i]);
        }
        lemma_insert_at(zs, front, index, pos);
        assert(order.insert(pos, index) =~= front.insert(pos, index).push(order.last()));
    }
}

/// Puts `index` into `order` behind every index whose node is not drawn later.
fn insert_index(nodes: &Vec<SceneNode>, order: &mut Vec<usize>, index: usize)
    requires
        index < nodes@.len(),
        forall|i: int| 0 <= i < old(order)@.len() ==> #[trigger] old(order)@[i] < nodes@.len(),
    ensures
        as_ints(final(order)@) == insert_by_z(
            z_indices(nodes@),
            as_ints(old(order)@),
            index as int,
        ),
        forall|i: int| 0 <= i < final(order)@.len() ==> #[trigger] final(order)@[i] < nodes@.len(),
{
    let ghost start = order@;
    let z: i32 = nodes[index].z_index;
    let mut pos: usize = order.len();
    while pos > 0 && nodes[order[pos - 1]].z_index > z
        invariant
            pos <= order@.len(),
            order@ == start,
            z == nodes@[index as int].z_index,
            index < nodes@.len(),
            forall|i: int| 0 <= i < order@.len() ==> #[trigger] order@[i] < nodes@.len(),
            forall|i: int|
                pos <= i < order@.len() ==> nodes@[#[trigger] order@[i] as int].z_index > z,
        decreases pos,
    {
        pos -= 1;
    }
    proof {
        let zs = z_indices(nodes@);
        let ints = as_ints(start);
        assert forall|i: int| pos <= i < ints.len() implies zs[#[trigger] ints[i]]
            > zs[index as int] by {
            assert(nodes@[start[i] as int].z_index > z);
        }
        lemma_insert_at(zs, ints, index as int, pos as int);
    }
    order.insert(pos, index);
    assert(as_ints(order@) =~= as_ints(start).insert(pos as int, index as int));
    assert forall|i: int| 0 <= i < order@.len() implies #[trigger] order@[i] < nodes@.len() by {
        if i < pos {
            assert(order@[i] == start[i]);
        } else if i > pos {
            assert(order@[i] == start[i - 1]);
        }
    }
}

impl SceneNode {
    /// A plain node.
    pub fn new(element: Element) -> (r: SceneNode)
        ensures
            r == (SceneNode {
                element,
                z_index: 0,
                transform: None,
                opacity: Scalar { bits: ONE_BITS },
                name: None,
                visible: true,
                clip: None,
            }),
    {
        SceneNode {
            element,
            z_index: 0,
            transform: None,
            opacity: Scalar { bits: ONE_BITS },
            name: None,
            visible: true,
            clip: None,
        }
    }

    /// A plain node of a group.
    pub fn group(children: Vec<SceneNode>) -> (r: SceneNode)
        ensures
            r == (SceneNode {
                element: Element::Group { children },
                z_index: 0,
                transform: None,
                opacity: Scalar { bits: ONE_BITS },
                name: None,
                visible: true,
                clip: None,
            }),
    {
        SceneNode::new(Element::Group { children })
    }

    /// The indices of the nodes in drawing order: ascending by `z_index`, nodes with the same one
    /// in the order in which they stand.
    pub fn ordered(nodes: &Vec<SceneNode>) -> (order: Vec<usize>)
        ensures
            as_ints(order@) == draw_order(nodes@),
            order@.len() == nodes@.len(),
            forall|i: int| 0 <= i < order@.len() ==> #[trigger] order@[i] < nodes@.len(),
    {
        let mut order: Vec<usize> = Vec::new();
        let mut i: usize = 0;
        assert(as_ints(order@) =~= z_order(z_indices(nodes@), 0));
        while i < nodes.len()
            invariant
                i <= nodes@.len(),
                as_ints(order@) == z_order(z_indices(nodes@), i as nat),
                forall|j: int| 0 <= j < order@.len() ==> #[trigger] order@[j] < nodes@.len(),
            decreases nodes.len() - i,
        {
            insert_index(nodes, &mut order, i);
            i += 1;
        }
        proof {
            law_z_order_is_stable(z_indices(nodes@), nodes@.len());
        }
        order
    }

    /// Sets the drawing order.
    pub fn with_z(self, z: i32) -> (r: SceneNode)
        ensures
            r == (SceneNode { z_index: z, ..self }),
    {
        SceneNode { z_index: z, ..self }
    }

    /// Sets the transform.
    pub fn with_transform(self, t: Transform) -> (r: SceneNode)
        ensures
            r == (SceneNode { transform: Some(t), ..self }),
    {
        SceneNode { transform: Some(t), ..self }
    }

    /// Sets the opacity, held between 0 and 1.
    pub fn with_opacity(self, opacity: Scalar) -> (r: SceneNode)
        ensures
            r == (SceneNode {
                opacity: opacity.clamped(Scalar { bits: 0 }, Scalar { bits: ONE_BITS }),
                ..self
            }),
    {
        SceneNode {
            opacity: opacity.clamp(Scalar { bits: 0 }, Scalar { bits: ONE_BITS }),
            ..self
        }
    }

    /// Sets the name.
    pub fn with_name(self, name: String) -> (r: SceneNode)
        ensures
            r == (SceneNode { name: Some(name), ..self }),
    {
        SceneNode { name: Some(name), ..self }
    }

    /// Sets whether the node is drawn.
    pub fn with_visible(self, visible: bool) -> (r: SceneNode)
        ensures
            r == (SceneNode { visible, ..self }),
    {
        SceneNode { visible, ..self }
    }

    /// Sets the clip shape.
    pub fn with_clip(self, clip: Clip) -> (r: SceneNode)
        ensures
            r == (SceneNode { clip: Some(clip), ..self }),
    {
        SceneNode { clip: Some(clip), ..self }
    }
}

impl From<Element> for SceneNode {
    fn from(element: Element) -> (r: SceneNode) {
        SceneNode::new(element)
    }
}

impl vstd::std_specs::convert::FromSpecImpl<Element> for SceneNode {
    open spec fn obeys_from_spec() -> bool {
        true
    }

    open spec fn from_spec(element: Element) -> SceneNode {
        SceneNode {
            element,
            z_index: 0,
            transform: None,
            opacity: Scalar { bits: ONE_BITS },
            name: None,
            visible: true,
            clip: None,
        }
    }
}

impl Layer {
    /// A visible, opaque, empty layer.
    pub fn new(name: String) -> (r: Layer)
        ensures
            r.name == name,
            r.visible,
            r.opacity.bits == ONE_BITS,
            r.transform is None,
            r.nodes@ == Seq::<SceneNode>::empty(),
    {
        Layer {
            name,
            visible: true,
            opacity: Scalar { bits: ONE_BITS },
            transform: None,
            nodes: Vec::new(),
        }
    }

    /// Sets the nodes.
    pub fn with_nodes(self, nodes: Vec<SceneNode>) -> (r: Layer)
        ensures
            r == (Layer { nodes, ..self }),
    {
        Layer { nodes, ..self }
    }

    /// Appends a node.
    pub fn push(&mut self, node: SceneNode)
        ensures
            final(self).nodes@ == old(self).nodes@.push(node),
            *final(self) == (Layer { nodes: final(self).nodes, ..*old(self) }),
    {
        self.nodes.push(node);
    }

    /// Appends a node.
    pub fn push_node(&mut self, node: SceneNode)
        ensures
            final(self).nodes@ == old(self).nodes@.push(node),
            *final(self) == (Layer { nodes: final(self).nodes, ..*old(self) }),
    {
        self.nodes.push(node);
    }

    /// Appends a group.
    pub fn push_group(&mut self, children: Vec<SceneNode>)
        ensures
            final(self).nodes@ == old(self).nodes@.push(
                (SceneNode {
                    element: Element::Group { children },
                    z_index: 0,
                    transform: None,
                    opacity: Scalar { bits: ONE_BITS },
                    name: None,
                    visible: true,
                    clip: None,
                }),
            ),
            *final(self) == (Layer { nodes: final(self).nodes, ..*old(self) }),
    {
        self.nodes.push(SceneNode::group(children));
    }

    /// The indices of the nodes in drawing order.
    pub fn iter_ordered(&self) -> (order: Vec<usize>)
        ensures
            as_ints(order@) == draw_order(self.nodes@),
            order@.len() == self.nodes@.len(),
            forall|i: int| 0 <= i < order@.len() ==> #[trigger] order@[i] < self.nodes@.len(),
    {
        SceneNode::ordered(&self.nodes)
    }

    /// Sets the name.
    pub fn with_name(self, name: String) -> (r: Layer)
        ensures
            r == (Layer { name, ..self }),
    {
        Layer { name, ..self }
    }

    /// Sets whether the layer is drawn.
    pub fn with_visible(self, visible: bool) -> (r: Layer)
        ensures
            r == (Layer { visible, ..self }),
    {
        Layer { visible, ..self }
    }

    /// Sets the opacity, held between 0 and 1.
    pub fn with_opacity(self, opacity: Scalar) -> (r: Layer)
        ensures
            r == (Layer {
                opacity: opacity.clamped(Scalar { bits: 0 }, Scalar { bits: ONE_BITS }),
                ..self
            }),
    {
        Layer {
            opacity: opacity.clamp(Scalar { bits: 0 }, Scalar { bits: ONE_BITS }),
            ..self
        }
    }

    /// Sets the transform.
    pub fn with_transform(self, t: Transform) -> (r: Layer)
        ensures
            r == (Layer { transform: Some(t), ..self }),
    {
        Layer { transform: Some(t), ..self }
    }
}

/// The first layer with a name.
pub open spec fn layer_index(layers: Seq<Layer>, name: Seq<char>) -> Option<int>
    decreases layers.len(),
{
    if layers.len() == 0 {
        None
    } else {
        match layer_index(layers.drop_last(), name) {
            Some(i) => Some(i),
            None => if layers.last().name@ == name {
                Some(layers.len() - 1)
            } else {
                None
            },
        }
    }
}

impl Scene {
    /// An empty scene with a white background and scale 1.
    pub fn new(width: Scalar, height: Scalar) -> (r: Scene)
        ensures
            r.width == width,
            r.height == height,
            r.background == (Color { r: 255, g: 255, b: 255, a: 255 }),
            r.nodes@ == Seq::<SceneNode>::empty(),
            r.layers@ == Seq::<Layer>::empty(),
            r.title is None,
            r.description is None,
            r.scale.bits == ONE_BITS,
    {
        Scene {
            width,
            height,
            background: Color { r: 255, g: 255, b: 255, a: 255 },
            nodes: Vec::new(),
            layers: Vec::new(),
            title: None,
            description: None,
            scale: Scalar { bits: ONE_BITS },
        }
    }

    /// Sets the background.
    pub fn with_background(self, bg: Color) -> (r: Scene)
        ensures
            r == (Scene { background: bg, ..self }),
    {
        Scene { background: bg, ..self }
    }

    /// Sets the title.
    pub fn with_title(self, title: String) -> (r: Scene)
        ensures
            r == (Scene { title: Some(title), ..self }),
    {
        Scene { title: Some(title), ..self }
    }

    /// Sets the description.
    pub fn with_description(self, description: String) -> (r: Scene)
        ensures
            r == (Scene { description: Some(description), ..self }),
    {
        Scene { description: Some(description), ..self }
    }

    /// Sets the pixel density.
    pub fn with_scale(self, scale: Scalar) -> (r: Scene)
        ensures
            r == (Scene { scale, ..self }),
    {
        Scene { scale, ..self }
    }

    /// Appends a node.
    pub fn push(&mut self, node: SceneNode)
        ensures
            final(self).nodes@ == old(self).nodes@.push(node),
            *final(self) == (Scene { nodes: final(self).nodes, ..*old(self) }),
    {
        self.nodes.push(node);
    }

    /// Appends a node.
    pub fn push_node(&mut self, node: SceneNode)
        ensures
            final(self).nodes@ == old(self).nodes@.push(node),
            *final(self) == (Scene { nodes: final(self).nodes, ..*old(self) }),
    {
        self.nodes.push(node);
    }

    /// Appends a group.
    pub fn push_group(&mut self, children: Vec<SceneNode>)
        ensures
            final(self).nodes@ == old(self).nodes@.push(
                (SceneNode {
                    element: Element::Group { children },
                    z_index: 0,
                    transform: None,
                    opacity: Scalar { bits: ONE_BITS },
                    name: None,
                    visible: true,
                    clip: None,
                }),
            ),
            *final(self) == (Scene { nodes: final(self).nodes, ..*old(self) }),
    {
        self.nodes.push(SceneNode::group(children));
    }

    /// Appends a layer above the others.
    pub fn push_layer(&mut self, layer: Layer)
        ensures
            final(self).layers@ == old(self).layers@.push(layer),
            *final(self) == (Scene { layers: final(self).layers, ..*old(self) }),
    {
        self.layers.push(layer);
    }

    /// The layers from bottom to top.
    pub fn layers(&self) -> (r: &[Layer])
        ensures
            r@ == self.layers@,
    {
        self.layers.as_slice()
    }

    /// The index of the first layer with a name.
    pub fn layer_position(&self, name: &str) -> (r: Option<usize>)
        ensures
            r is None <==> layer_index(self.layers@, name@) is None,
            r matches Some(i) ==> i < self.layers@.len() && layer_index(self.layers@, name@)
                == Some(i as int),
    {
        let mut i: usize = 0;
        assert(self.layers@.take(0) =~= Seq::<Layer>::empty());
        while i < self.layers.len()
            invariant
                i <= self.layers@.len(),
                layer_index(self.layers@.take(i as int), name@) is None,
            decreases self.layers.len() - i,
        {
            assert(self.layers@.take(i + 1).drop_last() =~= self.layers@.take(i as int));
            if chars::same_text(self.layers[i].name.as_str(), name) {
                proof {
                    lemma_layer_index_stays(self.layers@, name@, i + 1, i as int);
                }
                return Some(i);
            }
            i += 1;
        }
        assert(self.layers@.take(self.layers@.len() as int) =~= self.layers@);
        None
    }

    /// The first layer with a name.
    pub fn layer(&self, name: &str) -> (r: Option<&Layer>)
        ensures
            r == match layer_index(self.layers@, name@) {
                Some(i) => Some(&self.layers@[i]),
                None => None::<&Layer>,
            },
    {
        match self.layer_position(name) {
            Some(i) => Some(&self.layers[i]),
            None => None,
        }
    }

    /// The first layer with a name, to be changed.
    pub fn layer_mut(&mut self, name: &str) -> (r: Option<&mut Layer>)
        ensures
            match layer_index(old(self).layers@, name@) {
                Some(i) => {
                    &&& r is Some
                    &&& *r->0 == old(self).layers@[i]
                    &&& final(self).layers@ == old(self).layers@.update(i, *final(r->0))
                },
                None => r is None && final(self).layers@ == old(self).layers@,
            },
            *final(self) == (Scene { layers: final(self).layers, ..*old(self) }),
    {
        match self.layer_position(name) {
            Some(i) => Some(&mut self.layers[i]),
            None => None,
        }
    }

    /// The indices of the nodes in drawing order.
    pub fn iter_ordered(&self) -> (order: Vec<usize>)
        ensures
            as_ints(order@) == draw_order(self.nodes@),
            order@.len() == self.nodes@.len(),
            forall|i: int| 0 <= i < order@.len() ==> #[trigger] order@[i] < self.nodes@.len(),
    {
        SceneNode::ordered(&self.nodes)
    }
}

impl Default for Scene {
    fn default() -> (r: Scene)
        ensures
            r.width.bits == 0,
            r.height.bits == 0,
            r.background == (Color { r: 255, g: 255, b: 255, a: 255 }),
            r.nodes@ == Seq::<SceneNode>::empty(),
            r.layers@ == Seq::<Layer>::empty(),
            r.title is None,
            r.description is None,
            r.scale.bits == ONE_BITS,
    {
        Scene::new(Scalar { bits: 0 }, Scalar { bits: 0 })
    }
}

proof fn lemma_layer_index_stays(layers: Seq<Layer>, name: Seq<char>, n: int, i: int)
    requires
        0 <= n <= layers.len(),
        layer_index(layers.take(n), name) == Some(i),
    ensures
        layer_index(layers, name) == Some(i),
    decreases layers.len() - n,
{
    if n < layers.len() {
        assert(layers.take(n + 1).drop_last() =~= layers.take(n));
        lemma_layer_index_stays(layers, name, n + 1, i);
    } else {
        assert(layers.take(n) =~= layers);
    }
}

} // verus!

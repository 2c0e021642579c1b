//! From shaped lines to a self-contained layout.
//!
//! Positions are numbers of single precision: each sum and difference of them is rounded to one.

use std::sync::Arc;
use vstd::prelude::*;
use crate::arith::INFINITY_BITS;
use crate::chars;
use crate::fit;
use crate::geometry::{Color, Rect, RectExt};
use crate::render::spans;
use crate::scalar::Scalar;
use crate::text::bytes;
use crate::text::layout::{Glyph, LineMetrics, TextLayout, TextLine, TextRun};
use crate::text::shaping;
use crate::text::shaping::RunProps;
use crate::text::style::RichSpan;

verus! {

/// The bit pattern of negative infinity.
pub const NEGATIVE_INFINITY_BITS: u64 = 0xfff0_0000_0000_0000;

/// The bit pattern of `700.0`.
pub const BOLD_BITS: u64 = 0x4085_e000_0000_0000;

/// A shaped glyph.
#[derive(Debug, Clone, Copy, PartialEq, Eq, Structural)]
pub struct RawGlyph {
    pub id: u32,
    /// Position in the layout.
    pub x: Scalar,
    pub y: Scalar,
    pub advance: Scalar,
    /// The bytes of the text that it stands for.
    pub start: u32,
    pub end: u32,
    /// The box around its ink, with the baseline at 0.
    pub ink: Option<Rect>,
}

/// The box around the ink of a glyph, from one with `y` upward.
pub fn ink_rect(x_min: Scalar, y_min: Scalar, x_max: Scalar, y_max: Scalar) -> (r: Rect)
    ensures
        r == (Rect { x0: x_min, y0: y_max.negated(), x1: x_max, y1: y_min.negated() }),
{
    Rect { x0: x_min, y0: y_max.neg(), x1: x_max, y1: y_min.neg() }
}

/// Glyphs of one font in one color.
#[derive(Debug)]
pub struct RawRun {
    pub color: Color,
    pub font_data: Arc<Vec<u8>>,
    pub font_index: u32,
    pub font_size: Scalar,
    /// Weight of the font; 700 and more is bold.
    pub weight: Scalar,
    pub italic: bool,
    pub glyphs: Vec<RawGlyph>,
}

/// A shaped line.
#[derive(Debug)]
pub struct RawLine {
    pub metrics: LineMetrics,
    pub runs: Vec<RawRun>,
}

/// The sum in single precision.
pub open spec fn plus(a: Scalar, b: Scalar) -> Scalar {
    a.sum(b).single()
}

/// The difference in single precision.
pub open spec fn minus(a: Scalar, b: Scalar) -> Scalar {
    a.difference(b).single()
}

fn add_single(a: Scalar, b: Scalar) -> (r: Scalar)
    ensures
        r == plus(a, b),
{
    a.add(b).to_single()
}

fn sub_single(a: Scalar, b: Scalar) -> (r: Scalar)
    ensures
        r == minus(a, b),
{
    a.sub(b).to_single()
}

/// Where the first `n` glyphs of a run are cut: at each change of span.
pub open spec fn pieces(
    glyphs: Seq<RawGlyph>,
    ranges: Seq<(usize, usize)>,
    n: nat,
) -> Seq<(int, int)>
    decreases n,
{
    if n == 0 || n > glyphs.len() {
        Seq::empty()
    } else {
        let rest = pieces(glyphs, ranges, (n - 1) as nat);
        if n > 1 && shaping::span_key(ranges, glyphs[n - 1].start as usize) == shaping::span_key(
            ranges,
            glyphs[n - 2].start as usize,
        ) {
            rest.drop_last().push((rest.last().0, n as int))
        } else {
            rest.push((n - 1, n as int))
        }
    }
}

/// Pieces as pairs of integers.
pub open spec fn as_int_pairs(v: Seq<(usize, usize)>) -> Seq<(int, int)> {
    Seq::new(v.len(), |i: int| (v[i].0 as int, v[i].1 as int))
}

/// The pieces follow each other, none of them empty.
pub open spec fn in_sequence(p: Seq<(int, int)>, n: int) -> bool {
    &&& forall|i: int| 0 <= i < p.len() ==> 0 <= (#[trigger] p[i]).0 < p[i].1 <= n
    &&& forall|i: int| 0 <= i && i + 1 < p.len() ==> (#[trigger] p[i]).1 == p[i + 1].0
    &&& p.len() > 0 ==> p[0].0 == 0 && p.last().1 == n
    &&& n > 0 ==> p.len() > 0
}

/// Cutting a run loses no glyph and doubles none: the pieces follow each other from the first
/// glyph to the last.
pub proof fn law_pieces_cover_the_run(glyphs: Seq<RawGlyph>, ranges: Seq<(usize, usize)>, n: nat)
    requires
        n <= glyphs.len(),
    ensures
        in_sequence(pieces(glyphs, ranges, n), n as int),
    decreases n,
{
    if n > 0 {
        law_pieces_cover_the_run(glyphs, ranges, (n - 1) as nat);
        let rest = pieces(glyphs, ranges, (n - 1) as nat);
        let p = pieces(glyphs, ranges, n);
        if n > 1 && shaping::span_key(ranges, glyphs[n - 1].start as usize) == shaping::span_key(
            ranges,
            glyphs[n - 2].start as usize,
        ) {
            assert forall|i: int| 0 <= i && i + 1 < p.len() implies (#[trigger] p[i]).1 == p[i
                + 1].0 by {
                assert(rest[i].1 == rest[i + 1].0);
            }
            assert forall|i: int| 0 <= i < p.len() implies 0 <= (#[trigger] p[i]).0 < p[i].1
                <= n by {
                assert(0 <= rest[i].0 < rest[i].1);
            }
        } else {
            assert forall|i: int| 0 <= i && i + 1 < p.len() implies (#[trigger] p[i]).1 == p[i
                + 1].0 by {
                if i + 1 < rest.len() {
                    assert(rest[i].1 == rest[i + 1].0);
                }
            }
            assert forall|i: int| 0 <= i < p.len() implies 0 <= (#[trigger] p[i]).0 < p[i].1
                <= n by {
                if i < rest.len() {
                    assert(0 <= rest[i].0 < rest[i].1);
                }
            }
        }
    }
}

fn cut_run(glyphs: &Vec<RawGlyph>, ranges: &Vec<(usize, usize)>) -> (p: Vec<(usize, usize)>)
    ensures
        as_int_pairs(p@) == pieces(glyphs@, ranges@, glyphs@.len()),
        forall|i: int| 0 <= i < p@.len() ==> (#[trigger] p@[i]).0 < p@[i].1 <= glyphs@.len(),
{
    let mut p: Vec<(usize, usize)> = Vec::new();
    let mut i: usize = 0;
    let mut key: usize = 0;
    assert(as_int_pairs(p@) =~= pieces(glyphs@, ranges@, 0));
    while i < glyphs.len()
        invariant
            i <= glyphs@.len(),
            i > 0 ==> key == shaping::span_key(ranges@, glyphs@[i - 1].start as usize),
            i > 0 ==> p@.len() > 0,
            as_int_pairs(p@) == pieces(glyphs@, ranges@, i as nat),
            forall|j: int| 0 <= j < p@.len() ==> (#[trigger] p@[j]).0 < p@[j].1 <= i,
        decreases glyphs.len() - i,
    {
        let here: usize = shaping::span_at(ranges, glyphs[i].start as usize);
        let ghost before = as_int_pairs(p@);
        if i > 0 && here == key {
            let n: usize = p.len();
            let start: usize = p[n - 1].0;
            let _ = p.pop();
            p.push((start, i + 1));
            assert(as_int_pairs(p@) =~= before.drop_last().push((before.last().0, i + 1)));
        } else {
            p.push((i, i + 1));
            assert(as_int_pairs(p@) =~= before.push((i as int, i + 1)));
        }
        key = here;
        i += 1;
    }
    p
}

/// The first byte of the first `n` glyphs.
pub open spec fn text_start(glyphs: Seq<RawGlyph>, n: nat) -> u32
    decreases n,
{
    if n == 0 || n > glyphs.len() {
        u32::MAX
    } else {
        let rest = text_start(glyphs, (n - 1) as nat);
        if glyphs[n - 1].start < rest {
            glyphs[n - 1].start
        } else {
            rest
        }
    }
}

/// The end of the last byte of the first `n` glyphs.
pub open spec fn text_end(glyphs: Seq<RawGlyph>, n: nat) -> u32
    decreases n,
{
    if n == 0 || n > glyphs.len() {
        0
    } else {
        let rest = text_end(glyphs, (n - 1) as nat);
        if glyphs[n - 1].end > rest {
            glyphs[n - 1].end
        } else {
            rest
        }
    }
}

/// A glyph relative to its line and its run; a positive shift raises it.
pub open spec fn placed_glyph(
    g: RawGlyph,
    left: Scalar,
    top: Scalar,
    shift: Scalar,
    start: u32,
) -> Glyph {
    Glyph {
        id: g.id,
        x: minus(g.x, left),
        y: minus(minus(g.y, top), shift),
        advance: g.advance,
        cluster: if g.start >= start {
            (g.start - start) as u32
        } else {
            0
        },
    }
}

/// Glyphs relative to their line and their run.
pub open spec fn placed_glyphs(
    glyphs: Seq<RawGlyph>,
    left: Scalar,
    top: Scalar,
    shift: Scalar,
    start: u32,
) -> Seq<Glyph> {
    Seq::new(glyphs.len(), |i: int| placed_glyph(glyphs[i], left, top, shift, start))
}

/// The sum of the advances of the first `n` glyphs.
pub open spec fn total_advance(glyphs: Seq<Glyph>, n: nat) -> Scalar
    decreases n,
{
    if n == 0 || n > glyphs.len() {
        Scalar { bits: 0 }
    } else {
        plus(total_advance(glyphs, (n - 1) as nat), glyphs[n - 1].advance)
    }
}

/// The sum of the advances of glyphs.
pub fn sum_advances(glyphs: &Vec<Glyph>) -> (r: Scalar)
    ensures
        r == total_advance(glyphs@, glyphs@.len()),
{
    let mut r = Scalar { bits: 0 };
    let mut i: usize = 0;
    while i < glyphs.len()
        invariant
            i <= glyphs@.len(),
            r == total_advance(glyphs@, i as nat),
        decreases glyphs.len() - i,
    {
        r = add_single(r, glyphs[i].advance);
        i += 1;
    }
    r
}

/// What a line is placed by: its left edge, its top and its metrics.
pub struct Place {
    pub left: Scalar,
    pub top: Scalar,
    pub metrics: LineMetrics,
}

/// `out` is the run of a piece: its own bytes of the text, with the properties of its span.
pub open spec fn is_piece(
    out: TextRun,
    run: RawRun,
    glyphs: Seq<RawGlyph>,
    at: Place,
    text: Seq<char>,
    spans: Seq<RichSpan>,
    ranges: Seq<(usize, usize)>,
) -> bool {
    let start = text_start(glyphs, glyphs.len());
    let end = text_end(glyphs, glyphs.len());
    exists|p: RunProps| #[trigger]
        shaping::are_props(p, spans, ranges, start as usize, end as usize) && {
            &&& out.text@ == bytes::slice(text, start as int, end as int)
            &&& out.font_data == run.font_data
            &&& out.font_index == run.font_index
            &&& out.font_size == run.font_size
            &&& out.font_weight_bold == (!run.weight.nan() && !run.weight.less(
                Scalar { bits: BOLD_BITS },
            ))
            &&& out.font_style_italic == run.italic
            &&& out.color == run.color
            &&& out.glyphs@ == placed_glyphs(glyphs, at.left, at.top, p.baseline_shift, start)
            &&& out.advance == total_advance(out.glyphs@, out.glyphs@.len())
            &&& !out.is_rtl
            &&& out.baseline_x == minus(glyphs[0].x, at.left)
            &&& out.baseline_y == minus(minus(at.metrics.baseline, at.top), p.baseline_shift)
            &&& out.url == p.url
            &&& out.decoration == p.decoration
            &&& out.baseline_shift == p.baseline_shift
            &&& out.background_color == p.background_color
        }
}

fn build_piece(
    run: &RawRun,
    from: usize,
    to: usize,
    left: Scalar,
    top: Scalar,
    metrics: LineMetrics,
    text: &Vec<char>,
    spans: &Vec<RichSpan>,
    ranges: &Vec<(usize, usize)>,
) -> (out: TextRun)
    requires
        from < to <= run.glyphs@.len(),
        ranges@.len() == spans@.len(),
    ensures
        is_piece(
            out,
            *run,
            run.glyphs@.subrange(from as int, to as int),
            Place { left, top, metrics },
            text@,
            spans@,
            ranges@,
        ),
{
    let ghost part = run.glyphs@.subrange(from as int, to as int);
    let mut start: u32 = u32::MAX;
    let mut end: u32 = 0;
    let mut i: usize = from;
    while i < to
        invariant
            from <= i <= to <= run.glyphs@.len(),
            part == run.glyphs@.subrange(from as int, to as int),
            start == text_start(part, (i - from) as nat),
            end == text_end(part, (i - from) as nat),
        decreases to - i,
    {
        let g = run.glyphs[i];
        assert(part[i - from] == g);
        if g.start < start {
            start = g.start;
        }
        if g.end > end {
            end = g.end;
        }
        i += 1;
    }
    let props = shaping::lookup_extended_props(spans, ranges, start as usize, end as usize);
    let shift = props.baseline_shift;
    let mut glyphs: Vec<Glyph> = Vec::new();
    let ghost all = placed_glyphs(part, left, top, shift, start);
    let mut i: usize = from;
    while i < to
        invariant
            from <= i <= to <= run.glyphs@.len(),
            part == run.glyphs@.subrange(from as int, to as int),
            all == placed_glyphs(part, left, top, shift, start),
            glyphs@ == all.take(i - from),
        decreases to - i,
    {
        let g = run.glyphs[i];
        assert(part[i - from] == g);
        glyphs.push(
            Glyph {
                id: g.id,
                x: sub_single(g.x, left),
                y: sub_single(sub_single(g.y, top), shift),
                advance: g.advance,
                cluster: if g.start >= start {
                    g.start - start
                } else {
                    0
                },
            },
        );
        i += 1;
        assert(glyphs@ =~= all.take(i - from));
    }
    assert(glyphs@ =~= all);
    let advance = sum_advances(&glyphs);
    let bold = !run.weight.is_nan() && !run.weight.lt(Scalar { bits: BOLD_BITS });
    let first = run.glyphs[from];
    assert(part[0] == first);
    let ghost p = props;
    let out = TextRun {
        text: bytes::text_between(text, start as usize, end as usize),
        font_data: run.font_data.clone(),
        font_index: run.font_index,
        font_size: run.font_size,
        font_weight_bold: bold,
        font_style_italic: run.italic,
        color: run.color,
        advance,
        glyphs,
        is_rtl: false,
        baseline_x: sub_single(first.x, left),
        baseline_y: sub_single(sub_single(metrics.baseline, top), shift),
        url: props.url,
        decoration: props.decoration,
        baseline_shift: shift,
        background_color: props.background_color,
    };
    assert(shaping::are_props(p, spans@, ranges@, start as usize, end as usize));
    out
}

/// The least position of the first `n` glyphs, and of what came before.
pub open spec fn glyphs_left(init: Scalar, glyphs: Seq<RawGlyph>, n: nat) -> Scalar
    decreases n,
{
    if n == 0 || n > glyphs.len() {
        init
    } else {
        glyphs_left(init, glyphs, (n - 1) as nat).least(glyphs[n - 1].x)
    }
}

/// The greatest position of the first `n` glyphs, and of what came before.
pub open spec fn glyphs_right(init: Scalar, glyphs: Seq<RawGlyph>, n: nat) -> Scalar
    decreases n,
{
    if n == 0 || n > glyphs.len() {
        init
    } else {
        glyphs_right(init, glyphs, (n - 1) as nat).greatest(glyphs[n - 1].x)
    }
}

/// The least position of the glyphs of the first `n` runs.
pub open spec fn runs_left(runs: Seq<RawRun>, n: nat) -> Scalar
    decreases n,
{
    if n == 0 || n > runs.len() {
        Scalar { bits: INFINITY_BITS }
    } else {
        glyphs_left(
            runs_left(runs, (n - 1) as nat),
            runs[n - 1].glyphs@,
            runs[n - 1].glyphs@.len(),
        )
    }
}

/// The greatest position of the glyphs of the first `n` runs.
pub open spec fn runs_right(runs: Seq<RawRun>, n: nat) -> Scalar
    decreases n,
{
    if n == 0 || n > runs.len() {
        Scalar { bits: NEGATIVE_INFINITY_BITS }
    } else {
        glyphs_right(
            runs_right(runs, (n - 1) as nat),
            runs[n - 1].glyphs@,
            runs[n - 1].glyphs@.len(),
        )
    }
}

/// The line has a glyph.
pub open spec fn has_glyphs(line: RawLine) -> bool {
    exists|i: int| 0 <= i < line.runs@.len() && (#[trigger] line.runs@[i]).glyphs@.len() > 0
}

fn has_any_glyph(line: &RawLine) -> (r: bool)
    ensures
        r == has_glyphs(*line),
{
    let mut i: usize = 0;
    while i < line.runs.len()
        invariant
            i <= line.runs@.len(),
            forall|j: int| 0 <= j < i ==> (#[trigger] line.runs@[j]).glyphs@.len() == 0,
        decreases line.runs.len() - i,
    {
        if line.runs[i].glyphs.len() > 0 {
            assert(line.runs@[i as int].glyphs@.len() > 0);
            return true;
        }
        i += 1;
    }
    false
}

fn extent(runs: &Vec<RawRun>) -> (r: (Scalar, Scalar))
    ensures
        r.0 == runs_left(runs@, runs@.len()),
        r.1 == runs_right(runs@, runs@.len()),
{
    let mut left = Scalar { bits: INFINITY_BITS };
    let mut right = Scalar { bits: NEGATIVE_INFINITY_BITS };
    let mut i: usize = 0;
    while i < runs.len()
        invariant
            i <= runs@.len(),
            left == runs_left(runs@, i as nat),
            right == runs_right(runs@, i as nat),
        decreases runs.len() - i,
    {
        let ghost l = left;
        let ghost r = right;
        let glyphs = &runs[i].glyphs;
        let mut j: usize = 0;
        while j < glyphs.len()
            invariant
                j <= glyphs@.len(),
                left == glyphs_left(l, glyphs@, j as nat),
                right == glyphs_right(r, glyphs@, j as nat),
            decreases glyphs.len() - j,
        {
            left = left.min(glyphs[j].x);
            right = right.max(glyphs[j].x);
            j += 1;
        }
        i += 1;
    }
    (left, right)
}

/// The pieces of the first `n` runs: the run and its glyphs from one index to another.
pub open spec fn line_pieces(runs: Seq<RawRun>, ranges: Seq<(usize, usize)>, n: nat) -> Seq<
    (int, int, int),
>
    decreases n,
{
    if n == 0 || n > runs.len() {
        Seq::empty()
    } else {
        let cuts = pieces(runs[n - 1].glyphs@, ranges, runs[n - 1].glyphs@.len());
        line_pieces(runs, ranges, (n - 1) as nat) + Seq::new(
            cuts.len(),
            |i: int| (n - 1, cuts[i].0, cuts[i].1),
        )
    }
}

/// The glyphs of a piece.
pub open spec fn piece_glyphs(runs: Seq<RawRun>, p: (int, int, int)) -> Seq<RawGlyph> {
    runs[p.0].glyphs@.subrange(p.1, p.2)
}

/// The runs are those of the pieces, in order.
pub open spec fn are_runs(
    out: Seq<TextRun>,
    runs: Seq<RawRun>,
    at: Place,
    text: Seq<char>,
    spans: Seq<RichSpan>,
    ranges: Seq<(usize, usize)>,
) -> bool {
    let all = line_pieces(runs, ranges, runs.len());
    out.len() == all.len() && forall|i: int|
        0 <= i < out.len() ==> is_piece(
            #[trigger] out[i],
            runs[all[i].0],
            piece_glyphs(runs, all[i]),
            at,
            text,
            spans,
            ranges,
        )
}

/// The box around the ink of a glyph, inside the box of its line; none for a glyph without ink.
pub open spec fn glyph_ink(g: Glyph, ink: Option<Rect>, bounds: Rect) -> Option<Rect> {
    let b = bounds.ordered();
    match ink {
        Some(k) if !(flat(k.x1.difference(k.x0)) && flat(k.y1.difference(k.y0))) => {
            let o = k.ordered();
            Some(
                Rect {
                    x0: b.x0.sum(g.x).sum(o.x0).greatest(b.x0),
                    y0: b.y0.sum(g.y).sum(o.y0).greatest(b.y0),
                    x1: b.x0.sum(g.x).sum(o.x1).least(b.x1),
                    y1: b.y0.sum(g.y).sum(o.y1).least(b.y1),
                },
            )
        },
        _ => None,
    }
}

/// A length that is not positive.
pub open spec fn flat(a: Scalar) -> bool {
    !a.nan() && !(Scalar { bits: 0 }).less(a)
}

/// The box around the ink of the first `n` glyphs of a run, and of what came before.
pub open spec fn run_ink(
    init: Option<Rect>,
    glyphs: Seq<Glyph>,
    raw: Seq<RawGlyph>,
    bounds: Rect,
    n: nat,
) -> Option<Rect>
    decreases n,
{
    if n == 0 || n > glyphs.len() {
        init
    } else {
        fit::merged(
            run_ink(init, glyphs, raw, bounds, (n - 1) as nat),
            glyph_ink(glyphs[n - 1], raw[n - 1].ink, bounds),
        )
    }
}

/// The box around the ink of the first `n` runs of a line.
pub open spec fn runs_ink(
    out: Seq<TextRun>,
    runs: Seq<RawRun>,
    all: Seq<(int, int, int)>,
    bounds: Rect,
    n: nat,
) -> Option<Rect>
    decreases n,
{
    if n == 0 || n > out.len() {
        None
    } else {
        run_ink(
            runs_ink(out, runs, all, bounds, (n - 1) as nat),
            out[n - 1].glyphs@,
            piece_glyphs(runs, all[n - 1]),
            bounds,
            out[n - 1].glyphs@.len(),
        )
    }
}

/// The box of a line without ink: from its ascent to its descent.
pub open spec fn bare_ink(bounds: Rect, m: LineMetrics) -> Rect {
    let b = bounds.ordered();
    Rect {
        x0: b.x0,
        y0: b.y0.sum(m.baseline).difference(m.ascent),
        x1: b.x1,
        y1: b.y0.sum(m.baseline).sum(m.descent),
    }
}

/// The box of a line at a given top.
pub open spec fn line_bounds(line: RawLine, top: Scalar) -> Rect {
    let left = runs_left(line.runs@, line.runs@.len());
    let right = runs_right(line.runs@, line.runs@.len());
    Rect {
        x0: left,
        y0: top,
        x1: plus(left, minus(right, left)),
        y1: plus(top, line.metrics.line_height),
    }
}

/// `out` is a line at a given top.
pub open spec fn is_line(
    out: TextLine,
    line: RawLine,
    top: Scalar,
    text: Seq<char>,
    spans: Seq<RichSpan>,
    ranges: Seq<(usize, usize)>,
) -> bool {
    let left = runs_left(line.runs@, line.runs@.len());
    let all = line_pieces(line.runs@, ranges, line.runs@.len());
    &&& are_runs(
        out.runs@,
        line.runs@,
        Place { left, top, metrics: line.metrics },
        text,
        spans,
        ranges,
    )
    &&& out.bounds == line_bounds(line, top)
    &&& out.metrics == line.metrics
    &&& out.ink_bounds == match runs_ink(
        out.runs@,
        line.runs@,
        all,
        out.bounds,
        out.runs@.len(),
    ) {
        Some(r) => r,
        None => bare_ink(out.bounds, line.metrics),
    }
}

fn ink_of(g: Glyph, ink: Option<Rect>, bounds: Rect) -> (r: Option<Rect>)
    ensures
        r == glyph_ink(g, ink, bounds),
{
    let zero = Scalar { bits: 0 };
    match ink {
        Some(k) => {
            let w = k.width();
            let h = k.height();
            if !w.is_nan() && !zero.lt(w) && !h.is_nan() && !zero.lt(h) {
                return None;
            }
            let (x, y) = (bounds.min_x(), bounds.min_y());
            Some(
                Rect {
                    x0: x.add(g.x).add(k.min_x()).max(x),
                    y0: y.add(g.y).add(k.min_y()).max(y),
                    x1: x.add(g.x).add(k.max_x()).min(bounds.max_x()),
                    y1: y.add(g.y).add(k.max_y()).min(bounds.max_y()),
                },
            )
        },
        None => None,
    }
}

fn merge(a: Option<Rect>, b: Option<Rect>) -> (r: Option<Rect>)
    ensures
        r == fit::merged(a, b),
{
    match (a, b) {
        (Some(a), Some(b)) => Some(a.union(b)),
        (Some(a), None) => Some(a),
        (None, b) => b,
    }
}

fn add_run_ink(
    init: Option<Rect>,
    glyphs: &Vec<Glyph>,
    raw: &Vec<RawGlyph>,
    from: usize,
    bounds: Rect,
) -> (r: Option<Rect>)
    requires
        from + glyphs@.len() <= raw@.len(),
    ensures
        r == run_ink(
            init,
            glyphs@,
            raw@.subrange(from as int, from + glyphs@.len()),
            bounds,
            glyphs@.len(),
        ),
{
    let mut r = init;
    let ghost part = raw@.subrange(from as int, from + glyphs@.len());
    let len: usize = raw.len();
    let mut i: usize = 0;
    while i < glyphs.len()
        invariant
            i <= glyphs@.len(),
            len == raw@.len(),
            from + glyphs@.len() <= raw@.len(),
            part == raw@.subrange(from as int, from + glyphs@.len()),
            r == run_ink(init, glyphs@, part, bounds, i as nat),
        decreases glyphs.len() - i,
    {
        assert(part[i as int] == raw@[from + i]);
        r = merge(r, ink_of(glyphs[i], raw[from + i].ink, bounds));
        i += 1;
    }
    r
}

proof fn lemma_ink_prefix(
    a: Seq<TextRun>,
    b: Seq<TextRun>,
    runs: Seq<RawRun>,
    p: Seq<(int, int, int)>,
    q: Seq<(int, int, int)>,
    bounds: Rect,
    n: nat,
)
    requires
        n <= a.len(),
        n <= b.len(),
        n <= p.len(),
        n <= q.len(),
        forall|i: int| 0 <= i < n ==> a[i] == b[i] && p[i] == q[i],
    ensures
        runs_ink(a, runs, p, bounds, n) == runs_ink(b, runs, q, bounds, n),
    decreases n,
{
    if n > 0 {
        lemma_ink_prefix(a, b, runs, p, q, bounds, (n - 1) as nat);
    }
}

/// Builds a line at a given top.
fn build_line(
    line: &RawLine,
    top: Scalar,
    text: &Vec<char>,
    spans: &Vec<RichSpan>,
    ranges: &Vec<(usize, usize)>,
) -> (out: TextLine)
    requires
        ranges@.len() == spans@.len(),
    ensures
        is_line(out, *line, top, text@, spans@, ranges@),
{
    let m = line.metrics;
    let (left, right) = extent(&line.runs);
    let bounds = Rect {
        x0: left,
        y0: top,
        x1: add_single(left, sub_single(right, left)),
        y1: add_single(top, m.line_height),
    };
    let ghost at = Place { left, top, metrics: m };
    let ghost runs = line.runs@;
    let mut out: Vec<TextRun> = Vec::new();
    let mut ink: Option<Rect> = None;
    let mut i: usize = 0;
    assert(line_pieces(runs, ranges@, 0) =~= Seq::<(int, int, int)>::empty());
    while i < line.runs.len()
        invariant
            i <= runs.len(),
            runs == line.runs@,
            ranges@.len() == spans@.len(),
            m == line.metrics,
            at == (Place { left, top, metrics: m }),
            ({
                let all = line_pieces(runs, ranges@, i as nat);
                &&& out@.len() == all.len()
                &&& forall|j: int|
                    0 <= j < out@.len() ==> is_piece(
                        #[trigger] out@[j],
                        runs[all[j].0],
                        piece_glyphs(runs, all[j]),
                        at,
                        text@,
                        spans@,
                        ranges@,
                    )
                &&& ink == runs_ink(out@, runs, all, bounds, out@.len())
            }),
        decreases line.runs.len() - i,
    {
        let run = &line.runs[i];
        let cuts = cut_run(&run.glyphs, ranges);
        let ghost cut_pairs = pieces(run.glyphs@, ranges@, run.glyphs@.len());
        let ghost before = line_pieces(runs, ranges@, i as nat);
        let ghost all = line_pieces(runs, ranges@, (i + 1) as nat);
        assert(all.len() == before.len() + cuts@.len());
        assert(forall|j: int| 0 <= j < before.len() ==> all[j] == before[j]);
        proof {
            lemma_ink_prefix(out@, out@, runs, before, all, bounds, out@.len());
        }
        let mut k: usize = 0;
        while k < cuts.len()
            invariant
                k <= cuts@.len(),
                i < runs.len(),
                *run == runs[i as int],
                ranges@.len() == spans@.len(),
                m == line.metrics,
                at == (Place { left, top, metrics: m }),
                as_int_pairs(cuts@) == cut_pairs,
                cut_pairs == pieces(run.glyphs@, ranges@, run.glyphs@.len()),
                before == line_pieces(runs, ranges@, i as nat),
                all == line_pieces(runs, ranges@, (i + 1) as nat),
                all.len() == before.len() + cuts@.len(),
                forall|j: int|
                    0 <= j < cuts@.len() ==> (#[trigger] cuts@[j]).0 < cuts@[j].1
                        <= run.glyphs@.len(),
                out@.len() == before.len() + k,
                forall|j: int|
                    0 <= j < out@.len() ==> is_piece(
                        #[trigger] out@[j],
                        runs[all[j].0],
                        piece_glyphs(runs, all[j]),
                        at,
                        text@,
                        spans@,
                        ranges@,
                    ),
                ink == runs_ink(out@, runs, all, bounds, out@.len()),
            decreases cuts.len() - k,
        {
            let (from, to) = cuts[k];
            let ghost index = before.len() + k;
            assert(cut_pairs[k as int] == (from as int, to as int));
            assert(all[index as int] == (i as int, from as int, to as int));
            let piece = build_piece(run, from, to, left, top, m, text, spans, ranges);
            let ghost part = run.glyphs@.subrange(from as int, to as int);
            assert(piece.glyphs@.len() == part.len());
            ink = add_run_ink(ink, &piece.glyphs, &run.glyphs, from, bounds);
            let ghost old_out = out@;
            out.push(piece);
            proof {
                lemma_ink_prefix(old_out, out@, runs, all, all, bounds, old_out.len());
                assert(piece_glyphs(runs, all[index as int]) == part);
            }
            k += 1;
        }
        i += 1;
    }
    let ink_bounds = match ink {
        Some(r) => r,
        None => {
            let (x, y) = (bounds.min_x(), bounds.min_y());
            Rect {
                x0: x,
                y0: y.add(m.baseline).sub(m.ascent),
                x1: bounds.max_x(),
                y1: y.add(m.baseline).add(m.descent),
            }
        },
    };
    TextLine { runs: out, bounds, metrics: m, ink_bounds }
}

/// The top of line `n`: the sum of the heights of the lines above it.
pub open spec fn top_of(lines: Seq<RawLine>, n: nat) -> Scalar
    decreases n,
{
    if n == 0 || n > lines.len() {
        Scalar { bits: 0 }
    } else {
        plus(top_of(lines, (n - 1) as nat), lines[n - 1].metrics.line_height)
    }
}

/// The first `n` lines that have glyphs.
pub open spec fn inked_lines(lines: Seq<RawLine>, n: nat) -> Seq<int>
    decreases n,
{
    if n == 0 || n > lines.len() {
        Seq::empty()
    } else if has_glyphs(lines[n - 1]) {
        inked_lines(lines, (n - 1) as nat).push(n - 1)
    } else {
        inked_lines(lines, (n - 1) as nat)
    }
}

/// The lines are those with glyphs, each below all lines before it.
pub open spec fn are_lines(
    out: Seq<TextLine>,
    lines: Seq<RawLine>,
    n: nat,
    text: Seq<char>,
    spans: Seq<RichSpan>,
    ranges: Seq<(usize, usize)>,
) -> bool {
    let all = inked_lines(lines, n);
    out.len() == all.len() && forall|i: int|
        0 <= i < out.len() ==> is_line(
            #[trigger] out[i],
            lines[all[i]],
            top_of(lines, all[i] as nat),
            text,
            spans,
            ranges,
        )
}

/// The box around the ink of the first `n` lines.
pub open spec fn lines_ink(lines: Seq<TextLine>, n: nat) -> Option<Rect>
    decreases n,
{
    if n == 0 || n > lines.len() {
        None
    } else {
        match lines_ink(lines, (n - 1) as nat) {
            Some(a) => Some(a.ordered().joined(lines[n - 1].ink_bounds.ordered())),
            None => Some(lines[n - 1].ink_bounds),
        }
    }
}

/// `out` is the layout of shaped lines.
pub open spec fn is_layout(
    out: TextLayout,
    lines: Seq<RawLine>,
    width: Scalar,
    height: Scalar,
    spans: Seq<RichSpan>,
    ranges: Seq<(usize, usize)>,
) -> bool {
    &&& are_lines(out.lines@, lines, lines.len(), spans::content(spans), spans, ranges)
    &&& out.width == width
    &&& out.height == height
    &&& out.ink_bounds == match lines_ink(out.lines@, out.lines@.len()) {
        Some(r) => r,
        None => Rect { x0: Scalar { bits: 0 }, y0: Scalar { bits: 0 }, x1: width, y1: height },
    }
}

/// The self-contained layout of shaped lines of the text of the spans.
///
/// Lines without glyphs take up space and are left out. Runs are cut where the span changes, so
/// that each carries the link, the decoration, the background and the shift of its own span.
pub fn extract_lines(
    lines: &Vec<RawLine>,
    width: Scalar,
    height: Scalar,
    spans: &Vec<RichSpan>,
    ranges: &Vec<(usize, usize)>,
) -> (out: TextLayout)
    requires
        ranges@.len() == spans@.len(),
    ensures
        is_layout(out, lines@, width, height, spans@, ranges@),
{
    let text = chars::to_chars(spans::plain_text(spans).as_str());
    let mut out: Vec<TextLine> = Vec::new();
    let mut ink: Option<Rect> = None;
    let mut top = Scalar { bits: 0 };
    let mut i: usize = 0;
    while i < lines.len()
        invariant
            i <= lines@.len(),
            ranges@.len() == spans@.len(),
            text@ == spans::content(spans@),
            top == top_of(lines@, i as nat),
            are_lines(out@, lines@, i as nat, text@, spans@, ranges@),
            ink == lines_ink(out@, out@.len()),
        decreases lines.len() - i,
    {
        let line = &lines[i];
        if has_any_glyph(line) {
            let built = build_line(line, top, &text, spans, ranges);
            ink = match ink {
                Some(a) => Some(RectExt::union(&a, built.ink_bounds)),
                None => Some(built.ink_bounds),
            };
            let ghost old_out = out@;
            out.push(built);
            proof {
                lemma_lines_ink_prefix(old_out, out@, old_out.len());
            }
        }
        top = add_single(top, line.metrics.line_height);
        i += 1;
    }
    let ink_bounds = match ink {
        Some(r) => r,
        None => Rect { x0: Scalar { bits: 0 }, y0: Scalar { bits: 0 }, x1: width, y1: height },
    };
    TextLayout { lines: out, width, height, ink_bounds }
}

proof fn lemma_lines_ink_prefix(a: Seq<TextLine>, b: Seq<TextLine>, n: nat)
    requires
        n <= a.len(),
        n <= b.len(),
        forall|i: int| 0 <= i < n ==> a[i] == b[i],
    ensures
        lines_ink(a, n) == lines_ink(b, n),
    decreases n,
{
    if n > 0 {
        lemma_lines_ink_prefix(a, b, (n - 1) as nat);
    }
}

} // verus!

//! Cutting a run.

use vstd::prelude::*;
use crate::chars;
use crate::copy::copied;
use crate::text::bytes;
use crate::text::extract;
use crate::text::layout::{Glyph, TextLayout, TextLine, TextRun};
use crate::text::style::clone_text;

verus! {

/// A glyph starts at the offset.
pub open spec fn glyph_starts(glyphs: Seq<Glyph>, o: int) -> bool {
    exists|i: int| 0 <= i < glyphs.len() && (#[trigger] glyphs[i]).cluster == o
}

/// The offset is asked for.
pub open spec fn asked(offsets: Seq<usize>, o: int) -> bool {
    exists|i: int| 0 <= i < offsets.len() && #[trigger] offsets[i] == o
}

/// The characters below `n`, but for the first, at which a run is cut: those at an offset that
/// is asked for and at which a glyph starts.
pub open spec fn cuts(text: Seq<char>, glyphs: Seq<Glyph>, offsets: Seq<usize>, n: nat) -> Seq<int>
    decreases n,
{
    if n <= 1 {
        Seq::empty()
    } else {
        let rest = cuts(text, glyphs, offsets, (n - 1) as nat);
        let o = bytes::offset_of(text, n - 1) as int;
        if asked(offsets, o) && glyph_starts(glyphs, o) {
            rest.push(n - 1)
        } else {
            rest
        }
    }
}

/// The start of each part and the end of the last.
pub open spec fn marks(text: Seq<char>, glyphs: Seq<Glyph>, offsets: Seq<usize>) -> Seq<int> {
    seq![0int] + cuts(text, glyphs, offsets, text.len()) + seq![text.len() as int]
}

/// The first `n` glyphs that start in a byte range, counted from its start.
pub open spec fn glyphs_in(glyphs: Seq<Glyph>, lo: int, hi: int, n: nat) -> Seq<Glyph>
    decreases n,
{
    if n == 0 || n > glyphs.len() {
        Seq::empty()
    } else {
        let rest = glyphs_in(glyphs, lo, hi, (n - 1) as nat);
        let g = glyphs[n - 1];
        if lo <= g.cluster < hi {
            rest.push(Glyph { cluster: (g.cluster - lo) as u32, ..g })
        } else {
            rest
        }
    }
}

/// The glyphs of the part from one character to another.
pub open spec fn part_glyphs(run: TextRun, a: int, b: int) -> Seq<Glyph> {
    glyphs_in(
        run.glyphs@,
        bytes::offset_of(run.text@, a) as int,
        bytes::offset_of(run.text@, b) as int,
        run.glyphs@.len(),
    )
}

/// The parts between the first `n` marks that have glyphs.
pub open spec fn parts(run: TextRun, marks: Seq<int>, n: nat) -> Seq<(int, int)>
    decreases n,
{
    if n <= 1 || n > marks.len() {
        Seq::empty()
    } else {
        let rest = parts(run, marks, (n - 1) as nat);
        let (a, b) = (marks[n - 2], marks[n - 1]);
        if part_glyphs(run, a, b).len() > 0 {
            rest.push((a, b))
        } else {
            rest
        }
    }
}

/// `out` has all that is not text or glyphs from `run`.
pub open spec fn same_look(out: TextRun, run: TextRun) -> bool {
    out.font_data == run.font_data && out.font_index == run.font_index && out.font_size
        == run.font_size && out.font_weight_bold == run.font_weight_bold && out.font_style_italic
        == run.font_style_italic && out.color == run.color && out.is_rtl == run.is_rtl
        && out.baseline_y == run.baseline_y && out.url == run.url && out.decoration
        == run.decoration && out.baseline_shift == run.baseline_shift && out.background_color
        == run.background_color
}

/// `out` is the part of a run from one character to another.
pub open spec fn is_part(out: TextRun, run: TextRun, a: int, b: int) -> bool {
    &&& same_look(out, run)
    &&& out.text@ == run.text@.subrange(a, b)
    &&& out.glyphs@ == part_glyphs(run, a, b)
    &&& out.advance == extract::total_advance(out.glyphs@, out.glyphs@.len())
    &&& out.baseline_x == out.glyphs@[0].x
}

/// The runs have the same text, glyphs and looks.
pub open spec fn same_run(a: TextRun, b: TextRun) -> bool {
    same_look(a, b) && a.text@ == b.text@ && a.glyphs@ == b.glyphs@ && a.advance == b.advance
        && a.baseline_x == b.baseline_x
}

/// The lines hold the same runs in the same boxes.
pub open spec fn same_line(a: TextLine, b: TextLine) -> bool {
    &&& a.bounds == b.bounds
    &&& a.metrics == b.metrics
    &&& a.ink_bounds == b.ink_bounds
    &&& a.runs@.len() == b.runs@.len()
    &&& forall|i: int| 0 <= i < a.runs@.len() ==> same_run(#[trigger] a.runs@[i], b.runs@[i])
}

/// The layouts hold the same lines.
pub open spec fn same_layout(a: TextLayout, b: TextLayout) -> bool {
    &&& a.width == b.width
    &&& a.height == b.height
    &&& a.ink_bounds == b.ink_bounds
    &&& a.lines@.len() == b.lines@.len()
    &&& forall|i: int| 0 <= i < a.lines@.len() ==> same_line(#[trigger] a.lines@[i], b.lines@[i])
}

impl Clone for TextRun {
    fn clone(&self) -> (r: TextRun)
        ensures
            same_run(r, *self),
    {
        TextRun {
            text: self.text.clone(),
            font_data: self.font_data.clone(),
            font_index: self.font_index,
            font_size: self.font_size,
            font_weight_bold: self.font_weight_bold,
            font_style_italic: self.font_style_italic,
            color: self.color,
            advance: self.advance,
            glyphs: copied(&self.glyphs),
            is_rtl: self.is_rtl,
            baseline_x: self.baseline_x,
            baseline_y: self.baseline_y,
            url: clone_text(&self.url),
            decoration: self.decoration,
            baseline_shift: self.baseline_shift,
            background_color: self.background_color,
        }
    }
}

impl Clone for TextLine {
    fn clone(&self) -> (r: TextLine)
        ensures
            same_line(r, *self),
    {
        let mut runs: Vec<TextRun> = Vec::new();
        let mut i: usize = 0;
        while i < self.runs.len()
            invariant
                i <= self.runs@.len(),
                runs@.len() == i,
                forall|j: int| 0 <= j < i ==> same_run(#[trigger] runs@[j], self.runs@[j]),
            decreases self.runs.len() - i,
        {
            runs.push(self.runs[i].clone());
            i += 1;
        }
        TextLine {
            runs,
            bounds: self.bounds,
            metrics: self.metrics,
            ink_bounds: self.ink_bounds,
        }
    }
}

impl Clone for TextLayout {
    fn clone(&self) -> (r: TextLayout)
        ensures
            same_layout(r, *self),
    {
        let mut lines: Vec<TextLine> = Vec::new();
        let mut i: usize = 0;
        while i < self.lines.len()
            invariant
                i <= self.lines@.len(),
                lines@.len() == i,
                forall|j: int| 0 <= j < i ==> same_line(#[trigger] lines@[j], self.lines@[j]),
            decreases self.lines.len() - i,
        {
            lines.push(self.lines[i].clone());
            i += 1;
        }
        TextLayout {
            lines,
            width: self.width,
            height: self.height,
            ink_bounds: self.ink_bounds,
        }
    }
}

fn is_asked(offsets: &[usize], o: u128) -> (r: bool)
    ensures
        r == asked(offsets@, o as int),
{
    let mut i: usize = 0;
    while i < offsets.len()
        invariant
            i <= offsets@.len(),
            forall|j: int| 0 <= j < i ==> #[trigger] offsets@[j] != o,
        decreases offsets.len() - i,
    {
        if offsets[i] as u128 == o {
            assert(offsets@[i as int] == o);
            return true;
        }
        i += 1;
    }
    false
}

fn starts_glyph(glyphs: &Vec<Glyph>, o: u128) -> (r: bool)
    ensures
        r == glyph_starts(glyphs@, o as int),
{
    let mut i: usize = 0;
    while i < glyphs.len()
        invariant
            i <= glyphs@.len(),
            forall|j: int| 0 <= j < i ==> (#[trigger] glyphs@[j]).cluster != o,
        decreases glyphs.len() - i,
    {
        if glyphs[i].cluster as u128 == o {
            assert(glyphs@[i as int].cluster == o);
            return true;
        }
        i += 1;
    }
    false
}

/// Marks as integers.
pub open spec fn mark_indices(v: Seq<(usize, u128)>) -> Seq<int> {
    Seq::new(v.len(), |i: int| v[i].0 as int)
}

/// Each mark carries its byte offset.
pub open spec fn located(text: Seq<char>, v: Seq<(usize, u128)>) -> bool {
    forall|i: int|
        0 <= i < v.len() ==> (#[trigger] v[i]).0 <= text.len() && v[i].1 == bytes::offset_of(
            text,
            v[i].0 as int,
        )
}

fn find_marks(text: &Vec<char>, glyphs: &Vec<Glyph>, offsets: &[usize]) -> (r: Vec<(usize, u128)>)
    ensures
        mark_indices(r@) == marks(text@, glyphs@, offsets@),
        located(text@, r@),
        forall|i: int, j: int| 0 <= i < j < r@.len() ==> (#[trigger] r@[i]).0 <= (#[trigger] r@[j]).0,
{
    let mut r: Vec<(usize, u128)> = Vec::new();
    r.push((0, 0));
    let mut o: u128 = 0;
    let mut i: usize = 0;
    let ghost first = seq![0int];
    assert(text@.take(0) =~= Seq::<char>::empty());
    assert(mark_indices(r@) =~= first + cuts(text@, glyphs@, offsets@, 0));
    while i < text.len()
        invariant
            i <= text@.len(),
            o == bytes::offset_of(text@, i as int),
            o <= 4 * i,
            first == seq![0int],
            r@.len() > 0,
            mark_indices(r@) == first + cuts(text@, glyphs@, offsets@, i as nat),
            located(text@, r@),
            forall|a: int| 0 <= a < r@.len() ==> (#[trigger] r@[a]).0 <= i,
            forall|a: int, b: int|
                0 <= a < b < r@.len() ==> (#[trigger] r@[a]).0 <= (#[trigger] r@[b]).0,
        decreases text.len() - i,
    {
        let ghost before = mark_indices(r@);
        if i > 0 && is_asked(offsets, o) && starts_glyph(glyphs, o) {
            r.push((i, o));
            assert(mark_indices(r@) =~= before.push(i as int));
        }
        assert(mark_indices(r@) =~= first + cuts(text@, glyphs@, offsets@, (i + 1) as nat));
        assert(text@.take(i + 1).drop_last() =~= text@.take(i as int));
        o = o + bytes::bytes_of(text[i]) as u128;
        i += 1;
    }
    let ghost before = mark_indices(r@);
    r.push((text.len(), o));
    assert(mark_indices(r@) =~= before.push(text@.len() as int));
    assert(mark_indices(r@) =~= marks(text@, glyphs@, offsets@));
    r
}

fn take_glyphs(glyphs: &Vec<Glyph>, lo: u128, hi: u128) -> (r: Vec<Glyph>)
    ensures
        r@ == glyphs_in(glyphs@, lo as int, hi as int, glyphs@.len()),
{
    let mut r: Vec<Glyph> = Vec::new();
    let mut i: usize = 0;
    assert(r@ =~= glyphs_in(glyphs@, lo as int, hi as int, 0));
    while i < glyphs.len()
        invariant
            i <= glyphs@.len(),
            r@ == glyphs_in(glyphs@, lo as int, hi as int, i as nat),
        decreases glyphs.len() - i,
    {
        let g = glyphs[i];
        let c: u128 = g.cluster as u128;
        if lo <= c && c < hi {
            r.push(Glyph { cluster: (c - lo) as u32, ..g });
        }
        i += 1;
    }
    r
}

impl TextRun {
    /// Cuts the run at byte offsets of its text.
    ///
    /// Offsets at the ends of the text, inside a character or at which no glyph starts are left
    /// out. A part keeps the look of the run, counts its clusters from its own start and has the
    /// advance and the first position of its own glyphs; a part without glyphs is left out.
    /// Without an offset that counts, the run comes back whole.
    pub fn split_at(&self, offsets: &[usize]) -> (out: Vec<TextRun>)
        ensures
            ({
                let m = marks(self.text@, self.glyphs@, offsets@);
                let p = parts(*self, m, m.len());
                if m.len() == 2 {
                    &&& out@.len() == 1
                    &&& same_look(out@[0], *self)
                    &&& out@[0].text@ == self.text@
                    &&& out@[0].glyphs@ == self.glyphs@
                    &&& out@[0].advance == self.advance
                    &&& out@[0].baseline_x == self.baseline_x
                } else {
                    &&& out@.len() == p.len()
                    &&& forall|i: int|
                        0 <= i < out@.len() ==> is_part(#[trigger] out@[i], *self, p[i].0, p[i].1)
                }
            }),
    {
        let text = chars::to_chars(self.text.as_str());
        let bounds = find_marks(&text, &self.glyphs, offsets);
        let ghost m = marks(self.text@, self.glyphs@, offsets@);
        assert(mark_indices(bounds@).len() == bounds@.len());
        let mut out: Vec<TextRun> = Vec::new();
        if bounds.len() == 2 {
            out.push(self.clone());
            return out;
        }
        let mut i: usize = 1;
        while i < bounds.len()
            invariant
                1 <= i <= bounds@.len(),
                m == mark_indices(bounds@),
                text@ == self.text@,
                located(text@, bounds@),
                forall|a: int, b: int|
                    0 <= a < b < bounds@.len() ==> (#[trigger] bounds@[a]).0 <= (
                    #[trigger] bounds@[b]).0,
                out@.len() == parts(*self, m, i as nat).len(),
                forall|j: int|
                    0 <= j < out@.len() ==> is_part(
                        #[trigger] out@[j],
                        *self,
                        parts(*self, m, i as nat)[j].0,
                        parts(*self, m, i as nat)[j].1,
                    ),
            decreases bounds.len() - i,
        {
            let (a, lo) = bounds[i - 1];
            let (b, hi) = bounds[i];
            assert(bounds@[i - 1].0 <= bounds@[i as int].0);
            let glyphs = take_glyphs(&self.glyphs, lo, hi);
            assert(m[i - 1] == a && m[i as int] == b);
            assert(glyphs@ == part_glyphs(*self, a as int, b as int));
            if glyphs.len() > 0 {
                let advance = extract::sum_advances(&glyphs);
                let baseline_x = glyphs[0].x;
                let whole = self.clone();
                let part = TextRun {
                    text: chars::to_text(&chars::sub_chars(&text, a, b)),
                    advance,
                    glyphs,
                    baseline_x,
                    ..whole
                };
                out.push(part);
            }
            i += 1;
        }
        out
    }
}

/// Cutting loses no glyph: each cluster inside the text lies between two marks that follow each
/// other.
pub proof fn law_split_keeps_every_glyph(
    text: Seq<char>,
    glyphs: Seq<Glyph>,
    offsets: Seq<usize>,
    c: int,
)
    requires
        0 <= c < bytes::byte_len(text),
    ensures
        exists|i: int|
            0 <= i && i + 1 < marks(text, glyphs, offsets).len() && bytes::offset_of(
                text,
                #[trigger] marks(text, glyphs, offsets)[i],
            ) <= c && c < bytes::offset_of(text, marks(text, glyphs, offsets)[i + 1]),
{
    let m = marks(text, glyphs, offsets);
    assert(text.take(0) =~= Seq::<char>::empty());
    assert(text.take(text.len() as int) =~= text);
    assert(m[0] == 0 && m.last() == text.len());
    lemma_between_marks(text, m, (m.len() - 1) as int, c);
}

proof fn lemma_between_marks(text: Seq<char>, m: Seq<int>, n: int, c: int)
    requires
        0 < n < m.len(),
        bytes::offset_of(text, m[0]) <= c < bytes::offset_of(text, m[n]),
    ensures
        exists|i: int|
            0 <= i && i + 1 < m.len() && bytes::offset_of(text, #[trigger] m[i]) <= c && c
                < bytes::offset_of(text, m[i + 1]),
    decreases n,
{
    if bytes::offset_of(text, m[n - 1]) <= c {
        assert(bytes::offset_of(text, m[n - 1]) <= c && c < bytes::offset_of(text, m[(n - 1) + 1]));
    } else {
        lemma_between_marks(text, m, n - 1, c);
    }
}

} // verus!

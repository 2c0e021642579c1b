//! Which glyph stands for which bytes of the text.

use vstd::prelude::*;
use crate::geometry::Rect;
use crate::scalar::Scalar;
use crate::text::extract::RawGlyph;

verus! {

/// A glyph in its place, before it is known what it stands for.
#[derive(Debug, Clone, Copy, PartialEq, Eq, Structural)]
pub struct PlacedGlyph {
    pub id: u32,
    pub x: Scalar,
    pub y: Scalar,
    pub advance: Scalar,
    /// The box around its ink, with the baseline at 0.
    pub ink: Option<Rect>,
}

/// Bytes of the text that are shaped together, and the number of their glyphs.
#[derive(Debug, Clone, Copy, PartialEq, Eq, Structural)]
pub struct Cluster {
    pub start: u32,
    pub end: u32,
    pub glyphs: usize,
}

/// Glyphs of one look: a part of a run of one font, whose clusters are given as a whole.
#[derive(Debug)]
pub struct ShapedPart {
    /// The run that it is a part of.
    pub run: usize,
    pub clusters: Vec<Cluster>,
    pub glyphs: Vec<PlacedGlyph>,
}

/// The bytes of each glyph of the first `n` clusters.
pub open spec fn glyph_bytes(clusters: Seq<Cluster>, n: nat) -> Seq<(u32, u32)>
    decreases n,
{
    if n == 0 || n > clusters.len() {
        Seq::empty()
    } else {
        let c = clusters[n - 1];
        glyph_bytes(clusters, (n - 1) as nat) + Seq::new(
            c.glyphs as nat,
            |i: int| (c.start, c.end),
        )
    }
}

/// A glyph with the bytes that it stands for.
pub open spec fn standing(g: PlacedGlyph, range: (u32, u32)) -> RawGlyph {
    RawGlyph {
        id: g.id,
        x: g.x,
        y: g.y,
        advance: g.advance,
        start: range.0,
        end: range.1,
        ink: g.ink,
    }
}

/// The glyphs of a part, from place `first` of its run on; those that no cluster is left for are
/// dropped.
pub open spec fn matched(part: ShapedPart, first: nat) -> Seq<RawGlyph> {
    let ranges = glyph_bytes(part.clusters@, part.clusters@.len());
    let left = ranges.len() - first;
    let n = if left < 0 {
        0
    } else if left < part.glyphs@.len() {
        left
    } else {
        part.glyphs@.len() as int
    };
    Seq::new(n as nat, |i: int| standing(part.glyphs@[i], ranges[first + i]))
}

/// The place in its run at which part `i` begins: after the glyphs of the parts of the same run
/// among the first `n`.
pub open spec fn place_in_run(parts: Seq<ShapedPart>, run: usize, n: nat) -> nat
    decreases n,
{
    if n == 0 || n > parts.len() {
        0
    } else {
        let before = place_in_run(parts, run, (n - 1) as nat);
        if parts[n - 1].run == run {
            before + matched(parts[n - 1], before).len()
        } else {
            before
        }
    }
}

/// The glyphs of the parts of a line.
pub open spec fn matched_parts(parts: Seq<ShapedPart>) -> Seq<Seq<RawGlyph>> {
    Seq::new(parts.len(), |i: int| matched(parts[i], place_in_run(parts, parts[i].run, i as nat)))
}

/// The values of lists of glyphs.
pub open spec fn glyph_views(v: Seq<Vec<RawGlyph>>) -> Seq<Seq<RawGlyph>> {
    Seq::new(v.len(), |i: int| v[i]@)
}

/// Gives the glyphs of a part their bytes, cluster by cluster; the first `first` places of the
/// run are taken.
pub fn match_glyphs(part: &ShapedPart, first: u128) -> (out: Vec<RawGlyph>)
    ensures
        out@ == matched(*part, first as nat),
{
    let ghost ranges = glyph_bytes(part.clusters@, part.clusters@.len());
    let ghost all = matched(*part, first as nat);
    let mut out: Vec<RawGlyph> = Vec::new();
    let mut skip: u128 = first;
    let mut i: usize = 0;
    while i < part.clusters.len()
        invariant
            i <= part.clusters@.len(),
            ranges == glyph_bytes(part.clusters@, part.clusters@.len()),
            all == matched(*part, first as nat),
            ({
                let done = glyph_bytes(part.clusters@, i as nat).len();
                &&& skip == (if first > done {
                    first - done
                } else {
                    0
                })
                &&& out@ == all.take(out@.len() as int)
                &&& out@.len() <= all.len()
                &&& out@.len() == (if done < first {
                    0
                } else if done - first < part.glyphs@.len() {
                    done - first
                } else {
                    part.glyphs@.len() as int
                })
            }),
        decreases part.clusters.len() - i,
    {
        let c = part.clusters[i];
        let ghost done = glyph_bytes(part.clusters@, i as nat).len();
        proof {
            lemma_bytes_prefix(part.clusters@, (i + 1) as nat, part.clusters@.len());
            lemma_bytes_prefix(part.clusters@, i as nat, (i + 1) as nat);
            let next = glyph_bytes(part.clusters@, (i + 1) as nat);
            assert forall|j: int| done <= j < done + c.glyphs implies #[trigger] ranges[j] == (
                c.start,
                c.end,
            ) by {
                assert(next[j] == (c.start, c.end));
                assert(ranges.take(next.len() as int)[j] == ranges[j]);
            }
        }
        let mut k: usize = 0;
        while k < c.glyphs
            invariant
                k <= c.glyphs,
                i < part.clusters@.len(),
                c == part.clusters@[i as int],
                ranges == glyph_bytes(part.clusters@, part.clusters@.len()),
                all == matched(*part, first as nat),
                done == glyph_bytes(part.clusters@, i as nat).len(),
                done + c.glyphs <= ranges.len(),
                forall|j: int|
                    done <= j < done + c.glyphs ==> #[trigger] ranges[j] == (c.start, c.end),
                skip == (if first > done + k {
                    first - done - k
                } else {
                    0
                }),
                out@ == all.take(out@.len() as int),
                out@.len() <= all.len(),
                out@.len() == (if done + k < first {
                    0
                } else if done + k - first < part.glyphs@.len() {
                    done + k - first
                } else {
                    part.glyphs@.len() as int
                }),
            decreases c.glyphs - k,
        {
            if skip > 0 {
                skip -= 1;
            } else if out.len() < part.glyphs.len() {
                let g = part.glyphs[out.len()];
                let ghost at = out@.len() as int;
                assert(ranges[first + at] == (c.start, c.end));
                out.push(
                    RawGlyph {
                        id: g.id,
                        x: g.x,
                        y: g.y,
                        advance: g.advance,
                        start: c.start,
                        end: c.end,
                        ink: g.ink,
                    },
                );
                assert(all[at] == standing(g, (c.start, c.end)));
                assert(out@ =~= all.take(at + 1));
            }
            k += 1;
        }
        i += 1;
    }
    assert(out@ =~= all);
    out
}

/// The bytes of fewer clusters come first.
proof fn lemma_bytes_prefix(clusters: Seq<Cluster>, m: nat, n: nat)
    requires
        m <= n <= clusters.len(),
    ensures
        glyph_bytes(clusters, m).len() <= glyph_bytes(clusters, n).len(),
        glyph_bytes(clusters, m) == glyph_bytes(clusters, n).take(
            glyph_bytes(clusters, m).len() as int,
        ),
    decreases n,
{
    if m < n {
        lemma_bytes_prefix(clusters, m, (n - 1) as nat);
        let a = glyph_bytes(clusters, (n - 1) as nat);
        let b = glyph_bytes(clusters, n);
        assert(a =~= b.take(a.len() as int));
        let k = glyph_bytes(clusters, m).len() as int;
        assert(a.take(k) =~= b.take(k));
    } else {
        let b = glyph_bytes(clusters, n);
        assert(b =~= b.take(b.len() as int));
    }
}

/// Gives the glyphs of the parts of a line their bytes. Parts of one run take its clusters in
/// turn.
pub fn match_parts(parts: &Vec<ShapedPart>) -> (out: Vec<Vec<RawGlyph>>)
    ensures
        glyph_views(out@) == matched_parts(parts@),
{
    let mut out: Vec<Vec<RawGlyph>> = Vec::new();
    let mut i: usize = 0;
    while i < parts.len()
        invariant
            i <= parts@.len(),
            out@.len() == i,
            forall|j: int| 0 <= j < i ==> (#[trigger] out@[j])@ == matched_parts(parts@)[j],
        decreases parts.len() - i,
    {
        let run = parts[i].run;
        let mut first: u128 = 0;
        let mut j: usize = 0;
        while j < i
            invariant
                j <= i < parts@.len(),
                out@.len() == i,
                run == parts@[i as int].run,
                first == place_in_run(parts@, run, j as nat),
                first <= j * usize::MAX,
                forall|j: int| 0 <= j < i ==> (#[trigger] out@[j])@ == matched_parts(parts@)[j],
            decreases i - j,
        {
            assert(j * usize::MAX + usize::MAX == (j + 1) * usize::MAX) by (nonlinear_arith);
            assert((j + 1) * usize::MAX <= usize::MAX * usize::MAX) by (nonlinear_arith)
                requires
                    j + 1 <= usize::MAX,
            ;
            if parts[j].run == run {
                assert(out@[j as int]@ == matched_parts(parts@)[j as int]);
                let n: usize = out[j].len();
                first += n as u128;
            }
            j += 1;
        }
        out.push(match_glyphs(&parts[i], first));
        i += 1;
    }
    assert(glyph_views(out@) =~= matched_parts(parts@));
    out
}

} // verus!

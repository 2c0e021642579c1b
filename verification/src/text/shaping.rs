//! What the layout engine is asked for.

use vstd::prelude::*;
use crate::arith;
use crate::chars;
use crate::copy;
use crate::geometry::Color;
use crate::render::spans;
use crate::render::spans::EPSILON_BITS;
use crate::scalar;
use crate::scalar::Scalar;
use crate::text::bytes;
use crate::text::style::{clone_text, RichSpan, TextDecoration, TextStyle};

verus! {

/// The bit pattern of `1e-6`.
pub const LEAST_SIZE_BITS: u64 = 0x3eb0_c6f7_a0b5_ed8d;

/// A generic font family.
#[derive(Debug, Clone, Copy, PartialEq, Eq, Structural)]
pub enum GenericFamily {
    Serif,
    SansSerif,
    Monospace,
    Cursive,
    Fantasy,
    SystemUi,
    UiSerif,
    UiSansSerif,
    UiMonospace,
    UiRounded,
    Emoji,
    Math,
    FangSong,
}

/// The generic family of a name in lower case.
pub open spec fn generic_of(k: Seq<char>) -> Option<GenericFamily> {
    if k == "serif"@ {
        Some(GenericFamily::Serif)
    } else if k == "sans-serif"@ || k == "sansserif"@ {
        Some(GenericFamily::SansSerif)
    } else if k == "monospace"@ {
        Some(GenericFamily::Monospace)
    } else if k == "cursive"@ {
        Some(GenericFamily::Cursive)
    } else if k == "fantasy"@ {
        Some(GenericFamily::Fantasy)
    } else if k == "system-ui"@ || k == "systemui"@ {
        Some(GenericFamily::SystemUi)
    } else if k == "ui-serif"@ || k == "uiserif"@ {
        Some(GenericFamily::UiSerif)
    } else if k == "ui-sans-serif"@ || k == "uisansserif"@ {
        Some(GenericFamily::UiSansSerif)
    } else if k == "ui-monospace"@ || k == "uimonospace"@ {
        Some(GenericFamily::UiMonospace)
    } else if k == "ui-rounded"@ || k == "uirounded"@ {
        Some(GenericFamily::UiRounded)
    } else if k == "emoji"@ {
        Some(GenericFamily::Emoji)
    } else if k == "math"@ {
        Some(GenericFamily::Math)
    } else if k == "fangsong"@ {
        Some(GenericFamily::FangSong)
    } else {
        None
    }
}

/// The generic family of a name, in any case; none where it is not known.
pub fn parse_generic_family(name: &str) -> (r: Option<GenericFamily>)
    ensures
        r == generic_of(chars::lowered(name@)),
{
    let k = chars::to_lower(&chars::to_chars(name));
    if chars::spells(&k, "serif") {
        Some(GenericFamily::Serif)
    } else if chars::spells(&k, "sans-serif") || chars::spells(&k, "sansserif") {
        Some(GenericFamily::SansSerif)
    } else if chars::spells(&k, "monospace") {
        Some(GenericFamily::Monospace)
    } else if chars::spells(&k, "cursive") {
        Some(GenericFamily::Cursive)
    } else if chars::spells(&k, "fantasy") {
        Some(GenericFamily::Fantasy)
    } else if chars::spells(&k, "system-ui") || chars::spells(&k, "systemui") {
        Some(GenericFamily::SystemUi)
    } else if chars::spells(&k, "ui-serif") || chars::spells(&k, "uiserif") {
        Some(GenericFamily::UiSerif)
    } else if chars::spells(&k, "ui-sans-serif") || chars::spells(&k, "uisansserif") {
        Some(GenericFamily::UiSansSerif)
    } else if chars::spells(&k, "ui-monospace") || chars::spells(&k, "uimonospace") {
        Some(GenericFamily::UiMonospace)
    } else if chars::spells(&k, "ui-rounded") || chars::spells(&k, "uirounded") {
        Some(GenericFamily::UiRounded)
    } else if chars::spells(&k, "emoji") {
        Some(GenericFamily::Emoji)
    } else if chars::spells(&k, "math") {
        Some(GenericFamily::Math)
    } else if chars::spells(&k, "fangsong") {
        Some(GenericFamily::FangSong)
    } else {
        None
    }
}

/// The byte range of span `i` in the text of all spans.
pub open spec fn span_range(spans: Seq<RichSpan>, i: int) -> (nat, nat) {
    (
        bytes::byte_len(spans::content(spans.take(i))),
        bytes::byte_len(spans::content(spans.take(i + 1))),
    )
}

/// The ranges are those of the spans.
pub open spec fn are_ranges(spans: Seq<RichSpan>, ranges: Seq<(usize, usize)>) -> bool {
    ranges.len() == spans.len() && forall|i: int|
        0 <= i < ranges.len() ==> {
            &&& (#[trigger] ranges[i]).0 == span_range(spans, i).0
            &&& ranges[i].1 == span_range(spans, i).1
        }
}

proof fn lemma_content_grows(spans: Seq<RichSpan>, i: int)
    requires
        0 <= i < spans.len(),
    ensures
        spans::content(spans.take(i + 1)) == spans::content(spans.take(i)) + spans[i].text@,
{
    let t = spans.take(i + 1);
    let all = Seq::new(t.len(), |j: int| t[j].text@);
    let before = spans.take(i);
    let prior = Seq::new(before.len(), |j: int| before[j].text@);
    assert(all.drop_last() =~= prior);
    assert(all.last() == spans[i].text@);
}

/// The byte ranges of the spans in the text of all; none where that is too long to count.
pub fn span_ranges(spans: &Vec<RichSpan>) -> (r: Option<Vec<(usize, usize)>>)
    ensures
        r is Some <==> bytes::byte_len(spans::content(spans@)) <= usize::MAX,
        r matches Some(ranges) ==> are_ranges(spans@, ranges@),
{
    let mut ranges: Vec<(usize, usize)> = Vec::new();
    let mut acc: usize = 0;
    let mut i: usize = 0;
    assert(spans::content(spans@.take(0)) =~= Seq::<char>::empty());
    while i < spans.len()
        invariant
            i <= spans@.len(),
            acc == bytes::byte_len(spans::content(spans@.take(i as int))),
            ranges@.len() == i,
            forall|j: int|
                0 <= j < i ==> {
                    &&& (#[trigger] ranges@[j]).0 == span_range(spans@, j).0
                    &&& ranges@[j].1 == span_range(spans@, j).1
                },
        decreases spans.len() - i,
    {
        proof {
            lemma_content_grows(spans@, i as int);
            bytes::lemma_byte_len_concat(
                spans::content(spans@.take(i as int)),
                spans@[i as int].text@,
            );
        }
        let n = bytes::count_bytes(&chars::to_chars(spans[i].text.as_str()));
        match n {
            Some(n) => {
                if n > usize::MAX - acc {
                    proof {
                        lemma_content_prefix(spans@, (i + 1) as int);
                    }
                    return None;
                }
                ranges.push((acc, acc + n));
                acc = acc + n;
            },
            None => {
                proof {
                    lemma_content_prefix(spans@, (i + 1) as int);
                }
                return None;
            },
        }
        i += 1;
    }
    assert(spans@.take(spans@.len() as int) =~= spans@);
    Some(ranges)
}

proof fn lemma_content_prefix(spans: Seq<RichSpan>, i: int)
    requires
        0 <= i <= spans.len(),
    ensures
        bytes::byte_len(spans::content(spans.take(i))) <= bytes::byte_len(spans::content(spans)),
    decreases spans.len() - i,
{
    if i < spans.len() {
        lemma_content_grows(spans, i);
        bytes::lemma_byte_len_concat(spans::content(spans.take(i)), spans[i].text@);
        lemma_content_prefix(spans, i + 1);
    } else {
        assert(spans.take(i) =~= spans);
    }
}

/// What the layout engine is told about a range of text.
#[derive(Debug, Clone, Copy, PartialEq, Eq, Structural)]
pub enum StyleChange {
    Family,
    Size,
    Brush,
    Weight,
    Slant,
    Width,
    /// Line height as a multiple of the font size.
    LineHeight(Scalar),
    LetterSpacing,
    Underline,
    UnderlineBrush,
    Strikethrough,
    StrikethroughBrush,
}

/// A line height as a multiple of the font size.
pub open spec fn height_factor(height: Scalar, size: Scalar) -> Scalar {
    height.quotient(size.greatest(Scalar { bits: LEAST_SIZE_BITS })).single()
}

fn line_height_factor(height: Scalar, size: Scalar) -> (r: Scalar)
    ensures
        r == height_factor(height, size),
{
    height.div(size.max(Scalar { bits: LEAST_SIZE_BITS })).to_single()
}

/// The change, where it is needed.
pub open spec fn change(needed: bool, c: StyleChange) -> Seq<StyleChange> {
    if needed {
        seq![c]
    } else {
        Seq::empty()
    }
}

fn push_change(out: &mut Vec<StyleChange>, needed: bool, c: StyleChange)
    ensures
        final(out)@ == old(out)@ + change(needed, c),
{
    if needed {
        out.push(c);
    }
    proof {
        assert(final(out)@ =~= old(out)@ + change(needed, c));
    }
}

/// The line heights are equal, or both are missing.
pub open spec fn same_height(a: Option<Scalar>, b: Option<Scalar>) -> bool {
    match (a, b) {
        (Some(a), Some(b)) => a.same(b),
        (None, None) => true,
        _ => false,
    }
}

/// The line height of a style in a span: its own, else its size.
pub open spec fn span_height(s: TextStyle) -> Scalar {
    match s.line_height {
        Some(h) => h,
        None => s.font_size,
    }
}

/// What the layout engine is told about all of the text.
pub open spec fn default_changes(s: TextStyle) -> Seq<StyleChange> {
    seq![
        StyleChange::Family,
        StyleChange::Size,
        StyleChange::Brush,
        StyleChange::Weight,
        StyleChange::Slant,
        StyleChange::Width,
    ] + change(
        s.line_height is Some,
        StyleChange::LineHeight(height_factor(s.line_height->0, s.font_size)),
    ) + change(!s.letter_spacing.same(Scalar { bits: 0 }), StyleChange::LetterSpacing) + seq![
        StyleChange::Underline,
        StyleChange::UnderlineBrush,
        StyleChange::Strikethrough,
        StyleChange::StrikethroughBrush,
    ]
}

/// What the layout engine is told about all of the text: each property of the style, but for a
/// line height that is not set and for no letter spacing.
pub fn style_defaults(s: &TextStyle) -> (r: Vec<StyleChange>)
    ensures
        r@ == default_changes(*s),
{
    let mut r: Vec<StyleChange> = Vec::new();
    r.push(StyleChange::Family);
    r.push(StyleChange::Size);
    r.push(StyleChange::Brush);
    r.push(StyleChange::Weight);
    r.push(StyleChange::Slant);
    r.push(StyleChange::Width);
    match s.line_height {
        Some(h) => push_change(
            &mut r,
            true,
            StyleChange::LineHeight(line_height_factor(h, s.font_size)),
        ),
        None => push_change(&mut r, false, StyleChange::LetterSpacing),
    }
    push_change(
        &mut r,
        !s.letter_spacing.same_value(Scalar { bits: 0 }),
        StyleChange::LetterSpacing,
    );
    r.push(StyleChange::Underline);
    r.push(StyleChange::UnderlineBrush);
    r.push(StyleChange::Strikethrough);
    r.push(StyleChange::StrikethroughBrush);
    assert(r@ =~= default_changes(*s));
    r
}

/// What the layout engine is told about a span: where its style differs from the base.
pub open spec fn style_diff(s: TextStyle, base: TextStyle) -> Seq<StyleChange> {
    change(s.font_family@ != base.font_family@, StyleChange::Family) + change(
        spans::resized(s.font_size, base.font_size),
        StyleChange::Size,
    ) + change(s.color != base.color, StyleChange::Brush) + change(
        s.font_weight != base.font_weight,
        StyleChange::Weight,
    ) + change(s.font_style != base.font_style, StyleChange::Slant) + change(
        s.font_width != base.font_width,
        StyleChange::Width,
    ) + change(
        !same_height(s.line_height, base.line_height),
        StyleChange::LineHeight(height_factor(span_height(s), s.font_size)),
    ) + change(
        spans::resized(s.letter_spacing, base.letter_spacing),
        StyleChange::LetterSpacing,
    ) + change(s.underline != base.underline, StyleChange::Underline) + change(
        s.underline_color != base.underline_color,
        StyleChange::UnderlineBrush,
    ) + change(s.strikethrough != base.strikethrough, StyleChange::Strikethrough) + change(
        s.strikethrough_color != base.strikethrough_color,
        StyleChange::StrikethroughBrush,
    )
}

fn heights_agree(a: Option<Scalar>, b: Option<Scalar>) -> (r: bool)
    ensures
        r == same_height(a, b),
{
    match (a, b) {
        (Some(a), Some(b)) => a.same_value(b),
        (None, None) => true,
        _ => false,
    }
}

fn colors_agree(a: Option<Color>, b: Option<Color>) -> (r: bool)
    ensures
        r == (a == b),
{
    match (a, b) {
        (Some(a), Some(b)) => a == b,
        (None, None) => true,
        _ => false,
    }
}

/// What the layout engine is told about a span.
pub fn style_changes(s: &TextStyle, base: &TextStyle) -> (r: Vec<StyleChange>)
    ensures
        r@ == style_diff(*s, *base),
{
    let height = match s.line_height {
        Some(h) => h,
        None => s.font_size,
    };
    let eps = Scalar { bits: EPSILON_BITS };
    let mut r: Vec<StyleChange> = Vec::new();
    let renamed = !chars::same_text(s.font_family.as_str(), base.font_family.as_str());
    push_change(&mut r, renamed, StyleChange::Family);
    assert(r@ =~= change(s.font_family@ != base.font_family@, StyleChange::Family));
    push_change(&mut r, eps.lt(s.font_size.sub(base.font_size).abs()), StyleChange::Size);
    push_change(&mut r, s.color != base.color, StyleChange::Brush);
    push_change(&mut r, s.font_weight != base.font_weight, StyleChange::Weight);
    push_change(&mut r, s.font_style != base.font_style, StyleChange::Slant);
    push_change(&mut r, s.font_width != base.font_width, StyleChange::Width);
    push_change(
        &mut r,
        !heights_agree(s.line_height, base.line_height),
        StyleChange::LineHeight(line_height_factor(height, s.font_size)),
    );
    push_change(
        &mut r,
        eps.lt(s.letter_spacing.sub(base.letter_spacing).abs()),
        StyleChange::LetterSpacing,
    );
    push_change(&mut r, s.underline != base.underline, StyleChange::Underline);
    push_change(
        &mut r,
        !colors_agree(s.underline_color, base.underline_color),
        StyleChange::UnderlineBrush,
    );
    push_change(&mut r, s.strikethrough != base.strikethrough, StyleChange::Strikethrough);
    push_change(
        &mut r,
        !colors_agree(s.strikethrough_color, base.strikethrough_color),
        StyleChange::StrikethroughBrush,
    );
    r
}

/// What the layout engine is told about one span.
#[derive(Debug)]
pub struct SpanRequest {
    /// The span.
    pub span: usize,
    /// The bytes of its text.
    pub start: usize,
    pub end: usize,
    pub changes: Vec<StyleChange>,
}

/// The request is what the layout engine is told about a span.
pub open spec fn asks_for(
    r: SpanRequest,
    spans: Seq<RichSpan>,
    ranges: Seq<(usize, usize)>,
    i: int,
) -> bool {
    r.span == i && (r.start, r.end) == ranges[i] && r.changes@ == style_diff(
        spans[i].style,
        spans[0].style,
    )
}

/// The spans among the first `n` that the layout engine is told of: those with text, but for the
/// first, whose style holds for all.
pub open spec fn requested(ranges: Seq<(usize, usize)>, n: nat) -> Seq<int>
    decreases n,
{
    if n <= 1 || n > ranges.len() {
        Seq::empty()
    } else if ranges[n - 1].0 < ranges[n - 1].1 {
        requested(ranges, (n - 1) as nat).push(n - 1)
    } else {
        requested(ranges, (n - 1) as nat)
    }
}

/// The requests are those for the spans with text, but for the first.
pub open spec fn are_requests(
    r: Seq<SpanRequest>,
    spans: Seq<RichSpan>,
    ranges: Seq<(usize, usize)>,
) -> bool {
    let all = requested(ranges, ranges.len());
    r.len() == all.len() && forall|i: int|
        0 <= i < r.len() ==> asks_for(#[trigger] r[i], spans, ranges, all[i])
}

/// What the layout engine is told about the spans after the first.
pub fn span_requests(spans: &Vec<RichSpan>, ranges: &Vec<(usize, usize)>) -> (r: Vec<SpanRequest>)
    requires
        ranges@.len() == spans@.len(),
    ensures
        are_requests(r@, spans@, ranges@),
{
    let mut r: Vec<SpanRequest> = Vec::new();
    let mut i: usize = 1;
    while i < spans.len()
        invariant
            1 <= i,
            i <= spans@.len() || spans@.len() == 0,
            ranges@.len() == spans@.len(),
            r@.len() == requested(ranges@, i as nat).len(),
            forall|j: int|
                0 <= j < r@.len() ==> asks_for(
                    #[trigger] r@[j],
                    spans@,
                    ranges@,
                    requested(ranges@, i as nat)[j],
                ),
        decreases spans.len() - i,
    {
        let (start, end) = ranges[i];
        if start < end {
            r.push(
                SpanRequest {
                    span: i,
                    start,
                    end,
                    changes: style_changes(&spans[i].style, &spans[0].style),
                },
            );
        }
        i += 1;
    }
    r
}

/// The spans that are laid out: those given, or a plain one without text where there are none.
pub open spec fn are_laid_out(r: Seq<RichSpan>, spans: Seq<RichSpan>) -> bool {
    if spans.len() > 0 {
        r == spans
    } else {
        &&& r.len() == 1
        &&& r[0].text@.len() == 0
        &&& r[0].style.is_plain()
    }
}

/// The spans that are laid out: those given, or a plain one without text where there are none.
pub fn spans_to_lay_out(spans: &Vec<RichSpan>) -> (r: Vec<RichSpan>)
    ensures
        are_laid_out(r@, spans@),
{
    if spans.len() > 0 {
        return copy::copied_spans(spans);
    }
    let mut r: Vec<RichSpan> = Vec::new();
    r.push(RichSpan { text: String::new(), style: TextStyle::plain() });
    r
}

/// A span with the style of the base is told nothing.
pub proof fn law_equal_styles_change_nothing(s: TextStyle)
    requires
        s.font_size.finite(),
        s.letter_spacing.finite(),
        s.line_height matches Some(h) ==> !h.nan(),
    ensures
        style_diff(s, s) == Seq::<StyleChange>::empty(),
{
    lemma_not_resized(s.font_size);
    lemma_not_resized(s.letter_spacing);
    assert(style_diff(s, s) =~= Seq::<StyleChange>::empty());
}

proof fn lemma_not_resized(a: Scalar)
    requires
        a.finite(),
    ensures
        !spans::resized(a, a),
{
    reveal(Scalar::sum);
    arith::lemma_nearest_zero(1);
    assert(a.negated().abs_units() == a.abs_units());
    let d = a.difference(a);
    assert(d.magnitude() == 0);
    scalar::lemma_zero(d.absolute());
    scalar::lemma_zero(Scalar { bits: EPSILON_BITS });
}

/// What is taken from a span onto the glyphs of its text.
#[derive(Debug)]
pub struct RunProps {
    pub url: Option<String>,
    pub decoration: TextDecoration,
    pub background_color: Option<Color>,
    pub baseline_shift: Scalar,
}

/// The one decoration of a style; none where it has two.
pub open spec fn one_decoration(s: TextStyle) -> TextDecoration {
    if s.underline && s.strikethrough {
        TextDecoration::Plain
    } else if s.strikethrough {
        TextDecoration::LineThrough
    } else if s.underline {
        TextDecoration::Underline
    } else {
        TextDecoration::Plain
    }
}

/// The span overlaps the range and has a link or a background.
pub open spec fn marks(
    spans: Seq<RichSpan>,
    ranges: Seq<(usize, usize)>,
    i: int,
    start: usize,
    end: usize,
) -> bool {
    ranges[i].0 < end && ranges[i].1 > start && (spans[i].style.url is Some
        || spans[i].style.background_color is Some)
}

/// The span holds the offset.
pub open spec fn holds(ranges: Seq<(usize, usize)>, i: int, start: usize) -> bool {
    ranges[i].0 <= start < ranges[i].1
}

/// The first of `n` spans that marks the range.
pub open spec fn first_mark(
    spans: Seq<RichSpan>,
    ranges: Seq<(usize, usize)>,
    start: usize,
    end: usize,
    n: nat,
) -> Option<int>
    decreases n,
{
    if n == 0 {
        None
    } else {
        match first_mark(spans, ranges, start, end, (n - 1) as nat) {
            Some(i) => Some(i),
            None => if marks(spans, ranges, n - 1, start, end) {
                Some(n - 1)
            } else {
                None
            },
        }
    }
}

/// The first of `n` spans that holds the offset.
pub open spec fn first_holder(ranges: Seq<(usize, usize)>, start: usize, n: nat) -> Option<int>
    decreases n,
{
    if n == 0 {
        None
    } else {
        match first_holder(ranges, start, (n - 1) as nat) {
            Some(i) => Some(i),
            None => if holds(ranges, n - 1, start) {
                Some(n - 1)
            } else {
                None
            },
        }
    }
}

/// The span whose properties a range takes: one that marks it, else the one that holds its
/// start.
pub open spec fn source_span(
    spans: Seq<RichSpan>,
    ranges: Seq<(usize, usize)>,
    start: usize,
    end: usize,
) -> Option<int> {
    match first_mark(spans, ranges, start, end, spans.len()) {
        Some(i) => Some(i),
        None => first_holder(ranges, start, spans.len()),
    }
}

/// The properties are those of the source span; none without one.
pub open spec fn are_props(
    p: RunProps,
    spans: Seq<RichSpan>,
    ranges: Seq<(usize, usize)>,
    start: usize,
    end: usize,
) -> bool {
    match source_span(spans, ranges, start, end) {
        Some(i) => {
            let s = spans[i].style;
            &&& p.url == s.url
            &&& p.decoration == one_decoration(s)
            &&& p.background_color == s.background_color
            &&& p.baseline_shift == s.baseline_shift.single()
        },
        None => {
            &&& p.url is None
            &&& p.decoration == TextDecoration::Plain
            &&& p.background_color is None
            &&& p.baseline_shift.bits == 0
        },
    }
}

fn find_source(spans: &Vec<RichSpan>, ranges: &Vec<(usize, usize)>, start: usize, end: usize) -> (r:
    Option<usize>)
    requires
        ranges@.len() == spans@.len(),
    ensures
        r matches Some(i) ==> i < spans@.len() && source_span(spans@, ranges@, start, end) == Some(
            i as int,
        ),
        r is None ==> source_span(spans@, ranges@, start, end) is None,
{
    let mut i: usize = 0;
    while i < spans.len()
        invariant
            i <= spans@.len(),
            ranges@.len() == spans@.len(),
            first_mark(spans@, ranges@, start, end, i as nat) is None,
        decreases spans.len() - i,
    {
        let (s, e) = ranges[i];
        if s < end && e > start && (spans[i].style.url.is_some()
            || spans[i].style.background_color.is_some()) {
            proof {
                lemma_first_mark_stays(
                    spans@,
                    ranges@,
                    start,
                    end,
                    i as int,
                    (i + 1) as nat,
                    spans@.len(),
                );
            }
            return Some(i);
        }
        i += 1;
    }
    let mut i: usize = 0;
    while i < spans.len()
        invariant
            i <= spans@.len(),
            ranges@.len() == spans@.len(),
            first_mark(spans@, ranges@, start, end, spans@.len()) is None,
            first_holder(ranges@, start, i as nat) is None,
        decreases spans.len() - i,
    {
        let (s, e) = ranges[i];
        if s <= start && start < e {
            proof {
                lemma_first_holder_stays(ranges@, start, i as int, (i + 1) as nat, spans@.len());
            }
            return Some(i);
        }
        i += 1;
    }
    None
}

proof fn lemma_first_mark_stays(
    spans: Seq<RichSpan>,
    ranges: Seq<(usize, usize)>,
    start: usize,
    end: usize,
    i: int,
    m: nat,
    n: nat,
)
    requires
        m <= n,
        first_mark(spans, ranges, start, end, m) == Some(i),
    ensures
        first_mark(spans, ranges, start, end, n) == Some(i),
    decreases n,
{
    if m < n {
        lemma_first_mark_stays(spans, ranges, start, end, i, m, (n - 1) as nat);
    }
}

proof fn lemma_first_holder_stays(ranges: Seq<(usize, usize)>, start: usize, i: int, m: nat, n: nat)
    requires
        m <= n,
        first_holder(ranges, start, m) == Some(i),
    ensures
        first_holder(ranges, start, n) == Some(i),
    decreases n,
{
    if m < n {
        lemma_first_holder_stays(ranges, start, i, m, (n - 1) as nat);
    }
}

/// The span that holds an offset; the number of spans where none does.
pub fn span_at(ranges: &Vec<(usize, usize)>, start: usize) -> (r: usize)
    ensures
        r == span_key(ranges@, start),
{
    let mut i: usize = 0;
    while i < ranges.len()
        invariant
            i <= ranges@.len(),
            first_holder(ranges@, start, i as nat) is None,
        decreases ranges.len() - i,
    {
        let (s, e) = ranges[i];
        if s <= start && start < e {
            proof {
                lemma_first_holder_stays(ranges@, start, i as int, (i + 1) as nat, ranges@.len());
            }
            return i;
        }
        i += 1;
    }
    ranges.len()
}

/// The span that holds an offset; the number of spans where none does.
pub open spec fn span_key(ranges: Seq<(usize, usize)>, start: usize) -> int {
    match first_holder(ranges, start, ranges.len()) {
        Some(i) => i,
        None => ranges.len() as int,
    }
}

/// The properties that a byte range takes from the spans.
pub fn lookup_extended_props(
    spans: &Vec<RichSpan>,
    ranges: &Vec<(usize, usize)>,
    start: usize,
    end: usize,
) -> (p: RunProps)
    requires
        ranges@.len() == spans@.len(),
    ensures
        are_props(p, spans@, ranges@, start, end),
{
    match find_source(spans, ranges, start, end) {
        Some(i) => {
            let s = &spans[i].style;
            let decoration = if s.underline && s.strikethrough {
                TextDecoration::Plain
            } else if s.strikethrough {
                TextDecoration::LineThrough
            } else if s.underline {
                TextDecoration::Underline
            } else {
                TextDecoration::Plain
            };
            RunProps {
                url: clone_text(&s.url),
                decoration,
                background_color: s.background_color,
                baseline_shift: s.baseline_shift.to_single(),
            }
        },
        None => RunProps {
            url: None,
            decoration: TextDecoration::Plain,
            background_color: None,
            baseline_shift: Scalar { bits: 0 },
        },
    }
}

} // verus!

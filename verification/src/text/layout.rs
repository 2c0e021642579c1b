//! Laid-out text: glyphs, runs, lines and metrics.

use vstd::prelude::*;
use crate::geometry::{Color, Rect, Size, HALF_BITS, TWO_BITS};
use crate::scalar::Scalar;
use crate::text::style::{TextAlign, TextBaseline, TextDecoration};
use std::sync::Arc;

verus! {

/// The bit pattern of `0.8`: the hanging baseline as a part of the ascent.
pub const HANGING_RATIO_BITS: u64 = 0x3fe9_9999_9999_999a;

/// The bit pattern of `0.1`: the ideographic baseline as a part of the descent.
pub const IDEOGRAPHIC_RATIO_BITS: u64 = 0x3fb9_9999_9999_999a;

/// A positioned glyph.
#[derive(Debug, Clone, Copy, PartialEq, Eq, Structural)]
pub struct Glyph {
    pub id: u32,
    /// Offset from the origin of the line.
    pub x: Scalar,
    /// Offset from the origin of the line.
    pub y: Scalar,
    pub advance: Scalar,
    /// Byte offset of the glyph's cluster in the text of its run.
    pub cluster: u32,
}

/// Glyphs that share one font, size, color and decoration.
#[derive(Debug)]
pub struct TextRun {
    pub text: String,
    /// The font file.
    pub font_data: Arc<Vec<u8>>,
    /// The font within the file.
    pub font_index: u32,
    pub font_size: Scalar,
    pub font_weight_bold: bool,
    pub font_style_italic: bool,
    pub color: Color,
    /// Sum of the glyphs' advances.
    pub advance: Scalar,
    pub glyphs: Vec<Glyph>,
    pub is_rtl: bool,
    pub baseline_x: Scalar,
    pub baseline_y: Scalar,
    pub url: Option<String>,
    pub decoration: TextDecoration,
    pub baseline_shift: Scalar,
    pub background_color: Option<Color>,
}

/// Font metrics of a line.
#[derive(Debug, Clone, Copy, PartialEq, Eq, Structural)]
pub struct LineMetrics {
    pub ascent: Scalar,
    pub descent: Scalar,
    pub baseline: Scalar,
    pub line_height: Scalar,
}

/// A line of runs.
#[derive(Debug)]
pub struct TextLine {
    pub runs: Vec<TextRun>,
    pub bounds: Rect,
    pub metrics: LineMetrics,
    /// The box around the ink of the glyphs.
    pub ink_bounds: Rect,
}

/// Laid-out text.
#[derive(Debug)]
pub struct TextLayout {
    pub lines: Vec<TextLine>,
    pub width: Scalar,
    pub height: Scalar,
    /// The box around the ink of all lines.
    pub ink_bounds: Rect,
}

/// Measurements of a text block, after the Canvas `TextMetrics`.
#[derive(Debug, Clone, Copy, PartialEq, Eq, Structural)]
pub struct TextMetrics {
    pub width: Scalar,
    pub height: Scalar,
    pub actual_bounding_box_left: Scalar,
    pub actual_bounding_box_right: Scalar,
    pub font_bounding_box_ascent: Scalar,
    pub font_bounding_box_descent: Scalar,
    pub actual_bounding_box_ascent: Scalar,
    pub actual_bounding_box_descent: Scalar,
    pub em_height_ascent: Scalar,
    pub em_height_descent: Scalar,
    pub hanging_baseline: Scalar,
    pub alphabetic_baseline: Scalar,
    pub ideographic_baseline: Scalar,
    pub line_height: Scalar,
}

/// A measurement together with the layout it was taken from.
#[derive(Debug)]
pub struct TextMeasure {
    pub size: Size,
    pub metrics: TextMetrics,
    pub layout: Arc<TextLayout>,
}

impl TextLayout {
    /// The metrics of the first line; all zero where there is none.
    pub open spec fn first_line(self) -> LineMetrics {
        if self.lines@.len() > 0 {
            self.lines@[0].metrics
        } else {
            LineMetrics {
                ascent: Scalar { bits: 0 },
                descent: Scalar { bits: 0 },
                baseline: Scalar { bits: 0 },
                line_height: Scalar { bits: 0 },
            }
        }
    }

    /// The metrics of the block: its size, and the first line's metrics for the rest.
    pub open spec fn metrics(self) -> TextMetrics {
        let m = self.first_line();
        TextMetrics {
            width: self.width,
            height: self.height,
            actual_bounding_box_left: Scalar { bits: 0 },
            actual_bounding_box_right: self.width,
            font_bounding_box_ascent: m.ascent,
            font_bounding_box_descent: m.descent,
            actual_bounding_box_ascent: m.ascent,
            actual_bounding_box_descent: m.descent,
            em_height_ascent: m.ascent,
            em_height_descent: m.descent,
            hanging_baseline: m.ascent.product(Scalar { bits: HANGING_RATIO_BITS }),
            alphabetic_baseline: m.baseline,
            ideographic_baseline: m.baseline.sum(
                m.descent.product(Scalar { bits: IDEOGRAPHIC_RATIO_BITS }),
            ),
            line_height: m.line_height,
        }
    }

    /// The height of the ink, at least zero.
    pub open spec fn ink_height(self) -> Scalar {
        let b = self.ink_bounds.ordered();
        b.y1.difference(b.y0).greatest(Scalar { bits: 0 })
    }

    /// The distance of the block's left edge from the anchor.
    pub open spec fn x_offset(self, align: TextAlign) -> Scalar {
        match align {
            TextAlign::Left | TextAlign::Justify => Scalar { bits: 0 },
            TextAlign::Center => self.width.negated().quotient(Scalar { bits: TWO_BITS }),
            TextAlign::Right => self.width.negated(),
        }
    }

    /// The distance of the block's top edge from the anchor.
    pub open spec fn y_offset(self, baseline: TextBaseline) -> Scalar {
        let zero = Scalar { bits: 0 };
        let two = Scalar { bits: TWO_BITS };
        let top = self.ink_bounds.ordered().y0;
        let ink = self.ink_height();
        match baseline {
            TextBaseline::Top => zero,
            TextBaseline::Middle => if zero.less(ink) {
                top.sum(ink.quotient(two)).negated()
            } else {
                self.height.negated().quotient(two)
            },
            TextBaseline::Bottom => if zero.less(ink) {
                top.sum(ink).negated()
            } else {
                self.height.negated()
            },
            TextBaseline::Alphabetic => self.metrics().alphabetic_baseline.negated(),
            TextBaseline::Hanging => if self.lines@.len() == 0 {
                self.height.product(Scalar { bits: HANGING_RATIO_BITS }).negated()
            } else {
                self.metrics().hanging_baseline.negated()
            },
            TextBaseline::Ideographic => if self.lines@.len() == 0 {
                self.height.product(Scalar { bits: HANGING_RATIO_BITS }).negated()
            } else {
                self.metrics().ideographic_baseline.negated()
            },
        }
    }

    /// The box around the ink of the glyphs.
    pub fn ink_bounds(&self) -> (r: Rect)
        ensures
            r == self.ink_bounds,
    {
        self.ink_bounds
    }
}

/// The metrics of a laid-out block.
pub fn layout_metrics(layout: &TextLayout) -> (m: TextMetrics)
    ensures
        m == layout.metrics(),
{
    let zero = Scalar { bits: 0 };
    let first = if layout.lines.len() > 0 {
        layout.lines[0].metrics
    } else {
        LineMetrics { ascent: zero, descent: zero, baseline: zero, line_height: zero }
    };
    TextMetrics {
        width: layout.width,
        height: layout.height,
        actual_bounding_box_left: zero,
        actual_bounding_box_right: layout.width,
        font_bounding_box_ascent: first.ascent,
        font_bounding_box_descent: first.descent,
        actual_bounding_box_ascent: first.ascent,
        actual_bounding_box_descent: first.descent,
        em_height_ascent: first.ascent,
        em_height_descent: first.descent,
        hanging_baseline: first.ascent.mul(Scalar { bits: HANGING_RATIO_BITS }),
        alphabetic_baseline: first.baseline,
        ideographic_baseline: first.baseline.add(
            first.descent.mul(Scalar { bits: IDEOGRAPHIC_RATIO_BITS }),
        ),
        line_height: first.line_height,
    }
}

/// The offset from the anchor to the top-left corner of the block.
///
/// `Middle` and `Bottom` go by the ink where there is any, the other baselines by the metrics of
/// the first line.
pub fn compute_text_offset(
    layout: &TextLayout,
    align: TextAlign,
    baseline: TextBaseline,
) -> (r: (Scalar, Scalar))
    ensures
        r.0 == layout.x_offset(align),
        r.1 == layout.y_offset(baseline),
{
    let zero = Scalar { bits: 0 };
    let two = Scalar { bits: TWO_BITS };
    let x = match align {
        TextAlign::Left | TextAlign::Justify => zero,
        TextAlign::Center => layout.width.neg().div(two),
        TextAlign::Right => layout.width.neg(),
    };
    let b = layout.ink_bounds;
    let top = b.min_y();
    let ink = b.max_y().sub(top).max(zero);
    let y = match baseline {
        TextBaseline::Top => zero,
        TextBaseline::Middle => if zero.lt(ink) {
            top.add(ink.div(two)).neg()
        } else {
            layout.height.neg().div(two)
        },
        TextBaseline::Bottom => if zero.lt(ink) {
            top.add(ink).neg()
        } else {
            layout.height.neg()
        },
        TextBaseline::Alphabetic => layout_metrics(layout).alphabetic_baseline.neg(),
        TextBaseline::Hanging => if layout.lines.len() == 0 {
            layout.height.mul(Scalar { bits: HANGING_RATIO_BITS }).neg()
        } else {
            layout_metrics(layout).hanging_baseline.neg()
        },
        TextBaseline::Ideographic => if layout.lines.len() == 0 {
            layout.height.mul(Scalar { bits: HANGING_RATIO_BITS }).neg()
        } else {
            layout_metrics(layout).ideographic_baseline.neg()
        },
    };
    (x, y)
}

impl TextBaseline {
    /// The distance of the anchor from the top of the block.
    pub open spec fn anchor(self, m: TextMetrics) -> Scalar {
        match self {
            TextBaseline::Top => Scalar { bits: 0 },
            TextBaseline::Hanging => m.hanging_baseline,
            TextBaseline::Alphabetic => m.alphabetic_baseline,
            TextBaseline::Middle => m.alphabetic_baseline.difference(
                m.em_height_ascent.difference(m.em_height_descent).product(
                    Scalar { bits: HALF_BITS },
                ),
            ),
            TextBaseline::Ideographic => m.ideographic_baseline,
            TextBaseline::Bottom => m.height,
        }
    }

    /// The distance of the anchor from the top of the block, positive downward.
    pub fn anchor_offset(&self, m: &TextMetrics) -> (r: Scalar)
        ensures
            r == self.anchor(*m),
    {
        match self {
            TextBaseline::Top => Scalar { bits: 0 },
            TextBaseline::Hanging => m.hanging_baseline,
            TextBaseline::Alphabetic => m.alphabetic_baseline,
            TextBaseline::Middle => m.alphabetic_baseline.sub(
                m.em_height_ascent.sub(m.em_height_descent).mul(Scalar { bits: HALF_BITS }),
            ),
            TextBaseline::Ideographic => m.ideographic_baseline,
            TextBaseline::Bottom => m.height,
        }
    }
}

} // verus!

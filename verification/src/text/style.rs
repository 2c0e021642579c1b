//! Text styles, modeled after the Canvas `font`, `textAlign` and `textBaseline` properties.

use vstd::prelude::*;
use crate::chars;
use crate::geometry::Color;
use crate::scalar::Scalar;
use crate::text::family;
use crate::text::weight::FontWeight;

verus! {

/// Horizontal alignment: where the anchor lies in the text block.
#[derive(Debug, Clone, Copy, PartialEq, Eq, Structural)]
pub enum TextAlign {
    /// Anchor at the left edge (default).
    Left,
    /// Anchor at the horizontal center.
    Center,
    /// Anchor at the right edge.
    Right,
    /// Justified; the anchor is at the left edge.
    Justify,
}

impl Default for TextAlign {
    fn default() -> (r: TextAlign)
        ensures
            r == TextAlign::Left,
    {
        TextAlign::Left
    }
}

/// Vertical alignment: where the anchor lies in the text block.
#[derive(Debug, Clone, Copy, PartialEq, Eq, Structural)]
pub enum TextBaseline {
    /// Top of the first line.
    Top,
    /// Hanging baseline.
    Hanging,
    /// Alphabetic baseline (default).
    Alphabetic,
    /// Center of the em box.
    Middle,
    /// Ideographic baseline.
    Ideographic,
    /// Bottom of the last line.
    Bottom,
}

impl Default for TextBaseline {
    fn default() -> (r: TextBaseline)
        ensures
            r == TextBaseline::Alphabetic,
    {
        TextBaseline::Alphabetic
    }
}

/// Font style.
#[derive(Debug, Clone, Copy, PartialEq, Eq, Structural)]
pub enum FontStyle {
    Normal,
    Italic,
    Oblique,
}

impl Default for FontStyle {
    fn default() -> (r: FontStyle)
        ensures
            r == FontStyle::Normal,
    {
        FontStyle::Normal
    }
}

/// A keyword as it is compared: without surrounding white space, in ASCII lower case, and
/// without `-` and `_`.
pub open spec fn keyword(s: Seq<char>) -> Seq<char> {
    chars::lowered(chars::trimmed(s)).filter(|c: char| c != '-' && c != '_')
}

/// The characters of `s` as they are compared with keywords.
pub fn to_keyword(s: &str) -> (r: Vec<char>)
    ensures
        r@ == keyword(s@),
{
    let v: Vec<char> = chars::to_lower(&chars::trim(&chars::to_chars(s)));
    let ghost keep = |c: char| c != '-' && c != '_';
    let mut r: Vec<char> = Vec::new();
    let mut i: usize = 0;
    proof {
        reveal(Seq::filter);
        assert(v@.take(0).filter(keep) =~= Seq::<char>::empty());
    }
    while i < v.len()
        invariant
            i <= v.len(),
            keep == (|c: char| c != '-' && c != '_'),
            r@ == v@.take(i as int).filter(keep),
        decreases v.len() - i,
    {
        let c = v[i];
        proof {
            reveal(Seq::filter);
            assert(v@.take(i + 1).drop_last() =~= v@.take(i as int));
        }
        if c != '-' && c != '_' {
            r.push(c);
        }
        i += 1;
    }
    assert(v@.take(v@.len() as int) =~= v@);
    r
}

impl FontStyle {
    /// The CSS keyword.
    pub open spec fn name(self) -> Seq<char> {
        match self {
            FontStyle::Normal => "normal"@,
            FontStyle::Italic => "italic"@,
            FontStyle::Oblique => "oblique"@,
        }
    }

    /// What a keyword stands for.
    pub open spec fn of_keyword(k: Seq<char>) -> Option<FontStyle> {
        if k == "normal"@ || k == "n"@ {
            Some(FontStyle::Normal)
        } else if k == "italic"@ || k == "i"@ {
            Some(FontStyle::Italic)
        } else if k == "oblique"@ || k == "o"@ {
            Some(FontStyle::Oblique)
        } else {
            None
        }
    }

    /// The CSS `font-style` keyword.
    pub fn as_str(self) -> (s: &'static str)
        ensures
            s@ == self.name(),
    {
        match self {
            FontStyle::Normal => "normal",
            FontStyle::Italic => "italic",
            FontStyle::Oblique => "oblique",
        }
    }

    /// Reads a keyword, in any case, with `-` and `_` left out; `None` where it is not known.
    pub fn parse(s: &str) -> (r: Option<FontStyle>)
        ensures
            r == FontStyle::of_keyword(keyword(s@)),
    {
        let t: Vec<char> = to_keyword(s);
        if chars::spells(&t, "normal") || chars::spells(&t, "n") {
            Some(FontStyle::Normal)
        } else if chars::spells(&t, "italic") || chars::spells(&t, "i") {
            Some(FontStyle::Italic)
        } else if chars::spells(&t, "oblique") || chars::spells(&t, "o") {
            Some(FontStyle::Oblique)
        } else {
            None
        }
    }
}

/// Font width as a ratio of the normal width.
#[derive(Debug, Clone, Copy, PartialEq, Eq, Structural)]
pub enum FontWidth {
    UltraCondensed,
    ExtraCondensed,
    Condensed,
    SemiCondensed,
    Normal,
    SemiExpanded,
    Expanded,
    ExtraExpanded,
    UltraExpanded,
}

impl Default for FontWidth {
    fn default() -> (r: FontWidth)
        ensures
            r == FontWidth::Normal,
    {
        FontWidth::Normal
    }
}

impl FontWidth {
    /// The bit pattern of the ratio: 0.5, 0.625, 0.75, 0.875, 1, 1.125, 1.25, 1.5 and 2.
    pub open spec fn ratio_bits(self) -> u64 {
        match self {
            FontWidth::UltraCondensed => 0x3fe0_0000_0000_0000,
            FontWidth::ExtraCondensed => 0x3fe4_0000_0000_0000,
            FontWidth::Condensed => 0x3fe8_0000_0000_0000,
            FontWidth::SemiCondensed => 0x3fec_0000_0000_0000,
            FontWidth::Normal => 0x3ff0_0000_0000_0000,
            FontWidth::SemiExpanded => 0x3ff2_0000_0000_0000,
            FontWidth::Expanded => 0x3ff4_0000_0000_0000,
            FontWidth::ExtraExpanded => 0x3ff8_0000_0000_0000,
            FontWidth::UltraExpanded => 0x4000_0000_0000_0000,
        }
    }

    /// The keyword nearest to a ratio.
    pub open spec fn nearest(r: Scalar) -> FontWidth {
        if r.less(Scalar { bits: 0x3fe2_0000_0000_0000 }) {
            FontWidth::UltraCondensed
        } else if r.less(Scalar { bits: 0x3fe6_0000_0000_0000 }) {
            FontWidth::ExtraCondensed
        } else if r.less(Scalar { bits: 0x3fea_0000_0000_0000 }) {
            FontWidth::Condensed
        } else if r.less(Scalar { bits: 0x3fee_0000_0000_0000 }) {
            FontWidth::SemiCondensed
        } else if r.less(Scalar { bits: 0x3ff1_0000_0000_0000 }) {
            FontWidth::Normal
        } else if r.less(Scalar { bits: 0x3ff3_0000_0000_0000 }) {
            FontWidth::SemiExpanded
        } else if r.less(Scalar { bits: 0x3ff6_0000_0000_0000 }) {
            FontWidth::Expanded
        } else if r.less(Scalar { bits: 0x3ffc_0000_0000_0000 }) {
            FontWidth::ExtraExpanded
        } else {
            FontWidth::UltraExpanded
        }
    }

    /// The width relative to the normal face.
    pub fn ratio(self) -> (r: Scalar)
        ensures
            r.bits == self.ratio_bits(),
    {
        match self {
            FontWidth::UltraCondensed => Scalar { bits: 0x3fe0_0000_0000_0000 },
            FontWidth::ExtraCondensed => Scalar { bits: 0x3fe4_0000_0000_0000 },
            FontWidth::Condensed => Scalar { bits: 0x3fe8_0000_0000_0000 },
            FontWidth::SemiCondensed => Scalar { bits: 0x3fec_0000_0000_0000 },
            FontWidth::Normal => Scalar { bits: 0x3ff0_0000_0000_0000 },
            FontWidth::SemiExpanded => Scalar { bits: 0x3ff2_0000_0000_0000 },
            FontWidth::Expanded => Scalar { bits: 0x3ff4_0000_0000_0000 },
            FontWidth::ExtraExpanded => Scalar { bits: 0x3ff8_0000_0000_0000 },
            FontWidth::UltraExpanded => Scalar { bits: 0x4000_0000_0000_0000 },
        }
    }

    /// The keyword nearest to a ratio; ratios between two keywords go to the upper one from the
    /// middle on.
    pub fn from_ratio(r: Scalar) -> (w: FontWidth)
        ensures
            w == FontWidth::nearest(r),
    {
        if r.lt(Scalar { bits: 0x3fe2_0000_0000_0000 }) {
            FontWidth::UltraCondensed
        } else if r.lt(Scalar { bits: 0x3fe6_0000_0000_0000 }) {
            FontWidth::ExtraCondensed
        } else if r.lt(Scalar { bits: 0x3fea_0000_0000_0000 }) {
            FontWidth::Condensed
        } else if r.lt(Scalar { bits: 0x3fee_0000_0000_0000 }) {
            FontWidth::SemiCondensed
        } else if r.lt(Scalar { bits: 0x3ff1_0000_0000_0000 }) {
            FontWidth::Normal
        } else if r.lt(Scalar { bits: 0x3ff3_0000_0000_0000 }) {
            FontWidth::SemiExpanded
        } else if r.lt(Scalar { bits: 0x3ff6_0000_0000_0000 }) {
            FontWidth::Expanded
        } else if r.lt(Scalar { bits: 0x3ffc_0000_0000_0000 }) {
            FontWidth::ExtraExpanded
        } else {
            FontWidth::UltraExpanded
        }
    }
}

/// The line through or under a run of text.
#[derive(Debug, Clone, Copy, PartialEq, Eq, Structural)]
pub enum TextDecoration {
    /// No decoration.
    Plain,
    Underline,
    LineThrough,
}

impl Default for TextDecoration {
    fn default() -> (r: TextDecoration)
        ensures
            r == TextDecoration::Plain,
    {
        TextDecoration::Plain
    }
}

/// Text style: color, font, spacing, decoration and placement.
#[derive(Debug, PartialEq)]
pub struct TextStyle {
    pub color: Color,
    /// Comma-separated family names.
    pub font_family: String,
    /// Size in px.
    pub font_size: Scalar,
    pub font_weight: FontWeight,
    pub font_style: FontStyle,
    pub font_width: FontWidth,
    /// Line height in px; `None` takes the font's own.
    pub line_height: Option<Scalar>,
    /// Letter spacing in px.
    pub letter_spacing: Scalar,
    pub underline: bool,
    /// `None` takes the text color.
    pub underline_color: Option<Color>,
    pub strikethrough: bool,
    /// `None` takes the text color.
    pub strikethrough_color: Option<Color>,
    /// Baseline shift in px, positive upward.
    pub baseline_shift: Scalar,
    pub background_color: Option<Color>,
    /// Hyperlink target.
    pub url: Option<String>,
    /// Rotation about the anchor, in radians.
    pub rotation: Scalar,
    /// Width at which lines wrap, in px.
    pub max_width: Option<Scalar>,
    pub align: TextAlign,
    pub baseline: TextBaseline,
}

/// A copy of an optional string.
pub fn clone_text(s: &Option<String>) -> (r: Option<String>)
    ensures
        r == *s,
{
    match s {
        Some(t) => Some(t.clone()),
        None => None,
    }
}

impl Clone for TextStyle {
    fn clone(&self) -> (r: TextStyle)
        ensures
            r == *self,
    {
        TextStyle {
            color: self.color,
            font_family: self.font_family.clone(),
            font_size: self.font_size,
            font_weight: self.font_weight,
            font_style: self.font_style,
            font_width: self.font_width,
            line_height: self.line_height,
            letter_spacing: self.letter_spacing,
            underline: self.underline,
            underline_color: self.underline_color,
            strikethrough: self.strikethrough,
            strikethrough_color: self.strikethrough_color,
            baseline_shift: self.baseline_shift,
            background_color: self.background_color,
            url: clone_text(&self.url),
            rotation: self.rotation,
            max_width: self.max_width,
            align: self.align,
            baseline: self.baseline,
        }
    }
}

/// The bit pattern of `12.0`.
pub const FONT_SIZE_BITS: u64 = 0x4028_0000_0000_0000;

impl TextStyle {
    /// Black text of size 12 in the default family, and everything else plain.
    pub open spec fn is_plain(self) -> bool {
        &&& self == (TextStyle {
            color: Color { r: 0, g: 0, b: 0, a: 255 },
            font_family: self.font_family,
            font_size: Scalar { bits: FONT_SIZE_BITS },
            font_weight: FontWeight::Normal,
            font_style: FontStyle::Normal,
            font_width: FontWidth::Normal,
            line_height: None,
            letter_spacing: Scalar { bits: 0 },
            underline: false,
            underline_color: None,
            strikethrough: false,
            strikethrough_color: None,
            baseline_shift: Scalar { bits: 0 },
            background_color: None,
            url: None,
            rotation: Scalar { bits: 0 },
            max_width: None,
            align: TextAlign::Left,
            baseline: TextBaseline::Alphabetic,
        })
        &&& self.font_family@ == "sans-serif"@
    }

    /// Black text of size 12 in the default family, and everything else plain.
    pub fn plain() -> (r: TextStyle)
        ensures
            r.is_plain(),
    {
        let mut family = String::new();
        family.append("sans-serif");
        assert(family@ =~= "sans-serif"@);
        TextStyle::new(Color::black(), Scalar { bits: FONT_SIZE_BITS }, family)
    }

    /// A style with the given color, size and family, and everything else plain: weight 400,
    /// normal style and width, no spacing, decoration, shift, rotation or wrapping, anchored at
    /// the left of the alphabetic baseline.
    pub fn new(color: Color, font_size: Scalar, font_family: String) -> (r: TextStyle)
        ensures
            r == (TextStyle {
                color,
                font_family,
                font_size,
                font_weight: FontWeight::Normal,
                font_style: FontStyle::Normal,
                font_width: FontWidth::Normal,
                line_height: None,
                letter_spacing: Scalar { bits: 0 },
                underline: false,
                underline_color: None,
                strikethrough: false,
                strikethrough_color: None,
                baseline_shift: Scalar { bits: 0 },
                background_color: None,
                url: None,
                rotation: Scalar { bits: 0 },
                max_width: None,
                align: TextAlign::Left,
                baseline: TextBaseline::Alphabetic,
            }),
    {
        TextStyle {
            color,
            font_family,
            font_size,
            font_weight: FontWeight::Normal,
            font_style: FontStyle::Normal,
            font_width: FontWidth::Normal,
            line_height: None,
            letter_spacing: Scalar { bits: 0 },
            underline: false,
            underline_color: None,
            strikethrough: false,
            strikethrough_color: None,
            baseline_shift: Scalar { bits: 0 },
            background_color: None,
            url: None,
            rotation: Scalar { bits: 0 },
            max_width: None,
            align: TextAlign::Left,
            baseline: TextBaseline::Alphabetic,
        }
    }

    /// Sets the horizontal anchor.
    pub fn with_align(self, align: TextAlign) -> (r: TextStyle)
        ensures
            r == (TextStyle { align, ..self }),
    {
        TextStyle { align, ..self }
    }

    /// Sets the vertical anchor.
    pub fn with_baseline(self, baseline: TextBaseline) -> (r: TextStyle)
        ensures
            r == (TextStyle { baseline, ..self }),
    {
        TextStyle { baseline, ..self }
    }

    /// Sets the weight.
    pub fn with_weight(self, weight: FontWeight) -> (r: TextStyle)
        ensures
            r == (TextStyle { font_weight: weight, ..self }),
    {
        TextStyle { font_weight: weight, ..self }
    }

    /// Sets the font style.
    pub fn with_style(self, style: FontStyle) -> (r: TextStyle)
        ensures
            r == (TextStyle { font_style: style, ..self }),
    {
        TextStyle { font_style: style, ..self }
    }

    /// Sets the font width.
    pub fn with_font_width(self, width: FontWidth) -> (r: TextStyle)
        ensures
            r == (TextStyle { font_width: width, ..self }),
    {
        TextStyle { font_width: width, ..self }
    }

    /// Sets the letter spacing in px.
    pub fn with_letter_spacing(self, spacing: Scalar) -> (r: TextStyle)
        ensures
            r == (TextStyle { letter_spacing: spacing, ..self }),
    {
        TextStyle { letter_spacing: spacing, ..self }
    }

    /// Sets whether there is an underline.
    pub fn with_underline(self, underline: bool) -> (r: TextStyle)
        ensures
            r == (TextStyle { underline, ..self }),
    {
        TextStyle { underline, ..self }
    }

    /// Sets the underline color.
    pub fn with_underline_color(self, color: Option<Color>) -> (r: TextStyle)
        ensures
            r == (TextStyle { underline_color: color, ..self }),
    {
        TextStyle { underline_color: color, ..self }
    }

    /// Sets whether there is a strikethrough.
    pub fn with_strikethrough(self, strikethrough: bool) -> (r: TextStyle)
        ensures
            r == (TextStyle { strikethrough, ..self }),
    {
        TextStyle { strikethrough, ..self }
    }

    /// Sets the strikethrough color.
    pub fn with_strikethrough_color(self, color: Option<Color>) -> (r: TextStyle)
        ensures
            r == (TextStyle { strikethrough_color: color, ..self }),
    {
        TextStyle { strikethrough_color: color, ..self }
    }

    /// Sets the baseline shift in px.
    pub fn with_baseline_shift(self, shift: Scalar) -> (r: TextStyle)
        ensures
            r == (TextStyle { baseline_shift: shift, ..self }),
    {
        TextStyle { baseline_shift: shift, ..self }
    }

    /// Sets the background color.
    pub fn with_background_color(self, color: Option<Color>) -> (r: TextStyle)
        ensures
            r == (TextStyle { background_color: color, ..self }),
    {
        TextStyle { background_color: color, ..self }
    }

    /// Sets the hyperlink.
    pub fn with_url(self, url: Option<String>) -> (r: TextStyle)
        ensures
            r == (TextStyle { url, ..self }),
    {
        TextStyle { url, ..self }
    }

    /// Sets the line height in px.
    pub fn with_line_height(self, height: Scalar) -> (r: TextStyle)
        ensures
            r == (TextStyle { line_height: Some(height), ..self }),
    {
        TextStyle { line_height: Some(height), ..self }
    }

    /// Sets the rotation in radians.
    pub fn with_rotation(self, rotation: Scalar) -> (r: TextStyle)
        ensures
            r == (TextStyle { rotation, ..self }),
    {
        TextStyle { rotation, ..self }
    }

    /// Sets the wrapping width in px.
    pub fn with_max_width(self, width: Scalar) -> (r: TextStyle)
        ensures
            r == (TextStyle { max_width: Some(width), ..self }),
    {
        TextStyle { max_width: Some(width), ..self }
    }

    /// The family list in CSS syntax, without XML escaping.
    pub fn font_family_css(&self) -> (out: String)
        ensures
            out@ == family::family_css(self.font_family@),
    {
        family::normalize_font_family_list(self.font_family.as_str())
    }
}

/// A piece of text with its own style.
#[derive(Debug, PartialEq)]
pub struct RichSpan {
    pub text: String,
    pub style: TextStyle,
}

impl Clone for RichSpan {
    fn clone(&self) -> (r: RichSpan)
        ensures
            r == *self,
    {
        RichSpan { text: self.text.clone(), style: self.style.clone() }
    }
}

impl RichSpan {
    pub fn new(text: String, style: TextStyle) -> (r: RichSpan)
        ensures
            r == (RichSpan { text, style }),
    {
        RichSpan { text, style }
    }
}

} // verus!

//! Font weights: keywords and numbers.

use vstd::prelude::*;
use crate::chars;
use crate::digits;
use crate::scalar::Scalar;
use crate::text::style;

verus! {

/// Font weight, from 100 to 900 in steps of 100.
#[derive(Debug, Clone, Copy, PartialEq, Eq, Structural)]
pub enum FontWeight {
    Thin,
    ExtraLight,
    Light,
    Normal,
    Medium,
    SemiBold,
    Bold,
    ExtraBold,
    Black,
}

impl Default for FontWeight {
    fn default() -> (r: FontWeight)
        ensures
            r == FontWeight::Normal,
    {
        FontWeight::Normal
    }
}

/// The text was neither a weight keyword nor a number from 100 to 900.
#[derive(Debug, Clone, Copy, PartialEq, Eq, Structural)]
pub struct FontWeightParseError;

impl FontWeightParseError {
    /// The message for a reader.
    pub fn message(&self) -> (s: &'static str)
        ensures
            s@ == "invalid font weight"@,
    {
        "invalid font weight"
    }
}

/// The value of a string of decimal digits.
pub open spec fn digits_nat(s: Seq<char>) -> nat
    decreases s.len(),
{
    if s.len() == 0 {
        0
    } else {
        (10 * digits_nat(s.drop_last()) + (s.last() as int - 48)) as nat
    }
}

/// Every character is a decimal digit.
pub open spec fn all_digits(s: Seq<char>) -> bool {
    forall|i: int| 0 <= i < s.len() ==> chars::ascii_digit(#[trigger] s[i])
}

/// The end of the run of digits that starts at `i`.
pub open spec fn run_end(s: Seq<char>, i: int) -> int
    decreases s.len() - i,
{
    if 0 <= i < s.len() && chars::ascii_digit(s[i]) {
        run_end(s, i + 1)
    } else {
        i
    }
}

/// A decimal numeral: its digits, how many of them follow the point, and its exponent.
pub struct Numeral {
    pub mantissa: Seq<char>,
    pub fraction: nat,
    pub exponent: nat,
}

/// Reads a numeral without a minus sign before it: digits with an optional point among them, at
/// least one digit, and an optional exponent behind `e`. A plus sign may stand before either, and
/// a minus sign before the exponent, which then counts as further digits behind the point.
pub open spec fn numeral(s: Seq<char>) -> Option<Numeral> {
    let start = if s.len() > 0 && s[0] == '+' {
        1int
    } else {
        0int
    };
    let whole = run_end(s, start);
    let point = whole < s.len() && s[whole] == '.';
    let end = if point {
        run_end(s, whole + 1)
    } else {
        whole
    };
    let mantissa = if point {
        s.subrange(start, whole) + s.subrange(whole + 1, end)
    } else {
        s.subrange(start, whole)
    };
    let fraction = if point {
        (end - whole - 1) as nat
    } else {
        0
    };
    if mantissa.len() == 0 {
        None
    } else if end == s.len() {
        Some(Numeral { mantissa, fraction, exponent: 0 })
    } else if s[end] == 'e' {
        let down = end + 1 < s.len() && s[end + 1] == '-';
        let exp = if down || (end + 1 < s.len() && s[end + 1] == '+') {
            end + 2
        } else {
            end + 1
        };
        if exp < s.len() && run_end(s, exp) == s.len() {
            let e = digits_nat(s.subrange(exp, s.len() as int));
            Some(
                if down {
                    Numeral { mantissa, fraction: fraction + e, exponent: 0 }
                } else {
                    Numeral { mantissa, fraction, exponent: e }
                },
            )
        } else {
            None
        }
    } else {
        None
    }
}

// A numeral is read as a binary32 number, that is rounded to the nearest one, ties to even. It
// becomes at least `t` where it is at least `t` less half the spacing of binary32 below `t`. The
// bounds are multiples of `10^-18`.
/// `100 - 2^-18`.
pub const REACHES_100: u128 = 100_000_000_000_000_000_000 - 3_814_697_265_625;

/// `150 - 2^-17`.
pub const REACHES_150: u128 = 150_000_000_000_000_000_000 - 7_629_394_531_250;

/// `250 - 2^-17`.
pub const REACHES_250: u128 = 250_000_000_000_000_000_000 - 7_629_394_531_250;

/// `350 - 2^-16`.
pub const REACHES_350: u128 = 350_000_000_000_000_000_000 - 15_258_789_062_500;

/// `450 - 2^-16`.
pub const REACHES_450: u128 = 450_000_000_000_000_000_000 - 15_258_789_062_500;

/// `550 - 2^-15`.
pub const REACHES_550: u128 = 550_000_000_000_000_000_000 - 30_517_578_125_000;

/// `650 - 2^-15`.
pub const REACHES_650: u128 = 650_000_000_000_000_000_000 - 30_517_578_125_000;

/// `750 - 2^-15`.
pub const REACHES_750: u128 = 750_000_000_000_000_000_000 - 30_517_578_125_000;

/// `850 - 2^-15`.
pub const REACHES_850: u128 = 850_000_000_000_000_000_000 - 30_517_578_125_000;

/// `900 + 2^-15`, the largest number that becomes 900.
pub const KEEPS_900: u128 = 900_000_000_000_000_000_000 + 30_517_578_125_000;

/// `10^18`.
pub const UNIT: u128 = 1_000_000_000_000_000_000;

/// The weight nearest to `n / d`, halves upward, where that is from 100 to 900.
pub open spec fn weight_of_ratio(n: nat, d: nat) -> Option<FontWeight> {
    let v = n * (UNIT as nat);
    if v < REACHES_100 * d || v > KEEPS_900 * d {
        None
    } else if v < REACHES_150 * d {
        Some(FontWeight::Thin)
    } else if v < REACHES_250 * d {
        Some(FontWeight::ExtraLight)
    } else if v < REACHES_350 * d {
        Some(FontWeight::Light)
    } else if v < REACHES_450 * d {
        Some(FontWeight::Normal)
    } else if v < REACHES_550 * d {
        Some(FontWeight::Medium)
    } else if v < REACHES_650 * d {
        Some(FontWeight::SemiBold)
    } else if v < REACHES_750 * d {
        Some(FontWeight::Bold)
    } else if v < REACHES_850 * d {
        Some(FontWeight::ExtraBold)
    } else {
        Some(FontWeight::Black)
    }
}

/// The weight that a numeral stands for.
pub open spec fn weight_of_numeral(x: Numeral) -> Option<FontWeight> {
    weight_of_ratio(
        digits_nat(x.mantissa) * digits::ten_pow(x.exponent),
        digits::ten_pow(x.fraction),
    )
}

impl FontWeight {
    /// The weight as a number.
    pub open spec fn number(self) -> nat {
        match self {
            FontWeight::Thin => 100,
            FontWeight::ExtraLight => 200,
            FontWeight::Light => 300,
            FontWeight::Normal => 400,
            FontWeight::Medium => 500,
            FontWeight::SemiBold => 600,
            FontWeight::Bold => 700,
            FontWeight::ExtraBold => 800,
            FontWeight::Black => 900,
        }
    }

    /// What a keyword stands for.
    pub open spec fn of_keyword(k: Seq<char>) -> Option<FontWeight> {
        if k == "thin"@ {
            Some(FontWeight::Thin)
        } else if k == "extralight"@ {
            Some(FontWeight::ExtraLight)
        } else if k == "light"@ {
            Some(FontWeight::Light)
        } else if k == "normal"@ {
            Some(FontWeight::Normal)
        } else if k == "medium"@ {
            Some(FontWeight::Medium)
        } else if k == "semibold"@ {
            Some(FontWeight::SemiBold)
        } else if k == "bold"@ {
            Some(FontWeight::Bold)
        } else if k == "extrabold"@ {
            Some(FontWeight::ExtraBold)
        } else if k == "black"@ {
            Some(FontWeight::Black)
        } else {
            None
        }
    }

    /// What a text stands for: a keyword, or else a number. White space around it and case do not
    /// count; `-` and `_` are left out of keywords alone.
    pub open spec fn of_text(s: Seq<char>) -> Option<FontWeight> {
        match FontWeight::of_keyword(style::keyword(s)) {
            Some(w) => Some(w),
            None => match numeral(chars::lowered(chars::trimmed(s))) {
                Some(x) => weight_of_numeral(x),
                None => None,
            },
        }
    }

    /// The weight as a number from 100 to 900.
    pub fn value(self) -> (n: u64)
        ensures
            n == self.number(),
    {
        match self {
            FontWeight::Thin => 100,
            FontWeight::ExtraLight => 200,
            FontWeight::Light => 300,
            FontWeight::Normal => 400,
            FontWeight::Medium => 500,
            FontWeight::SemiBold => 600,
            FontWeight::Bold => 700,
            FontWeight::ExtraBold => 800,
            FontWeight::Black => 900,
        }
    }

    /// The weight nearest to a number, halves upward; not-a-number gives the normal weight.
    pub open spec fn nearest(w: Scalar) -> FontWeight {
        if w.nan() {
            FontWeight::Normal
        } else if w.less(Scalar { bits: 0x4062_c000_0000_0000 }) {
            FontWeight::Thin
        } else if w.less(Scalar { bits: 0x406f_4000_0000_0000 }) {
            FontWeight::ExtraLight
        } else if w.less(Scalar { bits: 0x4075_e000_0000_0000 }) {
            FontWeight::Light
        } else if w.less(Scalar { bits: 0x407c_2000_0000_0000 }) {
            FontWeight::Normal
        } else if w.less(Scalar { bits: 0x4081_3000_0000_0000 }) {
            FontWeight::Medium
        } else if w.less(Scalar { bits: 0x4084_5000_0000_0000 }) {
            FontWeight::SemiBold
        } else if w.less(Scalar { bits: 0x4087_7000_0000_0000 }) {
            FontWeight::Bold
        } else if w.less(Scalar { bits: 0x408a_9000_0000_0000 }) {
            FontWeight::ExtraBold
        } else {
            FontWeight::Black
        }
    }

    /// The weight nearest to a number: the bounds lie at 150, 250 and so on up to 850.
    pub fn from_value(w: Scalar) -> (r: FontWeight)
        ensures
            r == FontWeight::nearest(w),
    {
        if w.is_nan() {
            FontWeight::Normal
        } else if w.lt(Scalar { bits: 0x4062_c000_0000_0000 }) {
            FontWeight::Thin
        } else if w.lt(Scalar { bits: 0x406f_4000_0000_0000 }) {
            FontWeight::ExtraLight
        } else if w.lt(Scalar { bits: 0x4075_e000_0000_0000 }) {
            FontWeight::Light
        } else if w.lt(Scalar { bits: 0x407c_2000_0000_0000 }) {
            FontWeight::Normal
        } else if w.lt(Scalar { bits: 0x4081_3000_0000_0000 }) {
            FontWeight::Medium
        } else if w.lt(Scalar { bits: 0x4084_5000_0000_0000 }) {
            FontWeight::SemiBold
        } else if w.lt(Scalar { bits: 0x4087_7000_0000_0000 }) {
            FontWeight::Bold
        } else if w.lt(Scalar { bits: 0x408a_9000_0000_0000 }) {
            FontWeight::ExtraBold
        } else {
            FontWeight::Black
        }
    }

    /// Reads a weight keyword, in any case and with `-` and `_` left out, or a number from 100 to
    /// 900; `None` where the text is neither.
    pub fn parse(s: &str) -> (r: Option<FontWeight>)
        ensures
            r == FontWeight::of_text(s@),
    {
        let t: Vec<char> = style::to_keyword(s);
        if chars::spells(&t, "thin") {
            Some(FontWeight::Thin)
        } else if chars::spells(&t, "extralight") {
            Some(FontWeight::ExtraLight)
        } else if chars::spells(&t, "light") {
            Some(FontWeight::Light)
        } else if chars::spells(&t, "normal") {
            Some(FontWeight::Normal)
        } else if chars::spells(&t, "medium") {
            Some(FontWeight::Medium)
        } else if chars::spells(&t, "semibold") {
            Some(FontWeight::SemiBold)
        } else if chars::spells(&t, "bold") {
            Some(FontWeight::Bold)
        } else if chars::spells(&t, "extrabold") {
            Some(FontWeight::ExtraBold)
        } else if chars::spells(&t, "black") {
            Some(FontWeight::Black)
        } else {
            read_number(&chars::to_lower(&chars::trim(&chars::to_chars(s))))
        }
    }

    /// Reads a weight like [`FontWeight::parse`].
    pub fn from_str(s: &str) -> (r: Result<FontWeight, FontWeightParseError>)
        ensures
            r == match FontWeight::of_text(s@) {
                Some(w) => Ok::<FontWeight, FontWeightParseError>(w),
                None => Err(FontWeightParseError),
            },
    {
        match FontWeight::parse(s) {
            Some(w) => Ok(w),
            None => Err(FontWeightParseError),
        }
    }
}

fn is_digit(c: char) -> (r: bool)
    ensures
        r == chars::ascii_digit(c),
{
    '0' <= c && c <= '9'
}

/// The end of the run of digits that starts at `i`.
fn scan_digits(s: &Vec<char>, i: usize) -> (j: usize)
    requires
        i <= s@.len(),
    ensures
        i <= j <= s@.len(),
        j == run_end(s@, i as int),
        all_digits(s@.subrange(i as int, j as int)),
{
    let mut j: usize = i;
    while j < s.len() && is_digit(s[j])
        invariant
            i <= j <= s@.len(),
            run_end(s@, i as int) == run_end(s@, j as int),
            forall|k: int| i <= k < j ==> chars::ascii_digit(#[trigger] s@[k]),
        decreases s.len() - j,
    {
        j += 1;
    }
    j
}

proof fn lemma_digits_nat_concat(a: Seq<char>, b: Seq<char>)
    requires
        all_digits(a),
        all_digits(b),
    ensures
        digits_nat(a + b) == digits_nat(a) * digits::ten_pow(b.len()) + digits_nat(b),
        digits_nat(b) < digits::ten_pow(b.len()),
    decreases b.len(),
{
    if b.len() == 0 {
        assert(a + b =~= a);
        assert(digits::ten_pow(0) == 1);
        assert(digits_nat(a) * 1 == digits_nat(a));
    } else {
        let c = b.drop_last();
        assert(all_digits(c)) by {
            assert forall|i: int| 0 <= i < c.len() implies chars::ascii_digit(#[trigger] c[i]) by {
                assert(chars::ascii_digit(b[i]));
            }
        }
        lemma_digits_nat_concat(a, c);
        assert((a + b).drop_last() =~= a + c);
        assert(chars::ascii_digit(b[b.len() - 1]));
        let p = digits::ten_pow(c.len());
        assert(digits::ten_pow(b.len()) == 10 * p);
        let x = digits_nat(a);
        assert(10 * (x * p) == x * (10 * p)) by (nonlinear_arith);
    }
}

/// Whether some character is a digit other than zero.
fn any_nonzero(m: &Vec<char>, from: usize) -> (r: bool)
    requires
        all_digits(m@),
        from <= m@.len(),
    ensures
        r == (digits_nat(m@.subrange(from as int, m@.len() as int)) > 0),
{
    let mut i: usize = from;
    assert(digits_nat(m@.subrange(from as int, i as int)) == 0);
    while i < m.len()
        invariant
            from <= i <= m@.len(),
            all_digits(m@),
            digits_nat(m@.subrange(from as int, i as int)) == 0,
        decreases m.len() - i,
    {
        proof {
            assert(chars::ascii_digit(m@[i as int]));
            assert(m@.subrange(from as int, i + 1).drop_last() =~= m@.subrange(
                from as int,
                i as int,
            ));
        }
        if m[i] != '0' {
            proof {
                let a = m@.subrange(from as int, i + 1);
                let b = m@.subrange(i + 1, m@.len() as int);
                assert(all_digits(a)) by {
                    assert forall|k: int| 0 <= k < a.len() implies chars::ascii_digit(
                        #[trigger] a[k],
                    ) by {
                        assert(chars::ascii_digit(m@[from + k]));
                    }
                }
                assert(all_digits(b)) by {
                    assert forall|k: int| 0 <= k < b.len() implies chars::ascii_digit(
                        #[trigger] b[k],
                    ) by {
                        assert(chars::ascii_digit(m@[i + 1 + k]));
                    }
                }
                lemma_digits_nat_concat(a, b);
                assert(m@.subrange(from as int, m@.len() as int) =~= a + b);
                digits::lemma_ten_pow_positive(b.len());
                assert(digits_nat(a) > 0);
                assert(digits_nat(a) * digits::ten_pow(b.len()) > 0) by (nonlinear_arith)
                    requires
                        digits_nat(a) > 0,
                        digits::ten_pow(b.len()) > 0,
                ;
            }
            return true;
        }
        i += 1;
    }
    false
}

/// Above every weight, as a multiple of `10^-18`.
const LIMIT: u128 = 10_000_000_000_000_000_000_000;

proof fn lemma_sub_digits(m: Seq<char>, lo: int, hi: int)
    requires
        all_digits(m),
        0 <= lo <= hi <= m.len(),
    ensures
        all_digits(m.subrange(lo, hi)),
{
    let a = m.subrange(lo, hi);
    assert forall|k: int| 0 <= k < a.len() implies chars::ascii_digit(#[trigger] a[k]) by {
        assert(chars::ascii_digit(m[lo + k]));
    }
}

/// The value of the first `count` digits, or `None` where it is not below the limit.
fn prefix_value(m: &Vec<char>, count: usize) -> (r: Option<u128>)
    requires
        all_digits(m@),
        count <= m@.len(),
    ensures
        r matches Some(q) ==> q == digits_nat(m@.subrange(0, count as int)) && q < LIMIT,
        r is None ==> digits_nat(m@.subrange(0, count as int)) >= LIMIT,
{
    let mut q: u128 = 0;
    let mut i: usize = 0;
    while i < count
        invariant
            i <= count <= m@.len(),
            all_digits(m@),
            q == digits_nat(m@.subrange(0, i as int)),
            q < LIMIT,
        decreases count - i,
    {
        proof {
            assert(chars::ascii_digit(m@[i as int]));
            assert(m@.subrange(0, i + 1).drop_last() =~= m@.subrange(0, i as int));
        }
        q = 10 * q + (m[i] as u32 - 48) as u128;
        i += 1;
        if q >= LIMIT {
            proof {
                let a = m@.subrange(0, i as int);
                let b = m@.subrange(i as int, count as int);
                lemma_sub_digits(m@, 0, i as int);
                lemma_sub_digits(m@, i as int, count as int);
                lemma_digits_nat_concat(a, b);
                assert(m@.subrange(0, count as int) =~= a + b);
                digits::lemma_ten_pow_positive(b.len());
                assert(digits_nat(a) * digits::ten_pow(b.len()) >= digits_nat(a))
                    by (nonlinear_arith)
                    requires
                        digits::ten_pow(b.len()) >= 1,
                ;
            }
            return None;
        }
    }
    Some(q)
}

/// `q * 10^shift`, or `None` where it is not below the limit.
fn times_ten_pow(q: u128, shift: usize) -> (r: Option<u128>)
    requires
        q < LIMIT,
    ensures
        r matches Some(p) ==> p == q * digits::ten_pow(shift as nat) && p < LIMIT,
        r is None ==> q * digits::ten_pow(shift as nat) >= LIMIT,
{
    let mut p: u128 = q;
    let mut i: usize = 0;
    assert(q * digits::ten_pow(0) == q) by {
        assert(digits::ten_pow(0) == 1);
    }
    while i < shift
        invariant
            i <= shift,
            p == q * digits::ten_pow(i as nat),
            p < LIMIT,
        decreases shift - i,
    {
        proof {
            let w = digits::ten_pow(i as nat);
            assert(digits::ten_pow((i + 1) as nat) == 10 * w);
            assert(10 * (q * w) == q * (10 * w)) by (nonlinear_arith);
        }
        p = 10 * p;
        i += 1;
        if p >= LIMIT {
            proof {
                lemma_ten_pow_monotone(i as nat, shift as nat);
                assert(q * digits::ten_pow(shift as nat) >= q * digits::ten_pow(i as nat))
                    by (nonlinear_arith)
                    requires
                        digits::ten_pow(shift as nat) >= digits::ten_pow(i as nat),
                ;
            }
            return None;
        }
    }
    Some(p)
}

proof fn lemma_ten_pow_monotone(a: nat, b: nat)
    requires
        a <= b,
    ensures
        digits::ten_pow(a) <= digits::ten_pow(b),
    decreases b,
{
    if a < b {
        lemma_ten_pow_monotone(a, (b - 1) as nat);
    }
}

proof fn lemma_ten_pow_adds(a: nat, b: nat)
    ensures
        digits::ten_pow(a + b) == digits::ten_pow(a) * digits::ten_pow(b),
    decreases a,
{
    if a > 0 {
        lemma_ten_pow_adds((a - 1) as nat, b);
        assert(digits::ten_pow(a + b) == 10 * digits::ten_pow((a - 1 + b) as nat));
        let (x, y) = (digits::ten_pow((a - 1) as nat), digits::ten_pow(b));
        assert(10 * (x * y) == (10 * x) * y) by (nonlinear_arith);
    } else {
        assert(digits::ten_pow(0) == 1);
        assert(1 * digits::ten_pow(b) == digits::ten_pow(b));
    }
}

proof fn lemma_unit()
    ensures
        digits::ten_pow(18) == (UNIT as nat),
        digits::ten_pow(4) == 10_000,
{
    reveal_with_fuel(digits::ten_pow, 19);
}

/// `n * 10^18 / d` and whether it has a remainder, for `n / d` the value of the numeral with
/// these digits; `None` where the value is above every weight.
fn scaled_value(m: &Vec<char>, fraction: usize, exponent: usize) -> (r: Option<(u128, bool)>)
    requires
        all_digits(m@),
        fraction <= m@.len(),
        exponent < fraction + 4,
    ensures
        ({
            let n = digits_nat(m@) * digits::ten_pow(exponent as nat);
            let d = digits::ten_pow(fraction as nat);
            &&& r matches Some((q, more)) ==> q < LIMIT
                && q == (n * (UNIT as nat)) / d
                && more == ((n
                * (UNIT as nat)) % d != 0)
            &&& r is None ==> n * (UNIT as nat) >= LIMIT * d
        }),
{
    let ghost v = digits_nat(m@);
    let ghost pe = digits::ten_pow(exponent as nat);
    let ghost d = digits::ten_pow(fraction as nat);
    proof {
        lemma_unit();
        lemma_ten_pow_adds(exponent as nat, 18);
        digits::lemma_ten_pow_positive(fraction as nat);
        assert(v * pe * (UNIT as nat) == v * (pe * (UNIT as nat))) by (nonlinear_arith);
        assert(m@.subrange(0, m@.len() as int) =~= m@);
    }
    let up: u128 = exponent as u128 + 18;
    if up >= fraction as u128 {
        let shift: usize = (up - fraction as u128) as usize;
        let ghost w = digits::ten_pow(shift as nat);
        proof {
            lemma_ten_pow_adds(fraction as nat, shift as nat);
            assert(v * (d * w) == (v * w) * d) by (nonlinear_arith);
            vstd::arithmetic::div_mod::lemma_fundamental_div_mod_converse(
                (v * (d * w)) as int,
                d as int,
                (v * w) as int,
                0,
            );
            digits::lemma_ten_pow_positive(shift as nat);
        }
        match prefix_value(m, m.len()) {
            Some(q) => match times_ten_pow(q, shift) {
                Some(p) => Some((p, false)),
                None => {
                    proof {
                        assert((v * w) * d >= LIMIT * d) by (nonlinear_arith)
                            requires
                                v * w >= LIMIT,
                        ;
                    }
                    None
                },
            },
            None => {
                proof {
                    assert((v * w) * d >= LIMIT * d) by (nonlinear_arith)
                        requires
                            v >= LIMIT,
                            w >= 1,
                    ;
                }
                None
            },
        }
    } else {
        let drop: usize = (fraction as u128 - up) as usize;
        let ghost w = digits::ten_pow(drop as nat);
        let ghost c = digits::ten_pow((exponent + 18) as nat);
        proof {
            lemma_ten_pow_adds((exponent + 18) as nat, drop as nat);
            digits::lemma_ten_pow_positive(drop as nat);
            digits::lemma_ten_pow_positive((exponent + 18) as nat);
            assert(c * w == w * c) by (nonlinear_arith);
            crate::arith::lemma_widened_quotient(v, w, c);
        }
        let keep: usize = m.len() - drop;
        proof {
            let a = m@.subrange(0, keep as int);
            let b = m@.subrange(keep as int, m@.len() as int);
            lemma_sub_digits(m@, 0, keep as int);
            lemma_sub_digits(m@, keep as int, m@.len() as int);
            lemma_digits_nat_concat(a, b);
            assert(m@ =~= a + b);
            vstd::arithmetic::div_mod::lemma_fundamental_div_mod_converse(
                v as int,
                w as int,
                digits_nat(a) as int,
                digits_nat(b) as int,
            );
        }
        match prefix_value(m, keep) {
            Some(q) => Some((q, any_nonzero(m, keep))),
            None => {
                proof {
                    let a = digits_nat(m@.subrange(0, keep as int));
                    assert(v * c >= LIMIT * (w * c)) by (nonlinear_arith)
                        requires
                            v >= a * w,
                            a >= LIMIT,
                            c >= 1,
                    ;
                }
                None
            },
        }
    }
}

/// Comparing a quotient with an integer needs only its integer part and whether there is more.
proof fn lemma_compare_quotient(v: nat, d: nat, bound: nat)
    requires
        d > 0,
    ensures
        v < bound * d <==> v / d < bound,
        v > bound * d <==> v / d > bound || (v / d == bound && v % d != 0),
{
    let q = v / d;
    let r = v % d;
    vstd::arithmetic::div_mod::lemma_fundamental_div_mod(v as int, d as int);
    assert((v < bound * d <==> q < bound) && (v > bound * d <==> q > bound || (q == bound && r
        != 0))) by (nonlinear_arith)
        requires
            v == d * q + r,
            0 <= r < d,
    ;
}

/// The weight for a numeral in parts.
fn weigh(m: &Vec<char>, fraction: usize, exponent: usize) -> (r: Option<FontWeight>)
    requires
        all_digits(m@),
        fraction <= m@.len(),
        exponent < fraction + 4,
    ensures
        r == weight_of_ratio(
            digits_nat(m@) * digits::ten_pow(exponent as nat),
            digits::ten_pow(fraction as nat),
        ),
{
    let ghost n = digits_nat(m@) * digits::ten_pow(exponent as nat);
    let ghost d = digits::ten_pow(fraction as nat);
    let ghost v = n * (UNIT as nat);
    proof {
        digits::lemma_ten_pow_positive(fraction as nat);
        lemma_compare_quotient(v, d, REACHES_100 as nat);
        lemma_compare_quotient(v, d, KEEPS_900 as nat);
        lemma_compare_quotient(v, d, REACHES_150 as nat);
        lemma_compare_quotient(v, d, REACHES_250 as nat);
        lemma_compare_quotient(v, d, REACHES_350 as nat);
        lemma_compare_quotient(v, d, REACHES_450 as nat);
        lemma_compare_quotient(v, d, REACHES_550 as nat);
        lemma_compare_quotient(v, d, REACHES_650 as nat);
        lemma_compare_quotient(v, d, REACHES_750 as nat);
        lemma_compare_quotient(v, d, REACHES_850 as nat);
    }
    match scaled_value(m, fraction, exponent) {
        None => {
            proof {
                assert(LIMIT * d > KEEPS_900 * d) by (nonlinear_arith)
                    requires
                        d > 0,
                ;
            }
            None
        },
        Some((q, more)) => if q < REACHES_100 || q > KEEPS_900 || (q == KEEPS_900 && more) {
            None
        } else if q < REACHES_150 {
            Some(FontWeight::Thin)
        } else if q < REACHES_250 {
            Some(FontWeight::ExtraLight)
        } else if q < REACHES_350 {
            Some(FontWeight::Light)
        } else if q < REACHES_450 {
            Some(FontWeight::Normal)
        } else if q < REACHES_550 {
            Some(FontWeight::Medium)
        } else if q < REACHES_650 {
            Some(FontWeight::SemiBold)
        } else if q < REACHES_750 {
            Some(FontWeight::Bold)
        } else if q < REACHES_850 {
            Some(FontWeight::ExtraBold)
        } else {
            Some(FontWeight::Black)
        },
    }
}

/// The value of the digits from `from` on, or `limit` where it is larger.
fn capped_value(s: &Vec<char>, from: usize, limit: u128) -> (r: u128)
    requires
        from <= s@.len(),
        all_digits(s@.subrange(from as int, s@.len() as int)),
        limit <= 0x1_0000_0000_0000_0000_0000,
    ensures
        ({
            let n = digits_nat(s@.subrange(from as int, s@.len() as int));
            if n < limit {
                r == n
            } else {
                r == limit
            }
        }),
{
    let ghost all = s@.subrange(from as int, s@.len() as int);
    let mut q: u128 = 0;
    let mut i: usize = from;
    if limit == 0 {
        return 0;
    }
    while i < s.len()
        invariant
            from <= i <= s@.len(),
            all == s@.subrange(from as int, s@.len() as int),
            all_digits(all),
            q == digits_nat(s@.subrange(from as int, i as int)),
            q < limit <= 0x1_0000_0000_0000_0000_0000,
        decreases s.len() - i,
    {
        proof {
            assert(chars::ascii_digit(all[i - from]));
            assert(s@.subrange(from as int, i + 1).drop_last() =~= s@.subrange(
                from as int,
                i as int,
            ));
        }
        q = 10 * q + (s[i] as u32 - 48) as u128;
        i += 1;
        if q >= limit {
            proof {
                let a = s@.subrange(from as int, i as int);
                let b = s@.subrange(i as int, s@.len() as int);
                assert(a =~= all.subrange(0, i - from));
                assert(b =~= all.subrange(i - from, all.len() as int));
                lemma_sub_digits(all, 0, i - from);
                lemma_sub_digits(all, i - from, all.len() as int);
                lemma_digits_nat_concat(a, b);
                assert(all =~= a + b);
                digits::lemma_ten_pow_positive(b.len());
                assert(digits_nat(a) * digits::ten_pow(b.len()) >= digits_nat(a))
                    by (nonlinear_arith)
                    requires
                        digits::ten_pow(b.len()) >= 1,
                ;
            }
            return limit;
        }
    }
    q
}

/// A number other than zero with a large exponent is above every weight.
proof fn lemma_large_exponent(v: nat, exponent: nat, fraction: nat)
    requires
        v > 0,
        exponent >= fraction + 4,
    ensures
        weight_of_ratio(v * digits::ten_pow(exponent), digits::ten_pow(fraction)) is None,
{
    lemma_unit();
    lemma_ten_pow_monotone(fraction + 4, exponent);
    lemma_ten_pow_adds(fraction, 4);
    digits::lemma_ten_pow_positive(fraction);
    let d = digits::ten_pow(fraction);
    let p = digits::ten_pow(exponent);
    assert((v * p) * (UNIT as nat) > KEEPS_900 * d) by (nonlinear_arith)
        requires
            v >= 1,
            p >= d * 10_000,
            d >= 1,
    ;
}

/// Zero is below every weight.
proof fn lemma_zero_weight(exponent: nat, fraction: nat)
    ensures
        weight_of_ratio(0 * digits::ten_pow(exponent), digits::ten_pow(fraction)) is None,
{
    digits::lemma_ten_pow_positive(fraction);
    let d = digits::ten_pow(fraction);
    assert(0 * digits::ten_pow(exponent) == 0);
    assert(REACHES_100 * d > 0) by (nonlinear_arith)
        requires
            d >= 1,
    ;
}

/// A number with all its digits behind the point is below every weight.
proof fn lemma_small_value(m: Seq<char>, fraction: nat)
    requires
        all_digits(m),
        fraction >= m.len(),
    ensures
        weight_of_ratio(digits_nat(m) * digits::ten_pow(0), digits::ten_pow(fraction)) is None,
{
    lemma_digits_nat_concat(Seq::empty(), m);
    lemma_ten_pow_monotone(m.len(), fraction);
    digits::lemma_ten_pow_positive(fraction);
    assert(digits::ten_pow(0) == 1);
    let v = digits_nat(m);
    let d = digits::ten_pow(fraction);
    assert(v * digits::ten_pow(0) == v);
    assert(v * (UNIT as nat) < REACHES_100 * d) by (nonlinear_arith)
        requires
            v < d,
    ;
}

/// Reads a number from 100 to 900 as a weight.
fn read_number(s: &Vec<char>) -> (r: Option<FontWeight>)
    ensures
        r == match numeral(s@) {
            Some(x) => weight_of_numeral(x),
            None => None::<FontWeight>,
        },
{
    let n: usize = s.len();
    let start: usize = if n > 0 && s[0] == '+' {
        1
    } else {
        0
    };
    let whole: usize = scan_digits(s, start);
    let mut m: Vec<char> = chars::sub_chars(s, start, whole);
    let point = whole < n && s[whole] == '.';
    let end: usize = if point {
        scan_digits(s, whole + 1)
    } else {
        whole
    };
    let mut fraction: usize = 0;
    if point {
        let mut tail: Vec<char> = chars::sub_chars(s, whole + 1, end);
        fraction = tail.len();
        m.append(&mut tail);
    }
    if m.len() == 0 {
        return None;
    }
    assert(all_digits(m@)) by {
        let a = s@.subrange(start as int, whole as int);
        let b = s@.subrange(whole + 1, end as int);
        assert forall|i: int| 0 <= i < m@.len() implies chars::ascii_digit(#[trigger] m@[i]) by {
            if i < a.len() {
                assert(chars::ascii_digit(a[i]));
            } else {
                assert(chars::ascii_digit(b[i - a.len()]));
            }
        }
    }
    if end == n {
        proof {
            assert(numeral(s@) == Some(
                Numeral { mantissa: m@, fraction: fraction as nat, exponent: 0 },
            ));
        }
        return weigh(&m, fraction, 0);
    }
    if s[end] != 'e' {
        return None;
    }
    let down = end + 1 < n && s[end + 1] == '-';
    let exp: usize = if down || (end + 1 < n && s[end + 1] == '+') {
        end + 2
    } else {
        end + 1
    };
    if exp >= n || scan_digits(s, exp) != n {
        return None;
    }
    if down {
        let room: u128 = m.len() as u128 - fraction as u128;
        let e: u128 = capped_value(s, exp, room);
        let ghost drop = digits_nat(s@.subrange(exp as int, n as int));
        proof {
            assert(numeral(s@) == Some(
                Numeral { mantissa: m@, fraction: fraction as nat + drop, exponent: 0 },
            ));
        }
        if e >= room {
            proof {
                lemma_small_value(m@, fraction as nat + drop);
            }
            return None;
        }
        return weigh(&m, fraction + e as usize, 0);
    }
    let limit: u128 = fraction as u128 + 4;
    let e: u128 = capped_value(s, exp, limit);
    let ghost exponent = digits_nat(s@.subrange(exp as int, n as int));
    proof {
        assert(numeral(s@) == Some(Numeral { mantissa: m@, fraction: fraction as nat, exponent }));
        assert(m@.subrange(0, m@.len() as int) =~= m@);
    }
    if !any_nonzero(&m, 0) {
        proof {
            lemma_zero_weight(exponent, fraction as nat);
        }
        return None;
    }
    if e >= limit {
        proof {
            lemma_large_exponent(digits_nat(m@), exponent, fraction as nat);
        }
        return None;
    }
    weigh(&m, fraction, e as usize)
}

} // verus!

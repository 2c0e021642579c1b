//! Decimal and hexadecimal numerals.
//!
//! Numerals are sequences of characters; the functions here append them to a `String`.

use vstd::prelude::*;

verus! {

/// `String::push` appends one character to the end of the string.
pub assume_specification[ String::push ](s: &mut String, c: char)
    ensures
        final(s)@ == old(s)@.push(c),
;

/// `2^n`.
pub open spec fn two_pow(n: nat) -> nat
    decreases n,
{
    if n == 0 {
        1
    } else {
        2 * two_pow((n - 1) as nat)
    }
}

/// `10^n`.
pub open spec fn ten_pow(n: nat) -> nat
    decreases n,
{
    if n == 0 {
        1
    } else {
        10 * ten_pow((n - 1) as nat)
    }
}

pub proof fn lemma_two_pow_positive(n: nat)
    ensures
        two_pow(n) >= 1,
    decreases n,
{
    if n > 0 {
        lemma_two_pow_positive((n - 1) as nat);
    }
}

pub proof fn lemma_two_pow_adds(a: nat, b: nat)
    ensures
        two_pow(a + b) == two_pow(a) * two_pow(b),
    decreases a,
{
    if a > 0 {
        lemma_two_pow_adds((a - 1) as nat, b);
        assert(two_pow(a + b) == 2 * two_pow((a - 1 + b) as nat));
        assert(2 * (two_pow((a - 1) as nat) * two_pow(b)) == (2 * two_pow((a - 1) as nat))
            * two_pow(b)) by (nonlinear_arith);
    } else {
        assert(two_pow(0) == 1);
        assert(1 * two_pow(b) == two_pow(b));
    }
}

pub proof fn lemma_two_pow_monotone(a: nat, b: nat)
    requires
        a <= b,
    ensures
        two_pow(a) <= two_pow(b),
    decreases b,
{
    if a < b {
        lemma_two_pow_monotone(a, (b - 1) as nat);
    }
}

pub proof fn lemma_ten_pow_positive(n: nat)
    ensures
        ten_pow(n) >= 1,
    decreases n,
{
    if n > 0 {
        lemma_ten_pow_positive((n - 1) as nat);
    }
}

/// The character of a decimal digit.
pub open spec fn digit_char(d: int) -> char {
    (48 + d) as char
}

/// The decimal numeral of `n`, without leading zeros.
pub open spec fn decimal(n: nat) -> Seq<char>
    decreases n,
{
    if n < 10 {
        seq![digit_char(n as int)]
    } else {
        decimal(n / 10).push(digit_char((n % 10) as int))
    }
}

/// The last `width` decimal digits of `n`, padded with zeros on the left.
pub open spec fn padded(n: nat, width: nat) -> Seq<char>
    decreases width,
{
    if width == 0 {
        Seq::empty()
    } else {
        padded(n / 10, (width - 1) as nat).push(digit_char((n % 10) as int))
    }
}

/// The character of a hexadecimal digit, in lower case.
pub open spec fn hex_char(d: int) -> char {
    if d < 10 {
        (48 + d) as char
    } else {
        (87 + d) as char
    }
}

/// The two lower-case hexadecimal digits of a byte.
pub open spec fn hex_byte(b: u8) -> Seq<char> {
    seq![hex_char(b as int / 16), hex_char(b as int % 16)]
}

fn digit(d: u8) -> (c: char)
    requires
        d < 10,
    ensures
        c == digit_char(d as int),
{
    (48 + d) as char
}

fn hex_digit(d: u8) -> (c: char)
    requires
        d < 16,
    ensures
        c == hex_char(d as int),
{
    if d < 10 {
        (48 + d) as char
    } else {
        (87 + d) as char
    }
}

/// Appends the decimal numeral of `n`.
pub fn push_decimal(out: &mut String, n: u128)
    ensures
        final(out)@ == old(out)@ + decimal(n as nat),
    decreases n,
{
    if n >= 10 {
        push_decimal(out, n / 10);
    }
    out.push(digit((n % 10) as u8));
    proof {
        assert(final(out)@ =~= old(out)@ + decimal(n as nat));
    }
}

/// Appends the last `width` decimal digits of `n`, padded with zeros on the left.
pub fn push_padded(out: &mut String, n: u128, width: usize)
    ensures
        final(out)@ == old(out)@ + padded(n as nat, width as nat),
    decreases width,
{
    if width > 0 {
        push_padded(out, n / 10, width - 1);
        out.push(digit((n % 10) as u8));
    }
    proof {
        assert(final(out)@ =~= old(out)@ + padded(n as nat, width as nat));
    }
}

/// Appends the two hexadecimal digits of `b`.
pub fn push_hex_byte(out: &mut String, b: u8)
    ensures
        final(out)@ == old(out)@ + hex_byte(b),
{
    out.push(hex_digit(b / 16));
    out.push(hex_digit(b % 16));
    proof {
        assert(final(out)@ =~= old(out)@ + hex_byte(b));
    }
}

/// The number that decimal digits stand for, least significant digit first.
pub open spec fn digits_value(s: Seq<u8>) -> nat
    decreases s.len(),
{
    if s.len() == 0 {
        0
    } else {
        digits_value(s.drop_last()) + s.last() as nat * ten_pow((s.len() - 1) as nat)
    }
}

/// Decimal digits, each below ten, with no zero in the most significant place.
pub open spec fn canonical_digits(s: Seq<u8>) -> bool {
    &&& s.len() > 0
    &&& forall|i: int| 0 <= i < s.len() ==> s[i] < 10
    &&& s.len() > 1 ==> s.last() > 0
}

proof fn lemma_digits_value_first(s: Seq<u8>)
    requires
        s.len() > 0,
    ensures
        digits_value(s) == s[0] as nat + 10 * digits_value(s.drop_first()),
    decreases s.len(),
{
    if s.len() == 1 {
        assert(s.drop_last() =~= Seq::<u8>::empty());
        assert(s.drop_first() =~= Seq::<u8>::empty());
        assert(ten_pow(0) == 1);
        assert(digits_value(s) == s[0] as nat * 1);
    } else {
        let t = s.drop_last();
        lemma_digits_value_first(t);
        assert(t.drop_first() =~= s.drop_first().drop_last());
        assert(s.drop_first().last() == s.last());
        let n = (s.len() - 1) as nat;
        assert(ten_pow(n) == 10 * ten_pow((n - 1) as nat));
        assert(s.last() as nat * (10 * ten_pow((n - 1) as nat)) == 10 * (s.last() as nat * ten_pow(
            (n - 1) as nat,
        ))) by (nonlinear_arith);
    }
}

/// Canonical digits, read from the most significant one, are the decimal numeral of their value.
proof fn lemma_canonical_is_decimal(s: Seq<u8>)
    requires
        canonical_digits(s),
    ensures
        decimal(digits_value(s)) == Seq::new(s.len(), |i: int| digit_char(s[s.len() - 1 - i] as int)),
        s.len() > 1 ==> digits_value(s) >= 10,
    decreases s.len(),
{
    lemma_digits_value_first(s);
    let rest = s.drop_first();
    if s.len() == 1 {
        assert(rest =~= Seq::<u8>::empty());
        assert(digits_value(s) == s[0]);
        assert(decimal(digits_value(s)) =~= Seq::new(
            s.len(),
            |i: int| digit_char(s[s.len() - 1 - i] as int),
        ));
    } else {
        assert(rest.last() == s.last());
        assert(canonical_digits(rest));
        lemma_canonical_is_decimal(rest);
        let v = digits_value(s);
        if rest.len() == 1 {
            lemma_digits_value_first(rest);
            assert(rest.drop_first() =~= Seq::<u8>::empty());
        }
        assert(v >= 10);
        assert(v / 10 == digits_value(rest));
        assert(v % 10 == s[0]);
        assert(decimal(v) =~= Seq::new(s.len(), |i: int| digit_char(s[s.len() - 1 - i] as int)));
    }
}

/// Doubles a number given by its decimal digits.
fn double_digits(v: &Vec<u8>) -> (out: Vec<u8>)
    requires
        canonical_digits(v@),
    ensures
        canonical_digits(out@),
        digits_value(out@) == 2 * digits_value(v@),
{
    let mut out: Vec<u8> = Vec::new();
    let mut carry: u8 = 0;
    let mut i: usize = 0;
    while i < v.len()
        invariant
            i <= v.len(),
            canonical_digits(v@),
            out@.len() == i,
            carry <= 1,
            forall|j: int| 0 <= j < out@.len() ==> out@[j] < 10,
            digits_value(out@) + carry as nat * ten_pow(i as nat) == 2 * digits_value(
                v@.take(i as int),
            ),
            i == v.len() && i > 1 && carry == 0 ==> out@.last() > 0,
        decreases v.len() - i,
    {
        let t: u8 = 2 * v[i] + carry;
        let ghost before = out@;
        out.push(t % 10);
        proof {
            let p = ten_pow(i as nat);
            let d = v@[i as int] as nat;
            let c = carry as nat;
            assert(v@.take(i + 1).drop_last() =~= v@.take(i as int));
            assert(v@.take(i + 1).last() == v@[i as int]);
            assert(out@.drop_last() =~= before);
            assert(digits_value(v@.take(i + 1)) == digits_value(v@.take(i as int)) + d * p);
            assert(digits_value(out@) == digits_value(before) + (t % 10) as nat * p);
            assert(ten_pow((i + 1) as nat) == 10 * p);
            let q = (t / 10) as nat;
            let r = (t % 10) as nat;
            assert(t == 10 * q + r);
            assert(r * p + q * (10 * p) == 2 * (d * p) + c * p) by (nonlinear_arith)
                requires
                    10 * q + r == 2 * d + c,
            ;
        }
        carry = t / 10;
        i += 1;
    }
    assert(v@.take(v@.len() as int) =~= v@);
    if carry > 0 {
        let ghost before = out@;
        out.push(carry);
        proof {
            assert(out@.drop_last() =~= before);
        }
    }
    out
}

/// The decimal digits of `n`, least significant first.
fn digits_of(n: u64) -> (out: Vec<u8>)
    ensures
        canonical_digits(out@),
        digits_value(out@) == n,
{
    let mut out: Vec<u8> = Vec::new();
    let mut rest: u64 = n;
    proof {
        assert(ten_pow(0) == 1);
        assert(rest as nat * ten_pow(0) == rest as nat * 1);
    }
    while rest >= 10
        invariant
            forall|j: int| 0 <= j < out@.len() ==> out@[j] < 10,
            digits_value(out@) + rest as nat * ten_pow(out@.len()) == n,
            out@.len() > 0 ==> rest > 0,
        decreases rest,
    {
        let ghost before = out@;
        out.push((rest % 10) as u8);
        proof {
            assert(out@.drop_last() =~= before);
            let p = ten_pow(before.len());
            let q = (rest / 10) as nat;
            let r = (rest % 10) as nat;
            assert(ten_pow(out@.len()) == 10 * p);
            assert(r * p + q * (10 * p) == rest as nat * p) by (nonlinear_arith)
                requires
                    rest as nat == 10 * q + r,
            ;
        }
        rest = rest / 10;
    }
    let ghost before = out@;
    out.push(rest as u8);
    proof {
        assert(out@.drop_last() =~= before);
    }
    out
}

/// Appends the decimal numeral of `m * 2^k`.
pub fn push_shifted_decimal(out: &mut String, m: u64, k: usize)
    ensures
        final(out)@ == old(out)@ + decimal(m as nat * two_pow(k as nat)),
{
    let mut v: Vec<u8> = digits_of(m);
    let mut i: usize = 0;
    assert(m as nat * two_pow(0) == m as nat) by {
        assert(two_pow(0) == 1);
    }
    while i < k
        invariant
            i <= k,
            canonical_digits(v@),
            digits_value(v@) == m as nat * two_pow(i as nat),
        decreases k - i,
    {
        v = double_digits(&v);
        proof {
            let p = two_pow(i as nat);
            assert(two_pow((i + 1) as nat) == 2 * p);
            assert(2 * (m as nat * p) == m as nat * (2 * p)) by (nonlinear_arith);
        }
        i += 1;
    }
    let ghost start = out@;
    let ghost numeral = Seq::new(v@.len(), |i: int| digit_char(v@[v@.len() - 1 - i] as int));
    let mut j: usize = v.len();
    while j > 0
        invariant
            j <= v.len(),
            canonical_digits(v@),
            numeral == Seq::new(v@.len(), |i: int| digit_char(v@[v@.len() - 1 - i] as int)),
            out@ == start + numeral.take(v@.len() - j),
        decreases j,
    {
        j -= 1;
        out.push(digit(v[j]));
        proof {
            assert(out@ =~= start + numeral.take(v@.len() - j));
        }
    }
    proof {
        assert(numeral.take(v@.len() as int) =~= numeral);
        lemma_canonical_is_decimal(v@);
    }
}

} // verus!

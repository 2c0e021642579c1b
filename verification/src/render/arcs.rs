//! What the commands of an arc draw.
//!
//! Through two points go two ellipses of given radii, and on each of them two arcs. The flags of
//! an arc command pick one of the four: the first tells whether it is more than half of the
//! ellipse, the second which way it runs.

use vstd::prelude::*;
use crate::arith;
use crate::digits;
use crate::geometry::{Point, Vec2, TWO_BITS};
use crate::laws;
use crate::render::shapes;
use crate::scalar;
use crate::scalar::{Scalar, FRACTION_RANGE};

verus! {

/// An angle is more than `n / 10^17` in absolute value.
pub open spec fn exceeds(angle: Scalar, n: nat) -> bool {
    angle.abs_units() * 100_000_000_000_000_000 > n * digits::two_pow(1074)
}

/// An angle is more than half a turn: the number below pi and the next one lie on either side of
/// the decimal fraction.
pub open spec fn over_half_turn(angle: Scalar) -> bool {
    exceeds(angle, 314_159_265_358_979_312)
}

/// A bit pattern whose number is `s * 2^51` parts of one.
proof fn lemma_pattern(a: Scalar, s: nat)
    requires
        a.scale() == 1023,
        a.significand() == s,
    ensures
        a.abs_units() == s * digits::two_pow(1023),
        digits::two_pow(1074) == 0x8_0000_0000_0000 * digits::two_pow(1023),
        digits::two_pow(1023) > 0,
{
    digits::lemma_two_pow_adds(51, 1023);
    digits::lemma_two_pow_positive(1023);
    assert(digits::two_pow(51) == 0x8_0000_0000_0000) by {
        reveal_with_fuel(digits::two_pow, 52);
    }
}

/// No number lies between the one that stands for half a turn and the decimal fraction.
proof fn lemma_half_turn(angle: Scalar)
    requires
        !angle.nan(),
    ensures
        (Scalar { bits: shapes::HALF_TURN_BITS }).less(angle.absolute()) <==> over_half_turn(angle),
{
    let half = Scalar { bits: shapes::HALF_TURN_BITS };
    let next = Scalar { bits: 0x4009_21fb_5444_2d19 };
    let a = angle.absolute();
    let w = digits::two_pow(1023);
    assert(a.magnitude() == angle.magnitude());
    lemma_pattern(half, 0x19_21fb_5444_2d18);
    lemma_pattern(next, 0x19_21fb_5444_2d19);
    laws::lemma_order(half, a);
    laws::lemma_order(a, half);
    laws::lemma_order(next, a);
}

/// Where the flags of a segment stand: behind its radii and the angle of its axes.
pub open spec fn flags_at(radii: Vec2) -> int {
    7int + radii.x.fixed(2).len() + radii.y.fixed(2).len()
}

/// The first flag of a segment is set where its sweep is more than half a turn, the second where
/// it is not negative; both are single digits.
pub proof fn law_flags_tell_the_sweep(radii: Vec2, sweep: Scalar, end: Point)
    requires
        !sweep.nan(),
    ensures
        ({
            let d = shapes::arc_segment(radii, sweep, end);
            let n = flags_at(radii);
            &&& d.len() > n + 3
            &&& d[n] == if over_half_turn(sweep) {
                '1'
            } else {
                '0'
            }
            &&& d[n + 1] == ' '
            &&& d[n + 2] == if sweep.units() >= 0 {
                '1'
            } else {
                '0'
            }
            &&& d[n + 3] == ' '
        }),
{
    lemma_half_turn(sweep);
    reveal_strlit(" A ");
    reveal_strlit(" ");
    reveal_strlit(" 0 ");
    reveal_strlit("0");
    reveal_strlit("1");
    scalar::lemma_zero(Scalar { bits: 0 });
}

/// Turning the sweep of a segment round changes its second flag, and nothing else.
pub proof fn law_turning_round_flips_one_flag(radii: Vec2, sweep: Scalar, end: Point)
    requires
        !sweep.nan(),
        sweep.units() != 0,
    ensures
        ({
            let d = shapes::arc_segment(radii, sweep, end);
            let e = shapes::arc_segment(radii, sweep.negated(), end);
            let n = flags_at(radii) + 2;
            &&& d.len() == e.len()
            &&& d[n] != e[n]
            &&& forall|i: int| 0 <= i < d.len() && i != n ==> #[trigger] d[i] == e[i]
        }),
{
    let back = sweep.negated();
    assert(back.magnitude() == sweep.magnitude());
    assert(back.units() == -sweep.units());
    law_flags_tell_the_sweep(radii, sweep, end);
    law_flags_tell_the_sweep(radii, back, end);
    assert(back.absolute() == sweep.absolute());
    reveal_strlit(" A ");
    reveal_strlit(" ");
    reveal_strlit(" 0 ");
    reveal_strlit("0");
    reveal_strlit("1");
}

/// Words with a space before each.
pub open spec fn spaced(words: Seq<Seq<char>>) -> Seq<char>
    decreases words.len(),
{
    if words.len() == 0 {
        Seq::empty()
    } else {
        spaced(words.drop_last()) + seq![' '] + words.last()
    }
}

/// A coordinate in a path.
pub open spec fn place(x: Scalar) -> Seq<char> {
    x.fixed(2)
}

pub open spec fn digit(set: bool) -> Seq<char> {
    if set {
        seq!['1']
    } else {
        seq!['0']
    }
}

/// The words of an arc command.
pub open spec fn command(radii: Vec2, sweep: Scalar, end: Point) -> Seq<Seq<char>> {
    seq![
        seq!['A'],
        place(radii.x),
        place(radii.y),
        seq!['0'],
        digit(over_half_turn(sweep)),
        digit(sweep.units() >= 0),
        place(end.x),
        place(end.y),
    ]
}

proof fn lemma_spaced(words: Seq<Seq<char>>, more: Seq<Seq<char>>)
    ensures
        spaced(words + more) == spaced(words) + spaced(more),
    decreases more.len(),
{
    if more.len() == 0 {
        assert(words + more =~= words);
        assert(spaced(words) + spaced(more) =~= spaced(words));
    } else {
        lemma_spaced(words, more.drop_last());
        assert((words + more).drop_last() =~= words + more.drop_last());
        assert((words + more).last() == more.last());
        assert(spaced(words + more) =~= spaced(words) + spaced(more));
    }
}

/// A segment is an arc command.
proof fn lemma_segment(radii: Vec2, sweep: Scalar, end: Point)
    requires
        !sweep.nan(),
    ensures
        shapes::arc_segment(radii, sweep, end) == spaced(command(radii, sweep, end)),
{
    lemma_half_turn(sweep);
    reveal_strlit(" A ");
    reveal_strlit(" ");
    reveal_strlit(" 0 ");
    reveal_strlit("0");
    reveal_strlit("1");
    scalar::lemma_zero(Scalar { bits: 0 });
    let words = command(radii, sweep, end);
    reveal_with_fuel(spaced, 9);
    let d = shapes::arc_segment(radii, sweep, end);
    assert(words.drop_last() =~= words.take(7));
    assert(words.take(7).drop_last() =~= words.take(6));
    assert(words.take(6).drop_last() =~= words.take(5));
    assert(words.take(5).drop_last() =~= words.take(4));
    assert(words.take(4).drop_last() =~= words.take(3));
    assert(words.take(3).drop_last() =~= words.take(2));
    assert(words.take(2).drop_last() =~= words.take(1));
    assert(words.take(1).drop_last() =~= words.take(0));
    assert(d =~= spaced(words));
}

/// An angle is a full turn or more, up to a billionth.
pub open spec fn full(angle: Scalar) -> bool {
    exceeds(angle, 628_318_530_617_958_600)
}

/// No number lies between the one from which an arc counts as full and the decimal fraction.
proof fn lemma_full(angle: Scalar)
    requires
        !angle.nan(),
    ensures
        shapes::full_turn(angle) <==> full(angle),
{
    let turn = Scalar { bits: shapes::FULL_TURN_BITS };
    let before = Scalar { bits: 0x4019_21fb_5432_ff0b };
    let a = angle.absolute();
    let w = digits::two_pow(1023);
    assert(a.magnitude() == angle.magnitude());
    digits::lemma_two_pow_adds(1, 1023);
    assert(digits::two_pow(1024) == 2 * w);
    lemma_pattern(Scalar { bits: 0x4009_21fb_5444_2d18 }, 0x19_21fb_5444_2d18);
    assert(turn.scale() == 1024 && turn.significand() == 0x19_21fb_5432_ff0c);
    assert(before.scale() == 1024 && before.significand() == 0x19_21fb_5432_ff0b);
    laws::lemma_order(turn, a);
    laws::lemma_order(a, turn);
    laws::lemma_order(a, before);
}

/// Half of a number of ordinary size is exact.
pub proof fn lemma_half(a: Scalar)
    requires
        a.finite(),
        a.scale() >= 1,
    ensures
        a.quotient(Scalar { bits: TWO_BITS }).finite(),
        2 * a.quotient(Scalar { bits: TWO_BITS }).units() == a.units(),
{
    reveal(Scalar::quotient);
    let two = Scalar { bits: TWO_BITS };
    let k = (a.scale() - 1) as nat;
    let s = a.significand();
    arith::lemma_fields(a);
    let f = FRACTION_RANGE as int;
    let m = a.magnitude() - f;
    assert(m == k * f + s) by (nonlinear_arith)
        requires
            a.magnitude() == a.scale() * f + s,
            m == a.magnitude() - f,
            k == a.scale() - 1,
    ;
    let h = Scalar { bits: m as u64 };
    laws::lemma_assembled(k, s);
    assert(h.abs_units() == s * digits::two_pow(k));
    assert(digits::two_pow(a.scale()) == 2 * digits::two_pow(k));
    let p = digits::two_pow(k);
    assert(s * (2 * p) == 2 * (s * p)) by (nonlinear_arith);
    let u = digits::two_pow(1074);
    digits::lemma_two_pow_positive(1074);
    arith::lemma_two_pow_53();
    digits::lemma_two_pow_adds(52, 1023);
    assert(digits::two_pow(1075) == 2 * u);
    assert(two.scale() == 1023 && two.significand() == FRACTION_RANGE);
    assert(two.abs_units() == 2 * u);
    scalar::lemma_zero(two);
    let x = h.abs_units();
    assert((2 * x) * u == x * (2 * u)) by (nonlinear_arith);
    laws::law_rounding_keeps_numbers(h, 2 * u);
    laws::lemma_signed_magnitude(a.negative(), h.magnitude());
    laws::lemma_order(a.quotient(two), h);
    laws::lemma_order(h, a.quotient(two));
}

/// The words with which a path starts: at the start of the arc, or for a sector at its center and
/// from there in a line.
pub open spec fn opening(center: Point, start: Point, sector: bool) -> Seq<Seq<char>> {
    if sector {
        seq![
            seq!['M'],
            place(center.x),
            place(center.y),
            seq!['L'],
            place(start.x),
            place(start.y),
        ]
    } else {
        seq![seq!['M'], place(start.x), place(start.y)]
    }
}

proof fn lemma_opening(center: Point, start: Point, sector: bool)
    ensures
        seq![' '] + shapes::arc_start(center, start, sector) == spaced(
            opening(center, start, sector),
        ),
{
    reveal_strlit("M ");
    reveal_strlit(" ");
    reveal_strlit(" L ");
    let words = opening(center, start, sector);
    reveal_with_fuel(spaced, 7);
    let d = seq![' '] + shapes::arc_start(center, start, sector);
    if sector {
        assert(words.drop_last() =~= words.take(5));
        assert(words.take(5).drop_last() =~= words.take(4));
        assert(words.take(4).drop_last() =~= words.take(3));
    } else {
        assert(words.take(3) =~= words);
    }
    assert(words.take(3).drop_last() =~= words.take(2));
    assert(words.take(2).drop_last() =~= words.take(1));
    assert(words.take(1).drop_last() =~= words.take(0));
    assert(d =~= spaced(words));
}

/// The words with which a path ends: that of a sector goes back to its center.
pub open spec fn closing(sector: bool) -> Seq<Seq<char>> {
    if sector {
        seq![seq!['Z']]
    } else {
        Seq::empty()
    }
}

/// The words of an arc below a full turn: one command from its start to its end.
pub proof fn law_arcs_are_one_command(
    center: Point,
    radii: Vec2,
    sweep: Scalar,
    sector: bool,
    directions: &Vec<Vec2>,
    d: String,
)
    requires
        call_ensures(shapes::arc_path_d, (center, radii, sweep, sector, directions), d),
        !sweep.nan(),
        !full(sweep),
        directions@.len() == 2,
    ensures
        shapes::arc_sweeps(sweep).len() == 1,
        seq![' '] + d@ == spaced(
            opening(center, shapes::on_ellipse(center, radii, directions@[0]), sector) + command(
                radii,
                sweep,
                shapes::on_ellipse(center, radii, directions@[1]),
            ) + closing(sector),
        ),
{
    lemma_full(sweep);
    let p = shapes::on_ellipse(center, radii, directions@[0]);
    let q = shapes::on_ellipse(center, radii, directions@[1]);
    lemma_opening(center, p, sector);
    lemma_segment(radii, sweep, q);
    lemma_spaced(opening(center, p, sector), command(radii, sweep, q));
    lemma_spaced(opening(center, p, sector) + command(radii, sweep, q), closing(sector));
    lemma_closing(sector);
    assert(seq![' '] + shapes::arc_path(center, radii, sweep, sector, directions@) =~= spaced(
        opening(center, p, sector) + command(radii, sweep, q) + closing(sector),
    ));
}

proof fn lemma_closing(sector: bool)
    ensures
        spaced(closing(sector)) == if sector {
            " Z"@
        } else {
            Seq::empty()
        },
{
    reveal_strlit(" Z");
    reveal_with_fuel(spaced, 2);
    if sector {
        assert(closing(sector).drop_last() =~= Seq::empty());
        assert(spaced(closing(sector)) =~= " Z"@);
    }
}

/// The words of an arc of a full turn: two commands of half the sweep, by way of the middle.
pub proof fn law_full_turns_are_two_commands(
    center: Point,
    radii: Vec2,
    sweep: Scalar,
    sector: bool,
    directions: &Vec<Vec2>,
    d: String,
) -> (half: Scalar)
    requires
        call_ensures(shapes::arc_path_d, (center, radii, sweep, sector, directions), d),
        sweep.finite(),
        full(sweep),
        directions@.len() == 3,
    ensures
        shapes::arc_sweeps(sweep).len() == 2,
        half.finite(),
        2 * half.units() == sweep.units(),
        seq![' '] + d@ == spaced(
            opening(center, shapes::on_ellipse(center, radii, directions@[0]), sector) + command(
                radii,
                half,
                shapes::on_ellipse(center, radii, directions@[1]),
            ) + command(radii, half, shapes::on_ellipse(center, radii, directions@[2])) + closing(
                sector,
            ),
        ),
{
    lemma_full(sweep);
    let half = sweep.quotient(Scalar { bits: TWO_BITS });
    lemma_ordinary(sweep);
    lemma_half(sweep);
    let p = shapes::on_ellipse(center, radii, directions@[0]);
    let q = shapes::on_ellipse(center, radii, directions@[1]);
    let r = shapes::on_ellipse(center, radii, directions@[2]);
    let head = opening(center, p, sector);
    lemma_opening(center, p, sector);
    lemma_segment(radii, half, q);
    lemma_segment(radii, half, r);
    lemma_spaced(head, command(radii, half, q));
    lemma_spaced(head + command(radii, half, q), command(radii, half, r));
    lemma_spaced(head + command(radii, half, q) + command(radii, half, r), closing(sector));
    lemma_closing(sector);
    assert(seq![' '] + shapes::arc_path(center, radii, sweep, sector, directions@) =~= spaced(
        head + command(radii, half, q) + command(radii, half, r) + closing(sector),
    ));
    half
}

/// A full turn is not a small number.
proof fn lemma_ordinary(a: Scalar)
    requires
        shapes::full_turn(a),
    ensures
        a.scale() >= 1,
{
    let turn = Scalar { bits: shapes::FULL_TURN_BITS };
    assert(a.absolute().magnitude() == a.magnitude());
    laws::lemma_order(turn, a.absolute());
    arith::lemma_fields(a);
}

/// The angles at which an arc starts and ends, and for a full turn that in the middle, follow
/// each other by the sweeps of its segments.
pub proof fn law_stops_follow_the_sweeps(start: Scalar, sweep: Scalar, stops: Vec<Scalar>)
    requires
        call_ensures(shapes::arc_angles, (start, sweep), stops),
        !sweep.nan(),
    ensures
        ({
            let sweeps = shapes::arc_sweeps(sweep);
            &&& stops@.len() == if full(sweep) {
                3int
            } else {
                2
            }
            &&& sweeps.len() == stops@.len() - 1
            &&& stops@[0] == start
            &&& forall|i: int|
                0 <= i < sweeps.len() ==> stops@[i + 1] == stops@[i].sum(#[trigger] sweeps[i])
        }),
{
    lemma_full(sweep);
}

} // verus!

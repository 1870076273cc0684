//! What the order of numbers means: a number is below another exactly where
//! its value is the smaller one.
//!
//! The value of a number is `0.d1 d2 d3 ... x 10^m`. Times a power of ten that
//! is high enough it is a whole number, and whole numbers are compared here.

use crate::number::{
    DecimalView,
    decimal_less,
    decimal_of,
    decimal_same,
    digit_value,
    digits_of,
    fraction_less,
    is_decimal,
    is_digit,
    layout,
    lemma_digits_end,
    lemma_digits_of,
    lemma_digits_to_the_end,
    lemma_pow10_grows,
    nat_of,
    pow10,
    smaller,
    some_nonzero,
    zeros_end,
};
use vstd::prelude::*;

verus! {

/// Whether `s` holds digits only.
pub open spec fn all_digits(s: Seq<char>) -> bool {
    forall|k: int| 0 <= k < s.len() ==> is_digit(#[trigger] s[k])
}

/// Whether `d` is a number as it is read: its digits are digits, the first of
/// them is not zero, and zero has no digits, no sign and the magnitude 0.
pub open spec fn normal(d: DecimalView) -> bool {
    &&& all_digits(d.digits)
    &&& (d.digits.len() > 0 ==> d.digits[0] != '0')
    &&& (d.digits.len() == 0 ==> !d.negative && d.magnitude == 0)
}

/// Whether the value of `d` times ten to the power `k` is a whole number.
pub open spec fn whole_at(d: DecimalView, k: int) -> bool {
    k + d.magnitude >= d.digits.len()
}

/// The value of `d` without its sign, times ten to the power `k`.
pub open spec fn size_at(d: DecimalView, k: int) -> int {
    (nat_of(d.digits) * pow10((k + d.magnitude - d.digits.len()) as nat)) as int
}

/// The value of `d` times ten to the power `k`, for a `k` at which that is a
/// whole number.
pub open spec fn scaled(d: DecimalView, k: int) -> int {
    if d.negative {
        -size_at(d, k)
    } else {
        size_at(d, k)
    }
}

proof fn lemma_pow10_positive(n: nat)
    ensures
        pow10(n) > 0,
    decreases n,
{
    if n > 0 {
        lemma_pow10_positive((n - 1) as nat);
    }
}

proof fn lemma_pow10_add(a: nat, b: nat)
    ensures
        pow10(a + b) == pow10(a) * pow10(b),
    decreases a,
{
    if a > 0 {
        lemma_pow10_add((a - 1) as nat, b);
        let p = pow10((a - 1) as nat);
        let q = pow10(b);
        assert(pow10((a - 1 + b) as nat) == p * q);
        assert(10 * (p * q) == (10 * p) * q) by (nonlinear_arith);
    } else {
        assert(1 * pow10(b) == pow10(b)) by (nonlinear_arith);
    }
}

proof fn lemma_nat_of_head(s: Seq<char>)
    requires
        s.len() > 0,
    ensures
        nat_of(s) == digit_value(s[0]) * pow10((s.len() - 1) as nat) + nat_of(s.drop_first()),
    decreases s.len(),
{
    let n = s.len();
    if n == 1 {
        assert(s.drop_last() =~= Seq::<char>::empty());
        assert(s.drop_first() =~= Seq::<char>::empty());
        assert(digit_value(s[0]) * 1 == digit_value(s[0])) by (nonlinear_arith);
    } else {
        let front = s.drop_last();
        lemma_nat_of_head(front);
        assert(s.drop_first().drop_last() =~= front.drop_first());
        let d = digit_value(s[0]) as int;
        let p = pow10((n - 2) as nat) as int;
        let rest = nat_of(front.drop_first()) as int;
        let last = digit_value(s.last()) as int;
        assert(nat_of(front) == d * p + rest);
        assert(nat_of(s.drop_first()) == rest * 10 + last);
        assert((d * p + rest) * 10 + last == d * (10 * p) + (rest * 10 + last))
            by (nonlinear_arith);
    }
}

proof fn lemma_nat_of_upper(s: Seq<char>)
    requires
        all_digits(s),
    ensures
        nat_of(s) < pow10(s.len()),
    decreases s.len(),
{
    if s.len() > 0 {
        assert(all_digits(s.drop_last())) by {
            assert forall|k: int| 0 <= k < s.drop_last().len() implies is_digit(
                #[trigger] s.drop_last()[k],
            ) by {
                assert(s.drop_last()[k] == s[k]);
            }
        }
        lemma_nat_of_upper(s.drop_last());
        assert(is_digit(s[s.len() - 1]));
    }
}

proof fn lemma_tail_digits(s: Seq<char>)
    requires
        all_digits(s),
        s.len() > 0,
    ensures
        all_digits(s.drop_first()),
        digit_value(s[0]) <= 9,
{
    assert(is_digit(s[0]));
    assert forall|k: int| 0 <= k < s.drop_first().len() implies is_digit(
        #[trigger] s.drop_first()[k],
    ) by {
        assert(s.drop_first()[k] == s[k + 1]);
    }
}

/// The digits `s`, read as `0.s x 10^m`, lie between their first digit and the
/// next one at the place `m - 1`.
proof fn lemma_scaled_bounds(s: Seq<char>, m: nat)
    requires
        all_digits(s),
        s.len() > 0,
        m >= s.len(),
    ensures
        nat_of(s) * pow10((m - s.len()) as nat) == digit_value(s[0]) * pow10((m - 1) as nat)
            + nat_of(s.drop_first()) * pow10((m - s.len()) as nat),
        nat_of(s.drop_first()) * pow10((m - s.len()) as nat) < pow10((m - 1) as nat),
{
    let n = s.len();
    let e = pow10((m - n) as nat) as int;
    let p = pow10((n - 1) as nat) as int;
    let d = digit_value(s[0]) as int;
    let rest = nat_of(s.drop_first()) as int;
    lemma_nat_of_head(s);
    lemma_tail_digits(s);
    lemma_nat_of_upper(s.drop_first());
    lemma_pow10_add((n - 1) as nat, (m - n) as nat);
    lemma_pow10_positive((m - n) as nat);
    assert(pow10((m - 1) as nat) == p * e);
    assert((d * p + rest) * e == d * (p * e) + rest * e) by (nonlinear_arith);
    assert(rest * e < p * e) by (nonlinear_arith)
        requires
            rest < p,
            e > 0,
    ;
}

proof fn lemma_some_nonzero(y: Seq<char>)
    requires
        all_digits(y),
    ensures
        some_nonzero(y) <==> nat_of(y) > 0,
    decreases y.len(),
{
    if y.len() > 0 {
        lemma_tail_digits(y);
        lemma_nat_of_head(y);
        lemma_some_nonzero(y.drop_first());
        lemma_pow10_positive((y.len() - 1) as nat);
        let d = digit_value(y[0]) as int;
        let p = pow10((y.len() - 1) as nat) as int;
        assert(is_digit(y[0]));
        if y[0] != '0' {
            assert(d * p > 0) by (nonlinear_arith)
                requires
                    d >= 1,
                    p > 0,
            ;
        } else {
            assert(d * p == 0) by (nonlinear_arith)
                requires
                    d == 0,
            ;
        }
    }
}

/// Of two fractions with digits up to the place `m`, the one is below the other
/// exactly where its digits, filled up with zeros, write the smaller number.
proof fn lemma_fraction_order(x: Seq<char>, y: Seq<char>, m: nat)
    requires
        all_digits(x),
        all_digits(y),
        m >= x.len(),
        m >= y.len(),
    ensures
        fraction_less(x, y) <==> nat_of(x) * pow10((m - x.len()) as nat) < nat_of(y) * pow10(
            (m - y.len()) as nat,
        ),
    decreases x.len(),
{
    let sx = nat_of(x) * pow10((m - x.len()) as nat);
    let sy = nat_of(y) * pow10((m - y.len()) as nat);
    lemma_pow10_positive((m - x.len()) as nat);
    lemma_pow10_positive((m - y.len()) as nat);
    if y.len() == 0 {
        assert(sy == 0) by (nonlinear_arith)
            requires
                sy == 0 * pow10((m - y.len()) as nat),
        ;
        assert(sx >= 0) by (nonlinear_arith)
            requires
                sx == nat_of(x) * pow10((m - x.len()) as nat),
        ;
    } else if x.len() == 0 {
        lemma_some_nonzero(y);
        let ny = nat_of(y) as int;
        let e = pow10((m - y.len()) as nat) as int;
        assert(sx == 0) by (nonlinear_arith)
            requires
                sx == 0 * pow10((m - x.len()) as nat),
        ;
        assert((ny * e > 0) <==> ny > 0) by (nonlinear_arith)
            requires
                ny >= 0,
                e > 0,
        ;
    } else {
        lemma_scaled_bounds(x, m);
        lemma_scaled_bounds(y, m);
        lemma_tail_digits(x);
        lemma_tail_digits(y);
        let q = pow10((m - 1) as nat) as int;
        let dx = digit_value(x[0]) as int;
        let dy = digit_value(y[0]) as int;
        let rx = nat_of(x.drop_first()) * pow10((m - x.len()) as nat);
        let ry = nat_of(y.drop_first()) * pow10((m - y.len()) as nat);
        assert(rx >= 0 && ry >= 0) by (nonlinear_arith)
            requires
                rx == nat_of(x.drop_first()) * pow10((m - x.len()) as nat),
                ry == nat_of(y.drop_first()) * pow10((m - y.len()) as nat),
        ;
        assert(is_digit(x[0]) && is_digit(y[0]));
        if x[0] != y[0] {
            if x[0] < y[0] {
                assert(dx * q + rx < dy * q + ry) by (nonlinear_arith)
                    requires
                        dx + 1 <= dy,
                        0 <= rx < q,
                        ry >= 0,
                ;
            } else {
                assert(dy * q + ry < dx * q + rx) by (nonlinear_arith)
                    requires
                        dy + 1 <= dx,
                        0 <= ry < q,
                        rx >= 0,
                ;
            }
        } else {
            lemma_fraction_order(x.drop_first(), y.drop_first(), (m - 1) as nat);
        }
    }
}

/// The size of a number that is not zero lies between the powers of ten around
/// its magnitude.
proof fn lemma_size_bounds(d: DecimalView, k: int)
    requires
        normal(d),
        d.digits.len() > 0,
        whole_at(d, k),
    ensures
        k + d.magnitude >= 1,
        pow10((k + d.magnitude - 1) as nat) <= size_at(d, k) < pow10((k + d.magnitude) as nat),
{
    let n = d.digits.len();
    let e = (k + d.magnitude - n) as nat;
    lemma_scaled_bounds(d.digits, (k + d.magnitude) as nat);
    lemma_pow10_positive((k + d.magnitude - 1) as nat);
    let q = pow10((k + d.magnitude - 1) as nat) as int;
    let dv = digit_value(d.digits[0]) as int;
    let rest = nat_of(d.digits.drop_first()) * pow10(e);
    assert(is_digit(d.digits[0]));
    assert(rest >= 0) by (nonlinear_arith)
        requires
            rest == nat_of(d.digits.drop_first()) * pow10(e),
    ;
    assert(q <= dv * q + rest && dv * q + rest < 10 * q) by (nonlinear_arith)
        requires
            1 <= dv <= 9,
            0 <= rest < q,
    ;
}

/// Of two numbers without their signs, the one is nearer to zero exactly where
/// its size is the smaller one.
proof fn lemma_smaller_order(a: DecimalView, b: DecimalView, k: int)
    requires
        normal(a),
        normal(b),
        whole_at(a, k),
        whole_at(b, k),
    ensures
        smaller(a, b) <==> size_at(a, k) < size_at(b, k),
        size_at(a, k) >= 0,
        a.digits.len() > 0 ==> size_at(a, k) > 0,
{
    let ea = (k + a.magnitude - a.digits.len()) as nat;
    let eb = (k + b.magnitude - b.digits.len()) as nat;
    if a.digits.len() > 0 {
        lemma_size_bounds(a, k);
        lemma_pow10_positive((k + a.magnitude - 1) as nat);
    } else {
        assert(size_at(a, k) == 0) by (nonlinear_arith)
            requires
                size_at(a, k) == 0 * pow10(ea),
        ;
    }
    if b.digits.len() > 0 {
        lemma_size_bounds(b, k);
        lemma_pow10_positive((k + b.magnitude - 1) as nat);
    } else {
        assert(size_at(b, k) == 0) by (nonlinear_arith)
            requires
                size_at(b, k) == 0 * pow10(eb),
        ;
    }
    if a.digits.len() > 0 && b.digits.len() > 0 {
        if a.magnitude < b.magnitude {
            lemma_pow10_grows((k + a.magnitude) as nat, (k + b.magnitude - 1) as nat);
        } else if b.magnitude < a.magnitude {
            lemma_pow10_grows((k + b.magnitude) as nat, (k + a.magnitude - 1) as nat);
        } else {
            lemma_fraction_order(a.digits, b.digits, (k + a.magnitude) as nat);
        }
    }
}

/// A number is below another exactly where its value is the smaller one.
pub proof fn law_order_is_the_order_of_values(a: DecimalView, b: DecimalView, k: int)
    requires
        normal(a),
        normal(b),
        whole_at(a, k),
        whole_at(b, k),
    ensures
        decimal_less(a, b) <==> scaled(a, k) < scaled(b, k),
{
    lemma_smaller_order(a, b, k);
    lemma_smaller_order(b, a, k);
}

/// The least power of ten at which the value of `d` is a whole number.
pub open spec fn depth(d: DecimalView) -> int {
    if d.digits.len() - d.magnitude > 0 {
        d.digits.len() - d.magnitude
    } else {
        0
    }
}

/// Two numbers are the same exactly where their values are.
pub proof fn law_same_is_the_same_value(a: DecimalView, b: DecimalView, k: int)
    requires
        normal(a),
        normal(b),
        whole_at(a, k),
        whole_at(b, k),
    ensures
        decimal_same(a, b) <==> scaled(a, k) == scaled(b, k),
{
    law_order_is_the_order_of_values(a, b, k);
    law_order_is_the_order_of_values(b, a, k);
}

/// What is below a number that is below a third is below the third.
pub proof fn law_below_is_transitive(a: DecimalView, b: DecimalView, c: DecimalView)
    requires
        normal(a),
        normal(b),
        normal(c),
        decimal_less(a, b),
        decimal_less(b, c),
    ensures
        decimal_less(a, c),
{
    let k = depth(a) + depth(b) + depth(c);
    law_order_is_the_order_of_values(a, b, k);
    law_order_is_the_order_of_values(b, c, k);
    law_order_is_the_order_of_values(a, c, k);
}

/// What is read from a written number is a number as `normal` says.
pub proof fn law_what_is_read_is_normal(s: Seq<char>)
    requires
        is_decimal(s),
    ensures
        normal(decimal_of(s)),
{
    let l = layout(s);
    lemma_digits_end(s, l.int_start);
    if l.int_end < s.len() && s[l.int_end] == '.' {
        lemma_digits_end(s, l.int_end + 1);
    }
    let mantissa = s.subrange(l.int_start, l.int_end) + (if l.int_end < l.frac_end {
        s.subrange(l.int_end + 1, l.frac_end)
    } else {
        Seq::empty()
    });
    assert(all_digits(mantissa)) by {
        assert forall|k: int| 0 <= k < mantissa.len() implies is_digit(#[trigger] mantissa[k]) by {
            if k < l.int_end - l.int_start {
                assert(mantissa[k] == s[l.int_start + k]);
            } else {
                assert(mantissa[k] == s[l.int_end + 1 + (k - (l.int_end - l.int_start))]);
            }
        }
    }
    lemma_zeros_end(mantissa, 0);
    let lead = zeros_end(mantissa, 0);
    let digits = mantissa.skip(lead);
    assert forall|k: int| 0 <= k < digits.len() implies is_digit(#[trigger] digits[k]) by {
        assert(digits[k] == mantissa[lead + k]);
    }
}

proof fn lemma_zeros_end(s: Seq<char>, i: int)
    requires
        0 <= i <= s.len(),
    ensures
        i <= zeros_end(s, i) <= s.len(),
        zeros_end(s, i) < s.len() ==> s[zeros_end(s, i)] != '0',
        zeros_end(s, i) == i <==> (i == s.len() || s[i] != '0'),
    decreases s.len() - i,
{
    if i < s.len() && s[i] == '0' {
        lemma_zeros_end(s, i + 1);
    }
}

proof fn lemma_nat_of_digits_of(n: nat)
    ensures
        nat_of(digits_of(n)) == n,
    decreases n,
{
    let s = digits_of(n);
    let d = if n < 10 {
        n
    } else {
        n % 10
    };
    assert('0' as nat == 48);
    assert((48 + d) as char as nat == 48 + d);
    assert(digit_value(s.last()) == d);
    if n < 10 {
        assert(s.drop_last() =~= Seq::<char>::empty());
        assert(nat_of(s.drop_last()) == 0);
    } else {
        lemma_nat_of_digits_of(n / 10);
        assert(s.drop_last() =~= digits_of(n / 10));
    }
}

proof fn lemma_digits_of_head(n: nat)
    requires
        n > 0,
    ensures
        digits_of(n)[0] != '0',
    decreases n,
{
    if n >= 10 {
        lemma_digits_of_head(n / 10);
        lemma_digits_of(n / 10);
    }
}

/// The digits that write a whole number are read as that number.
pub proof fn law_digits_write_their_number(n: nat)
    ensures
        is_decimal(digits_of(n)),
        whole_at(decimal_of(digits_of(n)), 0),
        scaled(decimal_of(digits_of(n)), 0) == n,
{
    let s = digits_of(n);
    lemma_digits_of(n);
    assert(is_digit(s[0]));
    lemma_digits_to_the_end(s, 0);
    lemma_nat_of_digits_of(n);
    let mantissa = s.subrange(0, s.len() as int) + Seq::<char>::empty();
    assert(mantissa =~= s);
    lemma_zeros_end(s, 0);
    assert(s.subrange(s.len() as int, s.len() as int) =~= Seq::<char>::empty());
    if n == 0 {
        assert(s =~= seq!['0']);
        assert(zeros_end(s, 1) == 1);
        assert(zeros_end(s, 0) == 1);
        assert(s.skip(1) =~= Seq::<char>::empty());
    } else {
        lemma_digits_of_head(n);
        assert(zeros_end(s, 0) == 0);
        assert(s.skip(0) =~= s);
        assert(n * 1 == n) by (nonlinear_arith);
    }
}

/// Whole numbers that are written in digits are in the order of whole numbers.
pub proof fn law_whole_numbers_keep_their_order(a: nat, b: nat)
    ensures
        decimal_less(decimal_of(digits_of(a)), decimal_of(digits_of(b))) <==> a < b,
{
    law_digits_write_their_number(a);
    law_digits_write_their_number(b);
    law_what_is_read_is_normal(digits_of(a));
    law_what_is_read_is_normal(digits_of(b));
    law_order_is_the_order_of_values(decimal_of(digits_of(a)), decimal_of(digits_of(b)), 0);
}

} // verus!

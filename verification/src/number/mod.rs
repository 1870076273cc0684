//! Decimal numbers, read from their written form and put in order.
//!
//! A number is written as an optional sign, digits, an optional fraction and an
//! optional exponent of at most nine digits: `-12.50e3`. It stands for a sign, the
//! significant digits without leading zeros, and a magnitude `m`: the value is
//! `0.d1 d2 d3 ... x 10^m`. Numbers are put in order by sign, then by magnitude,
//! then digit by digit.

pub mod laws;

use vstd::prelude::*;

verus! {

/// A decimal digit.
pub open spec fn is_digit(c: char) -> bool {
    '0' <= c && c <= '9'
}

/// The value of a decimal digit.
pub open spec fn digit_value(c: char) -> nat {
    (c as nat - '0' as nat) as nat
}

/// A sign in front of digits.
pub open spec fn is_sign(c: char) -> bool {
    c == '-' || c == '+'
}

/// The end of the run of digits that starts at `i`.
pub open spec fn digits_end(s: Seq<char>, i: int) -> int
    decreases s.len() - i,
{
    if 0 <= i < s.len() && is_digit(s[i]) {
        digits_end(s, i + 1)
    } else {
        i
    }
}

/// The end of the run of zeros that starts at `i`.
pub open spec fn zeros_end(s: Seq<char>, i: int) -> int
    decreases s.len() - i,
{
    if 0 <= i < s.len() && s[i] == '0' {
        zeros_end(s, i + 1)
    } else {
        i
    }
}

/// The natural number that the digits `s` write.
pub open spec fn nat_of(s: Seq<char>) -> nat
    decreases s.len(),
{
    if s.len() == 0 {
        0
    } else {
        nat_of(s.drop_last()) * 10 + digit_value(s.last())
    }
}

/// The power of ten.
pub open spec fn pow10(n: nat) -> nat
    decreases n,
{
    if n == 0 {
        1
    } else {
        10 * pow10((n - 1) as nat)
    }
}

/// Where the parts of a written number begin and end.
pub struct Layout {
    /// Behind the sign, where the digits before the point begin.
    pub int_start: int,
    /// Where they end.
    pub int_end: int,
    /// Where the digits behind the point end; `int_end` without a point.
    pub frac_end: int,
    /// Behind `e` and its sign, where the exponent's digits begin; `frac_end`
    /// without an exponent.
    pub exp_start: int,
    /// Where they end.
    pub exp_end: int,
}

/// The layout of `s`, read from the left as far as it goes.
pub open spec fn layout(s: Seq<char>) -> Layout {
    let int_start = if s.len() > 0 && is_sign(s[0]) {
        1int
    } else {
        0int
    };
    let int_end = digits_end(s, int_start);
    let frac_end = if int_end < s.len() && s[int_end] == '.' {
        digits_end(s, int_end + 1)
    } else {
        int_end
    };
    let exp_start = if frac_end < s.len() && (s[frac_end] == 'e' || s[frac_end] == 'E') {
        if frac_end + 1 < s.len() && is_sign(s[frac_end + 1]) {
            frac_end + 2
        } else {
            frac_end + 1
        }
    } else {
        frac_end
    };
    let exp_end = if exp_start > frac_end {
        digits_end(s, exp_start)
    } else {
        frac_end
    };
    Layout { int_start, int_end, frac_end, exp_start, exp_end }
}

/// Whether `s` writes a number: there are digits before the point, digits
/// behind a point, between one and nine digits in an exponent, and nothing else.
pub open spec fn is_decimal(s: Seq<char>) -> bool {
    let l = layout(s);
    &&& l.int_start < l.int_end
    &&& (l.int_end < l.frac_end ==> l.int_end + 1 < l.frac_end)
    &&& (l.frac_end < l.exp_start ==> l.exp_start < l.exp_end <= l.exp_start + 9)
    &&& l.exp_end == s.len()
}

/// A number: its sign, its significant digits and its magnitude.
pub struct DecimalView {
    /// Whether the number is below zero.
    pub negative: bool,
    /// The digits from the first that is not zero on; none for zero.
    pub digits: Seq<char>,
    /// The power of ten of the place in front of the first digit; 0 for zero.
    pub magnitude: int,
}

/// The number that `s` writes, for an `s` that writes one.
pub open spec fn decimal_of(s: Seq<char>) -> DecimalView {
    let l = layout(s);
    let mantissa = s.subrange(l.int_start, l.int_end) + (if l.int_end < l.frac_end {
        s.subrange(l.int_end + 1, l.frac_end)
    } else {
        Seq::empty()
    });
    let behind_point = if l.int_end < l.frac_end {
        l.frac_end - l.int_end - 1
    } else {
        0
    };
    let power = nat_of(s.subrange(l.exp_start, l.exp_end)) as int;
    let exponent = if l.frac_end < l.exp_start && s[l.exp_start - 1] == '-' {
        -power
    } else {
        power
    };
    let digits = mantissa.skip(zeros_end(mantissa, 0));
    if digits.len() == 0 {
        DecimalView { negative: false, digits, magnitude: 0 }
    } else {
        DecimalView {
            negative: s[0] == '-',
            digits,
            magnitude: digits.len() + exponent - behind_point,
        }
    }
}

/// Whether some digit of `s` is not zero.
pub open spec fn some_nonzero(s: Seq<char>) -> bool
    decreases s.len(),
{
    s.len() > 0 && (s[0] != '0' || some_nonzero(s.drop_first()))
}

/// Whether the fraction `0.x` is below the fraction `0.y`.
pub open spec fn fraction_less(x: Seq<char>, y: Seq<char>) -> bool
    decreases x.len(),
{
    if y.len() == 0 {
        false
    } else if x.len() == 0 {
        some_nonzero(y)
    } else if x[0] != y[0] {
        x[0] < y[0]
    } else {
        fraction_less(x.drop_first(), y.drop_first())
    }
}

/// Whether `a` is nearer to zero than `b`.
pub open spec fn smaller(a: DecimalView, b: DecimalView) -> bool {
    if a.digits.len() == 0 {
        b.digits.len() > 0
    } else if b.digits.len() == 0 {
        false
    } else if a.magnitude != b.magnitude {
        a.magnitude < b.magnitude
    } else {
        fraction_less(a.digits, b.digits)
    }
}

/// Whether `a` is below `b`.
pub open spec fn decimal_less(a: DecimalView, b: DecimalView) -> bool {
    if a.negative != b.negative {
        a.negative
    } else if a.negative {
        smaller(b, a)
    } else {
        smaller(a, b)
    }
}

/// Whether `a` and `b` are the same number.
pub open spec fn decimal_same(a: DecimalView, b: DecimalView) -> bool {
    !decimal_less(a, b) && !decimal_less(b, a)
}

/// The digits that write `n`, without leading zeros.
pub open spec fn digits_of(n: nat) -> Seq<char>
    decreases n,
{
    if n < 10 {
        seq![('0' as nat + n) as char]
    } else {
        digits_of(n / 10).push(('0' as nat + n % 10) as char)
    }
}

/// The written form of `n`: its digits, behind a `-` where it is below zero.
pub open spec fn int_text(n: int) -> Seq<char> {
    if n < 0 {
        seq!['-'] + digits_of((-n) as nat)
    } else {
        digits_of(n as nat)
    }
}

/// A run of digits ends in the text, with digits only before its end and
/// something else, or the end of the text, behind it.
pub proof fn lemma_digits_end(s: Seq<char>, i: int)
    requires
        0 <= i <= s.len(),
    ensures
        i <= digits_end(s, i) <= s.len(),
        forall|k: int| i <= k < digits_end(s, i) ==> is_digit(#[trigger] s[k]),
        digits_end(s, i) < s.len() ==> !is_digit(s[digits_end(s, i)]),
    decreases s.len() - i,
{
    if i < s.len() && is_digit(s[i]) {
        lemma_digits_end(s, i + 1);
    }
}

/// Where digits only follow, the run of digits ends with the text.
pub proof fn lemma_digits_to_the_end(s: Seq<char>, i: int)
    requires
        0 <= i <= s.len(),
        forall|k: int| i <= k < s.len() ==> is_digit(#[trigger] s[k]),
    ensures
        digits_end(s, i) == s.len(),
    decreases s.len() - i,
{
    if i < s.len() {
        lemma_digits_to_the_end(s, i + 1);
    }
}

/// The digits that write a natural number are digits, at least one.
pub proof fn lemma_digits_of(n: nat)
    ensures
        digits_of(n).len() >= 1,
        forall|k: int| 0 <= k < digits_of(n).len() ==> is_digit(#[trigger] digits_of(n)[k]),
    decreases n,
{
    if n >= 10 {
        lemma_digits_of(n / 10);
    }
}

/// The digits that write a natural number write a number.
pub proof fn lemma_digits_of_is_decimal(n: nat)
    ensures
        is_decimal(digits_of(n)),
{
    lemma_digits_of(n);
    let s = digits_of(n);
    assert(is_digit(s[0]));
    lemma_digits_to_the_end(s, 0);
}

/// The powers of ten grow.
pub proof fn lemma_pow10_grows(a: nat, b: nat)
    requires
        a <= b,
    ensures
        pow10(a) <= pow10(b),
    decreases b,
{
    if a < b {
        lemma_pow10_grows(a, (b - 1) as nat);
    }
}

/// No number is below itself.
pub proof fn law_no_number_is_below_itself(a: DecimalView)
    ensures
        !decimal_less(a, a),
{
    lemma_fraction_less_irreflexive(a.digits);
}

/// No fraction is below itself.
pub proof fn lemma_fraction_less_irreflexive(x: Seq<char>)
    ensures
        !fraction_less(x, x),
    decreases x.len(),
{
    if x.len() > 0 {
        lemma_fraction_less_irreflexive(x.drop_first());
    }
}

/// Of two fractions at most one is below the other.
pub proof fn lemma_fraction_less_asymmetric(x: Seq<char>, y: Seq<char>)
    requires
        fraction_less(x, y),
    ensures
        !fraction_less(y, x),
    decreases x.len(),
{
    if x.len() > 0 && y.len() > 0 && x[0] == y[0] {
        lemma_fraction_less_asymmetric(x.drop_first(), y.drop_first());
    } else if x.len() == 0 {
        lemma_nothing_below_zero(y);
    }
}

/// No fraction is below zero.
pub proof fn lemma_nothing_below_zero(y: Seq<char>)
    ensures
        !fraction_less(y, Seq::empty()),
{
}

/// Of two numbers at most one is below the other.
pub proof fn law_below_is_one_way(a: DecimalView, b: DecimalView)
    requires
        decimal_less(a, b),
    ensures
        !decimal_less(b, a),
{
    if a.negative == b.negative {
        if a.negative {
            if b.digits.len() > 0 && a.digits.len() > 0 && a.magnitude == b.magnitude {
                lemma_fraction_less_asymmetric(b.digits, a.digits);
            }
        } else {
            if b.digits.len() > 0 && a.digits.len() > 0 && a.magnitude == b.magnitude {
                lemma_fraction_less_asymmetric(a.digits, b.digits);
            }
        }
    }
}

/// A number in the form in which it is compared.
#[derive(Debug)]
pub struct Decimal {
    /// Whether the number is below zero.
    pub negative: bool,
    /// The digits from the first that is not zero on; none for zero.
    pub digits: Vec<char>,
    /// The power of ten of the place in front of the first digit; 0 for zero.
    pub magnitude: i128,
}

impl View for Decimal {
    type V = DecimalView;

    open spec fn view(&self) -> DecimalView {
        DecimalView { negative: self.negative, digits: self.digits@, magnitude: self.magnitude as int }
    }
}

/// Whether `c` is a decimal digit.
pub fn digit(c: char) -> (b: bool)
    ensures
        b == is_digit(c),
{
    '0' <= c && c <= '9'
}

/// The end of the run of digits of `s` that starts at `i`.
pub fn scan_digits(s: &Vec<char>, i: usize) -> (end: usize)
    requires
        i <= s.len(),
    ensures
        end == digits_end(s@, i as int),
        i <= end <= s.len(),
{
    let mut k: usize = i;
    while k < s.len() && digit(s[k])
        invariant
            i <= k <= s.len(),
            digits_end(s@, i as int) == digits_end(s@, k as int),
        decreases s.len() - k,
    {
        k += 1;
    }
    k
}

/// The number that at most nine digits write.
fn small_nat(s: &Vec<char>, from: usize, to: usize) -> (n: u64)
    requires
        from <= to <= s.len(),
        to - from <= 9,
        forall|k: int| from <= k < to ==> is_digit(#[trigger] s@[k]),
    ensures
        n == nat_of(s@.subrange(from as int, to as int)),
        n < 1_000_000_000,
{
    let mut n: u64 = 0;
    let mut i: usize = from;
    proof {
        reveal_with_fuel(pow10, 10);
        assert(pow10(9) == 1_000_000_000);
    }
    while i < to
        invariant
            from <= i <= to <= s.len(),
            to - from <= 9,
            forall|k: int| from <= k < to ==> is_digit(#[trigger] s@[k]),
            n == nat_of(s@.subrange(from as int, i as int)),
            n < pow10((i - from) as nat),
            pow10(9) == 1_000_000_000,
        decreases to - i,
    {
        proof {
            lemma_pow10_grows((i - from) as nat, 8);
            lemma_pow10_grows((i + 1 - from) as nat, 9);
            let next = s@.subrange(from as int, i + 1);
            assert(next.drop_last() =~= s@.subrange(from as int, i as int));
            assert(next.last() == s@[i as int]);
        }
        let d: u64 = (s[i] as u32 - '0' as u32) as u64;
        n = n * 10 + d;
        i += 1;
    }
    proof {
        lemma_pow10_grows((to - from) as nat, 9);
    }
    n
}

/// Where the parts of a written number begin and end.
struct Spans {
    int_start: usize,
    int_end: usize,
    frac_end: usize,
    exp_start: usize,
    exp_end: usize,
}

impl Spans {
    spec fn matches_layout(&self, l: Layout) -> bool {
        &&& self.int_start == l.int_start
        &&& self.int_end == l.int_end
        &&& self.frac_end == l.frac_end
        &&& self.exp_start == l.exp_start
        &&& self.exp_end == l.exp_end
    }
}

/// The layout of `s`, if `s` writes a number.
fn read_layout(s: &Vec<char>) -> (r: Option<Spans>)
    ensures
        r is Some <==> is_decimal(s@),
        r matches Some(l) ==> l.matches_layout(layout(s@)),
{
    let n = s.len();
    let int_start: usize = if n > 0 && (s[0] == '-' || s[0] == '+') {
        1
    } else {
        0
    };
    let int_end = scan_digits(s, int_start);
    if int_end == int_start {
        return None;
    }
    let frac_end = if int_end < n && s[int_end] == '.' {
        scan_digits(s, int_end + 1)
    } else {
        int_end
    };
    if int_end < frac_end && frac_end == int_end + 1 {
        return None;
    }
    let exp_start = if frac_end < n && (s[frac_end] == 'e' || s[frac_end] == 'E') {
        if frac_end + 1 < n && (s[frac_end + 1] == '-' || s[frac_end + 1] == '+') {
            frac_end + 2
        } else {
            frac_end + 1
        }
    } else {
        frac_end
    };
    let exp_end = if exp_start > frac_end {
        scan_digits(s, exp_start)
    } else {
        frac_end
    };
    if exp_end != n {
        return None;
    }
    if frac_end < exp_start && (exp_end == exp_start || exp_end - exp_start > 9) {
        return None;
    }
    Some(Spans { int_start, int_end, frac_end, exp_start, exp_end })
}

/// `s[from..to]` without `s[skip]`, from its first character that is not `0` on.
fn significant(s: &Vec<char>, from: usize, skip: usize, to: usize) -> (digits: Vec<char>)
    requires
        from <= skip <= to <= s.len(),
    ensures
        ({
            let whole = s@.subrange(from as int, skip as int) + (if skip < to {
                s@.subrange(skip + 1, to as int)
            } else {
                Seq::empty()
            });
            digits@ == whole.skip(zeros_end(whole, 0))
        }),
{
    let mut whole: Vec<char> = Vec::new();
    let mut i: usize = from;
    while i < skip
        invariant
            from <= i <= skip <= s.len(),
            whole@ == s@.subrange(from as int, i as int),
        decreases skip - i,
    {
        whole.push(s[i]);
        i += 1;
    }
    if skip < to {
        let mut j: usize = skip + 1;
        while j < to
            invariant
                skip + 1 <= j <= to <= s.len(),
                whole@ == s@.subrange(from as int, skip as int) + s@.subrange(skip + 1, j as int),
            decreases to - j,
        {
            whole.push(s[j]);
            j += 1;
        }
    } else {
        assert(whole@ =~= s@.subrange(from as int, skip as int) + Seq::<char>::empty());
    }
    let mut lead: usize = 0;
    while lead < whole.len() && whole[lead] == '0'
        invariant
            lead <= whole.len(),
            zeros_end(whole@, 0) == zeros_end(whole@, lead as int),
        decreases whole.len() - lead,
    {
        lead += 1;
    }
    let mut digits: Vec<char> = Vec::new();
    let mut k: usize = lead;
    while k < whole.len()
        invariant
            lead <= k <= whole.len(),
            digits@ == whole@.subrange(lead as int, k as int),
        decreases whole.len() - k,
    {
        digits.push(whole[k]);
        k += 1;
    }
    assert(digits@ =~= whole@.skip(lead as int));
    digits
}

/// The number that `s` writes, if it writes one.
pub fn parse_decimal(s: &Vec<char>) -> (r: Option<Decimal>)
    ensures
        r is Some <==> is_decimal(s@),
        r matches Some(d) ==> d@ == decimal_of(s@),
{
    let l = match read_layout(s) {
        None => {
            return None;
        },
        Some(l) => l,
    };
    proof {
        lemma_digits_end(s@, l.exp_start as int);
    }
    let power: u64 = small_nat(s, l.exp_start, l.exp_end);
    let exponent: i128 = if l.frac_end < l.exp_start && s[l.exp_start - 1] == '-' {
        -(power as i128)
    } else {
        power as i128
    };
    let behind_point: usize = if l.int_end < l.frac_end {
        l.frac_end - l.int_end - 1
    } else {
        0
    };
    let digits = significant(s, l.int_start, l.int_end, l.frac_end);
    if digits.len() == 0 {
        Some(Decimal { negative: false, digits, magnitude: 0 })
    } else {
        let magnitude: i128 = digits.len() as i128 + exponent - behind_point as i128;
        Some(Decimal { negative: s[0] == '-', digits, magnitude })
    }
}

impl Decimal {
    /// Whether `self` is below `other`.
    pub fn less(&self, other: &Decimal) -> (r: bool)
        ensures
            r == decimal_less(self@, other@),
    {
        if self.negative != other.negative {
            self.negative
        } else if self.negative {
            nearer_zero(other, self)
        } else {
            nearer_zero(self, other)
        }
    }

    /// Whether `self` and `other` are the same number.
    pub fn same(&self, other: &Decimal) -> (r: bool)
        ensures
            r == decimal_same(self@, other@),
    {
        !self.less(other) && !other.less(self)
    }
}

/// Whether some digit of `s[from..]` is not zero.
fn any_nonzero(s: &Vec<char>, from: usize) -> (r: bool)
    requires
        from <= s.len(),
    ensures
        r == some_nonzero(s@.skip(from as int)),
{
    let mut i: usize = from;
    while i < s.len()
        invariant
            from <= i <= s.len(),
            some_nonzero(s@.skip(from as int)) == some_nonzero(s@.skip(i as int)),
        decreases s.len() - i,
    {
        assert(s@.skip(i as int).drop_first() =~= s@.skip(i + 1));
        if s[i] != '0' {
            return true;
        }
        i += 1;
    }
    false
}

/// Whether `a` is nearer to zero than `b`.
fn nearer_zero(a: &Decimal, b: &Decimal) -> (r: bool)
    ensures
        r == smaller(a@, b@),
{
    if a.digits.len() == 0 {
        return b.digits.len() > 0;
    }
    if b.digits.len() == 0 {
        return false;
    }
    if a.magnitude != b.magnitude {
        return a.magnitude < b.magnitude;
    }
    let x = &a.digits;
    let y = &b.digits;
    let mut i: usize = 0;
    assert(x@.skip(0) =~= x@ && y@.skip(0) =~= y@);
    while i < x.len() && i < y.len()
        invariant
            i <= x.len(),
            i <= y.len(),
            smaller(a@, b@) == fraction_less(x@.skip(i as int), y@.skip(i as int)),
        decreases x.len() - i,
    {
        assert(x@.skip(i as int).drop_first() =~= x@.skip(i + 1));
        assert(y@.skip(i as int).drop_first() =~= y@.skip(i + 1));
        assert(x@.skip(i as int)[0] == x@[i as int] && y@.skip(i as int)[0] == y@[i as int]);
        if x[i] != y[i] {
            return x[i] < y[i];
        }
        i += 1;
    }
    if i < y.len() {
        any_nonzero(y, i)
    } else {
        false
    }
}

/// The digits that write `n`.
pub fn count_digits(n: u64) -> (out: Vec<char>)
    ensures
        out@ == digits_of(n as nat),
    decreases n,
{
    if n < 10 {
        let mut out: Vec<char> = Vec::new();
        out.push(digit_char(n as u8));
        out
    } else {
        let mut out = count_digits(n / 10);
        out.push(digit_char((n % 10) as u8));
        out
    }
}

/// The written form of `n`: its digits, behind a `-` where it is below zero.
pub fn write_int(n: i64) -> (out: String)
    ensures
        out@ == int_text(n as int),
{
    let size: u64 = if n < 0 {
        (-(n as i128)) as u64
    } else {
        n as u64
    };
    let digits = count_digits(size);
    let mut out = String::new();
    if n < 0 {
        out.push('-');
    }
    let mut i: usize = 0;
    while i < digits.len()
        invariant
            i <= digits.len(),
            out@ == (if n < 0 {
                seq!['-']
            } else {
                Seq::empty()
            }) + digits@.take(i as int),
        decreases digits.len() - i,
    {
        out.push(digits[i]);
        assert(digits@.take(i + 1) =~= digits@.take(i as int).push(digits@[i as int]));
        i += 1;
    }
    assert(digits@.take(i as int) =~= digits@);
    assert(Seq::<char>::empty() + digits@ =~= digits@);
    out
}

/// The digit that writes `d`.
fn digit_char(d: u8) -> (c: char)
    requires
        d < 10,
    ensures
        c == ('0' as nat + d as nat) as char,
{
    if d == 0 {
        '0'
    } else if d == 1 {
        '1'
    } else if d == 2 {
        '2'
    } else if d == 3 {
        '3'
    } else if d == 4 {
        '4'
    } else if d == 5 {
        '5'
    } else if d == 6 {
        '6'
    } else if d == 7 {
        '7'
    } else if d == 8 {
        '8'
    } else {
        '9'
    }
}

} // verus!

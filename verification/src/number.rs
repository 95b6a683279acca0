//! Decimal numerals and the quantities that they stand for.

use crate::text::chars_of;
use vstd::arithmetic::div_mod::lemma_div_denominator;
use vstd::arithmetic::div_mod::lemma_fundamental_div_mod;
use vstd::arithmetic::div_mod::lemma_fundamental_div_mod_converse;
use vstd::arithmetic::div_mod::lemma_mod_bound;
use vstd::prelude::*;

verus! {

/// How many units make up the value one.
pub const UNITS_PER_ONE: i64 = 1_000_000_000;

/// Digits kept after the decimal point: `UNITS_PER_ONE` is ten to this power.
pub const FRACTION_DIGITS: u64 = 9;

/// The longest exponent that a numeral may carry, in digits.
pub const MAX_EXPONENT_DIGITS: usize = 3;

/// A decimal quantity in billionths: a duration in seconds or a ratio.
///
/// The service reports durations and ratios as decimal numerals. They are
/// kept as whole numbers of billionths so that they can be compared and
/// subtracted exactly; digits beyond the ninth decimal place are dropped.
#[derive(Clone, Copy, Debug, PartialEq, Eq, Structural)]
pub struct Fixed {
    pub units: i64,
}

pub open spec fn is_digit(c: char) -> bool {
    '0' <= c <= '9'
}

/// The value of a decimal digit; zero for any other character.
pub open spec fn digit_value(c: char) -> nat {
    if is_digit(c) {
        (c as u32 - 48) as nat
    } else {
        0
    }
}

pub open spec fn all_digits(s: Seq<char>) -> bool {
    forall|i: int| 0 <= i < s.len() ==> is_digit(#[trigger] s[i])
}

/// The number that results from writing `digits` behind the numeral of `start`.
pub open spec fn numeral_from(start: nat, digits: Seq<char>) -> nat
    decreases digits.len(),
{
    if digits.len() == 0 {
        start
    } else {
        numeral_from(start, digits.drop_last()) * 10 + digit_value(digits.last())
    }
}

/// The number that a run of decimal digits denotes.
pub open spec fn numeral(digits: Seq<char>) -> nat {
    numeral_from(0, digits)
}

pub open spec fn pow10(n: nat) -> nat
    decreases n,
{
    if n == 0 {
        1
    } else {
        10 * pow10((n - 1) as nat)
    }
}

/// A decimal numeral taken apart: its value is `coefficient * 10^exponent`,
/// negated where `negative` holds.
pub struct Decimal {
    pub negative: bool,
    pub coefficient: nat,
    pub exponent: int,
}

/// The exponent of a numeral: `e` or `E`, a sign or none, and digits.
pub struct Exponent {
    pub capital: bool,
    /// `Some(true)` for `-`, `Some(false)` for `+`.
    pub sign: Option<bool>,
    pub digits: Seq<char>,
}

/// A decimal numeral by its parts.
pub struct Numeral {
    pub negative: bool,
    pub whole: Seq<char>,
    pub fraction: Option<Seq<char>>,
    pub exponent: Option<Exponent>,
}

impl Exponent {
    pub open spec fn text(self) -> Seq<char> {
        seq![if self.capital { 'E' } else { 'e' }] + match self.sign {
            Some(true) => seq!['-'],
            Some(false) => seq!['+'],
            None => Seq::empty(),
        } + self.digits
    }

    pub open spec fn power(self) -> int {
        if self.sign == Some(true) {
            -(numeral(self.digits) as int)
        } else {
            numeral(self.digits) as int
        }
    }
}

impl Numeral {
    /// Every part holds digits only and at least one of them, and the
    /// exponent at most `MAX_EXPONENT_DIGITS`.
    pub open spec fn is_well_formed(self) -> bool {
        &&& self.whole.len() > 0
        &&& all_digits(self.whole)
        &&& match self.fraction {
            Some(fraction) => fraction.len() > 0 && all_digits(fraction),
            None => true,
        }
        &&& match self.exponent {
            Some(exponent) => 0 < exponent.digits.len() <= MAX_EXPONENT_DIGITS && all_digits(
                exponent.digits,
            ),
            None => true,
        }
    }

    /// The numeral as it is written.
    pub open spec fn text(self) -> Seq<char> {
        (if self.negative { seq!['-'] } else { Seq::empty() }) + self.whole + match self.fraction {
            Some(fraction) => seq!['.'] + fraction,
            None => Seq::empty(),
        } + match self.exponent {
            Some(exponent) => exponent.text(),
            None => Seq::empty(),
        }
    }

    /// The decimal that the numeral stands for.
    pub open spec fn decimal(self) -> Decimal {
        let fraction = match self.fraction {
            Some(fraction) => fraction,
            None => Seq::empty(),
        };
        let power = match self.exponent {
            Some(exponent) => exponent.power(),
            None => 0,
        };
        Decimal {
            negative: self.negative,
            coefficient: numeral(self.whole + fraction),
            exponent: power - fraction.len(),
        }
    }
}

/// Where the run of digits that starts at `from` ends.
pub open spec fn digits_end(s: Seq<char>, from: int) -> int
    decreases s.len() - from,
{
    if 0 <= from < s.len() && is_digit(s[from]) {
        digits_end(s, from + 1)
    } else {
        from
    }
}

/// Where the parts of a decimal numeral lie in its text: the digits
/// before the point, the digits behind it, and the digits of the exponent,
/// each from its first character up to the one behind its last.
pub struct Layout {
    pub negative: bool,
    pub whole_start: int,
    pub whole_end: int,
    pub fraction_start: int,
    pub fraction_end: int,
    /// Whether the exponent has a minus sign.
    pub downwards: bool,
    pub exponent_start: int,
    pub exponent_end: int,
}

/// Takes `s` apart as a decimal numeral: an optional `-`, digits, an
/// optional fraction of `.` and digits, and an optional exponent of `e` or
/// `E`, an optional sign and at most `MAX_EXPONENT_DIGITS` digits. `None`
/// for any other text.
pub open spec fn layout_of(s: Seq<char>) -> Option<Layout> {
    let negative = s.len() > 0 && s[0] == '-';
    let whole_start: int = if negative { 1 } else { 0 };
    let whole_end = digits_end(s, whole_start);
    let has_fraction = whole_end < s.len() && s[whole_end] == '.';
    let fraction_start = if has_fraction { whole_end + 1 } else { whole_end };
    let fraction_end = digits_end(s, fraction_start);
    let has_exponent = fraction_end < s.len() && (s[fraction_end] == 'e' || s[fraction_end] == 'E');
    let sign_at = fraction_end + 1;
    let signed = has_exponent && sign_at < s.len() && (s[sign_at] == '-' || s[sign_at] == '+');
    let exponent_start = if !has_exponent {
        fraction_end
    } else if signed {
        sign_at + 1
    } else {
        sign_at
    };
    let exponent_end = digits_end(s, exponent_start);
    if whole_end == whole_start {
        None
    } else if has_fraction && fraction_end == fraction_start {
        None
    } else if has_exponent && (exponent_end == exponent_start || exponent_end - exponent_start
        > MAX_EXPONENT_DIGITS) {
        None
    } else if exponent_end != s.len() {
        None
    } else {
        Some(
            Layout {
                negative,
                whole_start,
                whole_end,
                fraction_start,
                fraction_end,
                downwards: signed && s[sign_at] == '-',
                exponent_start,
                exponent_end,
            },
        )
    }
}

/// The decimal that `s` is the numeral of, if it is one.
pub open spec fn read_decimal(s: Seq<char>) -> Option<Decimal> {
    match layout_of(s) {
        Some(at) => {
            let whole = s.subrange(at.whole_start, at.whole_end);
            let fraction = s.subrange(at.fraction_start, at.fraction_end);
            let written = numeral(s.subrange(at.exponent_start, at.exponent_end)) as int;
            let power = if at.downwards { -written } else { written };
            Some(
                Decimal {
                    negative: at.negative,
                    coefficient: numeral(whole + fraction),
                    exponent: power - fraction.len(),
                },
            )
        },
        None => None,
    }
}

/// `coefficient * 10^shift`, rounded towards zero.
pub open spec fn shifted(coefficient: nat, shift: int) -> nat {
    if shift >= 0 {
        coefficient * pow10(shift as nat)
    } else {
        coefficient / pow10((-shift) as nat)
    }
}

/// The size of `coefficient * 10^exponent` in billionths, rounded towards zero.
pub open spec fn scaled(coefficient: nat, exponent: int) -> nat {
    shifted(coefficient, exponent + FRACTION_DIGITS)
}

impl Decimal {
    /// Whether the value lies between zero and one, both included. The
    /// value is taken as it is written: no digit is dropped.
    pub open spec fn is_within_unit(self) -> bool {
        self.coefficient == 0 || (!self.negative && if self.exponent >= 0 {
            self.coefficient * pow10(self.exponent as nat) <= 1
        } else {
            self.coefficient <= pow10((-self.exponent) as nat)
        })
    }
}

/// Whether `s` is a decimal numeral whose value lies between zero and one,
/// both included.
pub open spec fn is_unit_numeral(s: Seq<char>) -> bool {
    match read_decimal(s) {
        Some(d) => d.is_within_unit(),
        None => false,
    }
}

/// Whether `s` holds nothing but the digit zero.
pub open spec fn zeros(s: Seq<char>) -> bool {
    forall|i: int| 0 <= i < s.len() ==> #[trigger] s[i] == '0'
}

/// The billionths that a decimal stands for, where they fit in 64 bits.
pub open spec fn units_of(d: Decimal) -> Option<int> {
    let size = scaled(d.coefficient, d.exponent);
    if size > i64::MAX {
        None
    } else if d.negative {
        Some(-(size as int))
    } else {
        Some(size as int)
    }
}

/// The billionths that the numeral `s` stands for: `None` where `s` is no
/// decimal numeral or its value does not fit.
pub open spec fn units_of_text(s: Seq<char>) -> Option<int> {
    match read_decimal(s) {
        Some(d) => units_of(d),
        None => None,
    }
}

/// A run of digits ends at the end of the text or before a character that
/// is no digit.
pub proof fn lemma_digits_end(s: Seq<char>, from: int)
    requires
        0 <= from <= s.len(),
    ensures
        from <= digits_end(s, from) <= s.len(),
        digits_end(s, from) < s.len() ==> !is_digit(s[digits_end(s, from)]),
        digits_end(s, digits_end(s, from)) == digits_end(s, from),
        forall|i: int| from <= i < digits_end(s, from) ==> is_digit(#[trigger] s[i]),
    decreases s.len() - from,
{
    if from < s.len() && is_digit(s[from]) {
        lemma_digits_end(s, from + 1);
    }
}

/// A stretch of digits that ends where the text ends or before a
/// character that is no digit is one run.
proof fn lemma_digits_run(s: Seq<char>, from: int, to: int)
    requires
        0 <= from <= to <= s.len(),
        forall|i: int| from <= i < to ==> is_digit(#[trigger] s[i]),
        to == s.len() || !is_digit(s[to]),
    ensures
        digits_end(s, from) == to,
    decreases to - from,
{
    if from < to {
        lemma_digits_run(s, from + 1, to);
    }
}

/// Every well-formed numeral is read as the decimal that it stands for.
#[verifier::rlimit(50)]
pub proof fn lemma_numerals_are_read(n: Numeral)
    requires
        n.is_well_formed(),
    ensures
        read_decimal(n.text()) == Some(n.decimal()),
{
    let sign: Seq<char> = if n.negative { seq!['-'] } else { Seq::empty() };
    let fraction: Seq<char> = match n.fraction {
        Some(fraction) => fraction,
        None => Seq::empty(),
    };
    let point: Seq<char> = if n.fraction is Some { seq!['.'] } else { Seq::empty() };
    let mark: Seq<char> = match n.exponent {
        Some(exponent) => seq![if exponent.capital { 'E' } else { 'e' }],
        None => Seq::empty(),
    };
    let minus_or_plus: Seq<char> = match n.exponent {
        Some(exponent) => match exponent.sign {
            Some(true) => seq!['-'],
            Some(false) => seq!['+'],
            None => Seq::empty(),
        },
        None => Seq::empty(),
    };
    let digits: Seq<char> = match n.exponent {
        Some(exponent) => exponent.digits,
        None => Seq::empty(),
    };
    let s = n.text();
    assert(s =~= sign + n.whole + point + fraction + mark + minus_or_plus + digits);
    let whole_start: int = sign.len() as int;
    let whole_end: int = whole_start + n.whole.len();
    let fraction_start: int = whole_end + point.len();
    let fraction_end: int = fraction_start + fraction.len();
    let exponent_start: int = fraction_end + mark.len() + minus_or_plus.len();
    let exponent_end: int = exponent_start + digits.len();
    assert(exponent_end == s.len());
    assert forall|i: int| whole_start <= i < whole_end implies is_digit(#[trigger] s[i]) by {
        assert(s[i] == n.whole[i - whole_start]);
    }
    assert forall|i: int| fraction_start <= i < fraction_end implies is_digit(#[trigger] s[i]) by {
        assert(s[i] == fraction[i - fraction_start]);
    }
    assert forall|i: int| exponent_start <= i < exponent_end implies is_digit(#[trigger] s[i]) by {
        assert(s[i] == digits[i - exponent_start]);
    }
    assert(s[0] == '-' <==> n.negative) by {
        if !n.negative {
            assert(s[0] == n.whole[0]);
        }
    }
    if whole_end < s.len() {
        assert(!is_digit(s[whole_end])) by {
            if n.fraction is Some {
                assert(s[whole_end] == '.');
            } else {
                assert(n.exponent is Some);
                assert(s[whole_end] == mark[0]);
            }
        }
        assert(s[whole_end] == '.' <==> n.fraction is Some);
    }
    lemma_digits_run(s, whole_start, whole_end);
    if fraction_end < s.len() {
        assert(n.exponent is Some);
        assert(s[fraction_end] == mark[0]);
    }
    lemma_digits_run(s, fraction_start, fraction_end);
    if n.exponent is Some {
        let sign_at = fraction_end + 1;
        assert(sign_at < s.len());
        if minus_or_plus.len() > 0 {
            assert(s[sign_at] == minus_or_plus[0]);
        } else {
            assert(s[sign_at] == digits[0]);
        }
    }
    lemma_digits_run(s, exponent_start, exponent_end);
    assert(s.subrange(whole_start, whole_end) =~= n.whole);
    assert(s.subrange(fraction_start, fraction_end) =~= fraction);
    assert(s.subrange(exponent_start, exponent_end) =~= digits);
    assert(numeral(Seq::<char>::empty()) == 0);
    let at = layout_of(s);
    assert(at == Some(
        Layout {
            negative: n.negative,
            whole_start,
            whole_end,
            fraction_start,
            fraction_end,
            downwards: n.exponent is Some && n.exponent->0.sign == Some(true),
            exponent_start,
            exponent_end,
        },
    ));
}

/// Whatever is read as a decimal is a well-formed numeral.
#[verifier::rlimit(50)]
pub proof fn lemma_what_is_read_is_a_numeral(s: Seq<char>)
    requires
        read_decimal(s) is Some,
    ensures
        exists|n: Numeral| n.is_well_formed() && #[trigger] n.text() == s,
{
    let at = layout_of(s)->0;
    lemma_digits_end(s, at.whole_start);
    lemma_digits_end(s, at.fraction_start);
    lemma_digits_end(s, at.exponent_start);
    let has_fraction = at.fraction_start > at.whole_end;
    let has_exponent = at.exponent_start > at.fraction_end;
    let signed = at.exponent_start > at.fraction_end + 1;
    let n = Numeral {
        negative: at.negative,
        whole: s.subrange(at.whole_start, at.whole_end),
        fraction: if has_fraction {
            Some(s.subrange(at.fraction_start, at.fraction_end))
        } else {
            None
        },
        exponent: if has_exponent {
            Some(
                Exponent {
                    capital: s[at.fraction_end] == 'E',
                    sign: if signed { Some(at.downwards) } else { None },
                    digits: s.subrange(at.exponent_start, at.exponent_end),
                },
            )
        } else {
            None
        },
    };
    assert(n.text() =~= s);
    assert(n.is_well_formed());
}

/// The first `count` digits of the digits `whole + fraction` followed by
/// zeros without end, read as a number.
pub open spec fn leading_digits(whole: Seq<char>, fraction: Seq<char>, count: int) -> nat {
    let from_whole = if count <= 0 {
        0
    } else if count >= whole.len() {
        whole.len() as int
    } else {
        count
    };
    let left = count - whole.len();
    let from_fraction = if left <= 0 {
        0
    } else if left >= fraction.len() {
        fraction.len() as int
    } else {
        left
    };
    let zeros = if left - fraction.len() <= 0 { 0 } else { left - fraction.len() };
    numeral_from(numeral(whole.take(from_whole)), fraction.take(from_fraction)) * pow10(
        zeros as nat,
    )
}

pub proof fn lemma_pow10_positive(n: nat)
    ensures
        pow10(n) >= 1,
    decreases n,
{
    if n > 0 {
        lemma_pow10_positive((n - 1) as nat);
    }
}

pub proof fn lemma_pow10_grows(m: nat, n: nat)
    requires
        m <= n,
    ensures
        pow10(m) <= pow10(n),
    decreases n,
{
    if m < n {
        lemma_pow10_grows(m, (n - 1) as nat);
        lemma_pow10_positive((n - 1) as nat);
    }
}

/// Writing digits behind a number never makes it smaller.
pub proof fn lemma_numeral_from_grows(start: nat, digits: Seq<char>)
    ensures
        numeral_from(start, digits) >= start,
    decreases digits.len(),
{
    if digits.len() > 0 {
        lemma_numeral_from_grows(start, digits.drop_last());
    }
}

/// A longer run of digits behind the same number gives at least as much.
pub proof fn lemma_numeral_prefix(start: nat, digits: Seq<char>, k: int)
    requires
        0 <= k <= digits.len(),
    ensures
        numeral_from(start, digits.take(k)) <= numeral_from(start, digits),
    decreases digits.len(),
{
    if k == digits.len() {
        assert(digits.take(k) =~= digits);
    } else {
        lemma_numeral_prefix(start, digits.drop_last(), k);
        assert(digits.drop_last().take(k) =~= digits.take(k));
    }
}

/// Reading `a` and then `b` is reading the two written one behind the other.
pub proof fn lemma_numeral_concat(start: nat, a: Seq<char>, b: Seq<char>)
    ensures
        numeral_from(numeral_from(start, a), b) == numeral_from(start, a + b),
    decreases b.len(),
{
    if b.len() == 0 {
        assert(a + b =~= a);
    } else {
        lemma_numeral_concat(start, a, b.drop_last());
        assert((a + b).drop_last() =~= a + b.drop_last());
        assert((a + b).last() == b.last());
    }
}

/// A run of digits denotes less than ten to the power of its length.
pub proof fn lemma_numeral_bound(digits: Seq<char>)
    ensures
        numeral(digits) < pow10(digits.len()),
    decreases digits.len(),
{
    if digits.len() > 0 {
        lemma_numeral_bound(digits.drop_last());
    }
}

/// Dropping the last digits of a numeral divides by a power of ten.
pub proof fn lemma_numeral_truncate(digits: Seq<char>, k: int)
    requires
        0 <= k <= digits.len(),
    ensures
        numeral(digits) / pow10((digits.len() - k) as nat) == numeral(digits.take(k)),
    decreases digits.len(),
{
    if k == digits.len() {
        assert(digits.take(k) =~= digits);
        let all = numeral(digits) as int;
        let one = pow10((digits.len() - k) as nat) as int;
        assert(one == 1);
        assert(all / one == all) by (nonlinear_arith)
            requires
                one == 1,
        ;
    } else {
        let shorter = digits.drop_last();
        let rest = pow10((shorter.len() - k) as nat) as int;
        let all = numeral(digits) as int;
        let most = numeral(shorter) as int;
        let last = digit_value(digits.last()) as int;
        lemma_numeral_truncate(shorter, k);
        lemma_pow10_positive((shorter.len() - k) as nat);
        assert(shorter.take(k) =~= digits.take(k));
        assert(all == most * 10 + last);
        lemma_fundamental_div_mod_converse(all, 10, most, last);
        assert(all / 10 == most);
        lemma_div_denominator(all, 10, rest);
        assert((all / 10) / rest == all / (10 * rest));
        assert(pow10((digits.len() - k) as nat) == 10 * pow10((digits.len() - k - 1) as nat));
        assert(digits.len() - k - 1 == shorter.len() - k);
        assert(numeral(digits) / pow10((digits.len() - k) as nat) == all / (10 * rest));
    }
}

/// The product of a number and ten to the power of zero is the number.
proof fn lemma_no_zeros(value: nat)
    ensures
        value * pow10(0) == value,
{
    assert(pow10(0) == 1);
    assert(value * 1 == value);
}

/// `leading_digits` is the shifting that `shifted` defines by
/// multiplication and division: of the digits `whole + fraction`, with the
/// decimal point `up` places behind the whole part.
pub proof fn lemma_leading_digits(whole: Seq<char>, fraction: Seq<char>, up: int)
    ensures
        leading_digits(whole, fraction, whole.len() + up) == shifted(
            numeral(whole + fraction),
            up - fraction.len(),
        ),
{
    let digits = whole + fraction;
    let count = whole.len() + up;
    let shift = up - fraction.len();
    let left = count - whole.len();
    assert(count == digits.len() + shift);
    assert(whole.take(whole.len() as int) =~= whole);
    assert(fraction.take(fraction.len() as int) =~= fraction);
    assert(whole.take(0) =~= Seq::<char>::empty());
    assert(fraction.take(0) =~= Seq::<char>::empty());
    lemma_numeral_concat(0, whole, fraction);
    if shift >= 0 {
        assert(left - fraction.len() == shift);
        assert(leading_digits(whole, fraction, count) == numeral(digits) * pow10(shift as nat));
    } else if count <= 0 {
        lemma_numeral_bound(digits);
        lemma_pow10_grows(digits.len(), (-shift) as nat);
        let c = numeral(digits) as int;
        let p = pow10((-shift) as nat) as int;
        assert(c / p == 0) by (nonlinear_arith)
            requires
                0 <= c < p,
        ;
        lemma_no_zeros(0);
        assert(leading_digits(whole, fraction, count) == 0);
    } else {
        lemma_numeral_truncate(digits, count);
        assert(digits.len() - count == -shift);
        if count <= whole.len() {
            assert(digits.take(count) =~= whole.take(count));
            lemma_no_zeros(numeral(whole.take(count)));
            assert(leading_digits(whole, fraction, count) == numeral(whole.take(count)));
        } else {
            let kept = count - whole.len();
            assert(digits.take(count) =~= whole + fraction.take(kept));
            lemma_numeral_concat(0, whole, fraction.take(kept));
            lemma_no_zeros(numeral_from(numeral(whole), fraction.take(kept)));
            assert(leading_digits(whole, fraction, count) == numeral_from(
                numeral(whole),
                fraction.take(kept),
            ));
        }
    }
}

fn is_digit_char(c: char) -> (r: bool)
    ensures
        r == is_digit(c),
{
    '0' <= c && c <= '9'
}

/// Walks over the digits that start at `from`.
fn scan_digits(chars: &Vec<char>, from: usize) -> (end: usize)
    requires
        from <= chars.len(),
    ensures
        end == digits_end(chars@, from as int),
        from <= end <= chars.len(),
{
    let mut i: usize = from;
    while i < chars.len() && is_digit_char(chars[i])
        invariant
            from <= i <= chars.len(),
            digits_end(chars@, from as int) == digits_end(chars@, i as int),
        decreases chars.len() - i,
    {
        i = i + 1;
    }
    i
}

/// A `Layout` by positions in a text that is held in memory.
struct Marks {
    negative: bool,
    whole_start: usize,
    whole_end: usize,
    fraction_start: usize,
    fraction_end: usize,
    downwards: bool,
    exponent_start: usize,
    exponent_end: usize,
}

impl View for Marks {
    type V = Layout;

    closed spec fn view(&self) -> Layout {
        Layout {
            negative: self.negative,
            whole_start: self.whole_start as int,
            whole_end: self.whole_end as int,
            fraction_start: self.fraction_start as int,
            fraction_end: self.fraction_end as int,
            downwards: self.downwards,
            exponent_start: self.exponent_start as int,
            exponent_end: self.exponent_end as int,
        }
    }
}

/// Takes the text apart as a decimal numeral.
fn mark(chars: &Vec<char>) -> (r: Option<Marks>)
    ensures
        match r {
            Some(at) => {
                &&& layout_of(chars@) == Some(at@)
                &&& at.whole_start <= at.whole_end <= at.fraction_start <= at.fraction_end
                    <= at.exponent_start <= at.exponent_end <= chars.len()
                &&& at.exponent_end - at.exponent_start <= MAX_EXPONENT_DIGITS
                &&& at.whole_end == digits_end(chars@, at.whole_start as int)
                &&& at.fraction_end == digits_end(chars@, at.fraction_start as int)
                &&& at.exponent_end == digits_end(chars@, at.exponent_start as int)
            },
            None => layout_of(chars@) is None,
        },
{
    let n: usize = chars.len();
    let negative = n > 0 && chars[0] == '-';
    let whole_start: usize = if negative { 1 } else { 0 };
    let whole_end: usize = scan_digits(chars, whole_start);
    if whole_end == whole_start {
        return None;
    }
    let has_fraction = whole_end < n && chars[whole_end] == '.';
    let fraction_start: usize = if has_fraction { whole_end + 1 } else { whole_end };
    let fraction_end: usize = scan_digits(chars, fraction_start);
    if has_fraction && fraction_end == fraction_start {
        return None;
    }
    let has_exponent = fraction_end < n && (chars[fraction_end] == 'e' || chars[fraction_end]
        == 'E');
    let mut exponent_start: usize = fraction_end;
    let mut downwards = false;
    if has_exponent {
        exponent_start = fraction_end + 1;
        if exponent_start < n && (chars[exponent_start] == '-' || chars[exponent_start] == '+') {
            downwards = chars[exponent_start] == '-';
            exponent_start = exponent_start + 1;
        }
    }
    let exponent_end: usize = scan_digits(chars, exponent_start);
    if has_exponent && (exponent_end == exponent_start || exponent_end - exponent_start
        > MAX_EXPONENT_DIGITS) {
        return None;
    }
    if exponent_end != n {
        return None;
    }
    proof {
        lemma_digits_end(chars@, fraction_start as int);
    }
    Some(
        Marks {
            negative,
            whole_start,
            whole_end,
            fraction_start,
            fraction_end,
            downwards,
            exponent_start,
            exponent_end,
        },
    )
}

/// Writes the characters in `from..to` behind `start`, as long as the
/// result fits.
fn accumulate(start: u64, chars: &Vec<char>, from: usize, to: usize) -> (r: Option<u64>)
    requires
        from <= to <= chars.len(),
        start <= i64::MAX,
        forall|i: int| from <= i < to ==> is_digit(#[trigger] chars@[i]),
    ensures
        match r {
            Some(v) => v == numeral_from(start as nat, chars@.subrange(from as int, to as int)) && v
                <= i64::MAX,
            None => numeral_from(start as nat, chars@.subrange(from as int, to as int)) > i64::MAX,
        },
{
    let ghost all = chars@.subrange(from as int, to as int);
    let mut value: u64 = start;
    let mut i: usize = from;
    proof {
        assert(chars@.subrange(from as int, from as int) =~= Seq::<char>::empty());
    }
    while i < to
        invariant
            from <= i <= to <= chars.len(),
            value <= i64::MAX,
            value == numeral_from(start as nat, chars@.subrange(from as int, i as int)),
            all == chars@.subrange(from as int, to as int),
            forall|j: int| from <= j < to ==> is_digit(#[trigger] chars@[j]),
        decreases to - i,
    {
        let c: char = chars[i];
        let digit: u64 = (c as u32 - 48) as u64;
        proof {
            let longer = chars@.subrange(from as int, i + 1);
            assert(longer.drop_last() =~= chars@.subrange(from as int, i as int));
            assert(longer.last() == c);
            assert(is_digit(chars@[i as int]));
            assert(all.take(i + 1 - from) =~= longer);
            lemma_numeral_prefix(start as nat, all, i + 1 - from);
        }
        if value > (i64::MAX as u64 - digit) / 10 {
            return None;
        }
        value = value * 10 + digit;
        i = i + 1;
    }
    proof {
        assert(chars@.subrange(from as int, i as int) =~= all);
    }
    Some(value)
}

/// Multiplies by ten `count` times, as long as the result fits.
fn append_zeros(start: u64, count: u64) -> (r: Option<u64>)
    requires
        start <= i64::MAX,
    ensures
        match r {
            Some(v) => v == start * pow10(count as nat) && v <= i64::MAX,
            None => start * pow10(count as nat) > i64::MAX,
        },
{
    if start == 0 {
        assert(0 * pow10(count as nat) == 0) by (nonlinear_arith);
        return Some(0);
    }
    let mut value: u64 = start;
    let mut done: u64 = 0;
    proof {
        lemma_no_zeros(start as nat);
    }
    while done < count
        invariant
            done <= count,
            1 <= start,
            value <= i64::MAX,
            value == start * pow10(done as nat),
        decreases count - done,
    {
        proof {
            let p = pow10(done as nat) as int;
            let q = pow10((done + 1) as nat) as int;
            let full = pow10(count as nat) as int;
            let s = start as int;
            lemma_pow10_grows((done + 1) as nat, count as nat);
            assert(s * q == (s * p) * 10) by (nonlinear_arith)
                requires
                    q == 10 * p,
            ;
            assert(s * q <= s * full) by (nonlinear_arith)
                requires
                    q <= full,
                    1 <= s,
            ;
        }
        if value > i64::MAX as u64 / 10 {
            return None;
        }
        value = value * 10;
        done = done + 1;
    }
    Some(value)
}

/// The first `count` digits of the whole part, the fraction and the zeros
/// behind them, where `count` is `places` more than the length of the
/// whole part, moved by `written` places down or up.
fn leading(
    chars: &Vec<char>,
    whole_start: usize,
    whole_end: usize,
    fraction_start: usize,
    fraction_end: usize,
    downwards: bool,
    written: u64,
    places: u64,
) -> (r: Option<u64>)
    requires
        whole_start <= whole_end <= fraction_start <= fraction_end <= chars.len(),
        written < 1000,
        places <= FRACTION_DIGITS,
        forall|i: int| whole_start <= i < whole_end ==> is_digit(#[trigger] chars@[i]),
        forall|i: int| fraction_start <= i < fraction_end ==> is_digit(#[trigger] chars@[i]),
    ensures
        ({
            let whole = chars@.subrange(whole_start as int, whole_end as int);
            let fraction = chars@.subrange(fraction_start as int, fraction_end as int);
            let power: int = if downwards { -(written as int) } else { written as int };
            let size = leading_digits(whole, fraction, whole.len() + power + places);
            match r {
                Some(v) => v == size && v <= i64::MAX,
                None => size > i64::MAX,
            }
        }),
{
    let ghost whole = chars@.subrange(whole_start as int, whole_end as int);
    let ghost fraction = chars@.subrange(fraction_start as int, fraction_end as int);
    let whole_len: usize = whole_end - whole_start;
    let fraction_len: usize = fraction_end - fraction_start;
    let count: i128 = if downwards {
        whole_len as i128 + places as i128 - written as i128
    } else {
        whole_len as i128 + places as i128 + written as i128
    };
    let from_whole: usize = if count <= 0 {
        0
    } else if count >= whole_len as i128 {
        whole_len
    } else {
        count as usize
    };
    let left: i128 = count - whole_len as i128;
    let from_fraction: usize = if left <= 0 {
        0
    } else if left >= fraction_len as i128 {
        fraction_len
    } else {
        left as usize
    };
    let zeros: u64 = if left - fraction_len as i128 <= 0 {
        0
    } else {
        (left - fraction_len as i128) as u64
    };
    let ghost first = numeral(whole.take(from_whole as int));
    let ghost second = numeral_from(first, fraction.take(from_fraction as int));
    let ghost tail = pow10(zeros as nat);
    proof {
        assert(chars@.subrange(whole_start as int, whole_start + from_whole) =~= whole.take(
            from_whole as int,
        ));
        assert(chars@.subrange(fraction_start as int, fraction_start + from_fraction)
            =~= fraction.take(from_fraction as int));
        lemma_pow10_positive(zeros as nat);
        lemma_numeral_from_grows(first, fraction.take(from_fraction as int));
        assert(second * tail >= second) by (nonlinear_arith)
            requires
                tail >= 1,
        ;
    }
    let a: u64 = match accumulate(0, chars, whole_start, whole_start + from_whole) {
        Some(v) => v,
        None => {
            return None;
        },
    };
    let b: u64 = match accumulate(a, chars, fraction_start, fraction_start + from_fraction) {
        Some(v) => v,
        None => {
            return None;
        },
    };
    append_zeros(b, zeros)
}

/// Digits behind a number add to it after it has moved up by their count.
proof fn lemma_numeral_from_value(start: nat, digits: Seq<char>)
    ensures
        numeral_from(start, digits) == start * pow10(digits.len()) + numeral(digits),
    decreases digits.len(),
{
    if digits.len() == 0 {
        lemma_no_zeros(start);
    } else {
        let shorter = digits.drop_last();
        lemma_numeral_from_value(start, shorter);
        let p = pow10(shorter.len()) as int;
        let s = start as int;
        let m = numeral(shorter) as int;
        assert(pow10(digits.len()) == 10 * p);
        assert((s * p + m) * 10 == s * (10 * p) + m * 10) by (nonlinear_arith);
    }
}

/// A numeral is its first digits moved up by the count of the others,
/// and the others.
proof fn lemma_numeral_split(digits: Seq<char>, k: int)
    requires
        0 <= k <= digits.len(),
    ensures
        numeral(digits) == numeral(digits.take(k)) * pow10((digits.len() - k) as nat) + numeral(
            digits.skip(k),
        ),
{
    assert(digits =~= digits.take(k) + digits.skip(k));
    lemma_numeral_concat(0, digits.take(k), digits.skip(k));
    lemma_numeral_from_value(numeral(digits.take(k)), digits.skip(k));
}

/// A run of digits denotes zero exactly if all of them are zero.
proof fn lemma_zero_numeral(digits: Seq<char>)
    requires
        all_digits(digits),
    ensures
        numeral(digits) == 0 <==> zeros(digits),
    decreases digits.len(),
{
    if digits.len() > 0 {
        let shorter = digits.drop_last();
        lemma_zero_numeral(shorter);
        assert(is_digit(digits[digits.len() - 1]));
        if zeros(digits) {
            assert forall|i: int| 0 <= i < shorter.len() implies #[trigger] shorter[i] == '0' by {
                assert(digits[i] == '0');
            }
            assert(digits[digits.len() - 1] == '0');
        }
        if numeral(digits) == 0 {
            assert forall|i: int| 0 <= i < digits.len() implies #[trigger] digits[i] == '0' by {
                if i < shorter.len() {
                    assert(shorter[i] == '0');
                }
            }
        }
    }
}

/// Whether a number of `digits` with `behind` of them behind the decimal
/// point is at most one, told by its whole part and by whether anything
/// but zeros stands behind the point.
proof fn lemma_at_most_one(digits: Seq<char>, behind: nat)
    requires
        behind > 0,
    ensures
        numeral(digits) <= pow10(behind) <==> {
            let whole_part = numeral(digits) / pow10(behind);
            whole_part == 0 || (whole_part == 1 && behind < digits.len() && numeral(
                digits.skip(digits.len() - behind),
            ) == 0)
        },
{
    let c = numeral(digits) as int;
    let p = pow10(behind) as int;
    lemma_pow10_positive(behind);
    lemma_fundamental_div_mod(c, p);
    lemma_mod_bound(c, p);
    let q = c / p;
    let r = c % p;
    assert(q >= 0) by (nonlinear_arith)
        requires
            c == p * q + r,
            0 <= r < p,
            0 <= c,
    ;
    assert(c <= p <==> (q == 0 || (q == 1 && r == 0))) by (nonlinear_arith)
        requires
            c == p * q + r,
            0 <= r < p,
            0 <= q,
    ;
    if q == 1 {
        lemma_numeral_bound(digits);
        assert(p <= c) by (nonlinear_arith)
            requires
                c == p * q + r,
                0 <= r,
                q == 1,
        ;
        if behind >= digits.len() {
            lemma_pow10_grows(digits.len(), behind);
        }
        let k = digits.len() - behind;
        lemma_numeral_split(digits, k);
        lemma_numeral_bound(digits.skip(k));
        lemma_fundamental_div_mod_converse(
            c,
            p,
            numeral(digits.take(k)) as int,
            numeral(digits.skip(k)) as int,
        );
    }
}

/// Whether nothing but zeros stands in `from..to`.
fn all_zeros(chars: &Vec<char>, from: usize, to: usize) -> (r: bool)
    requires
        from <= to <= chars.len(),
    ensures
        r == zeros(chars@.subrange(from as int, to as int)),
{
    let mut i: usize = from;
    while i < to
        invariant
            from <= i <= to <= chars.len(),
            forall|j: int| from <= j < i ==> chars@[j] == '0',
        decreases to - i,
    {
        if chars[i] != '0' {
            assert(chars@.subrange(from as int, to as int)[i - from] != '0');
            return false;
        }
        i = i + 1;
    }
    true
}

/// Whether `zeros` holds of `a + b` tells of `a` and of `b`.
proof fn lemma_zeros_concat(a: Seq<char>, b: Seq<char>)
    ensures
        zeros(a + b) <==> zeros(a) && zeros(b),
{
    let all = a + b;
    if zeros(all) {
        assert forall|i: int| 0 <= i < a.len() implies #[trigger] a[i] == '0' by {
            assert(all[i] == '0');
        }
        assert forall|i: int| 0 <= i < b.len() implies #[trigger] b[i] == '0' by {
            assert(all[a.len() + i] == '0');
        }
    }
}

/// `point` where it lies between zero and `len`, else the nearer of the two.
pub open spec fn within(point: int, len: int) -> int {
    if point <= 0 {
        0
    } else if point >= len {
        len
    } else {
        point
    }
}

/// Whether nothing but zeros stands behind the first `point` digits of
/// the whole part and the fraction.
fn rest_is_zero(
    chars: &Vec<char>,
    whole_start: usize,
    whole_end: usize,
    fraction_start: usize,
    fraction_end: usize,
    point: i128,
) -> (r: bool)
    requires
        whole_start <= whole_end <= fraction_start <= fraction_end <= chars.len(),
    ensures
        ({
            let whole = chars@.subrange(whole_start as int, whole_end as int);
            let fraction = chars@.subrange(fraction_start as int, fraction_end as int);
            let digits = whole + fraction;
            r == zeros(digits.skip(within(point as int, digits.len() as int)))
        }),
{
    let ghost whole = chars@.subrange(whole_start as int, whole_end as int);
    let ghost fraction = chars@.subrange(fraction_start as int, fraction_end as int);
    let ghost digits = whole + fraction;
    let whole_len: usize = whole_end - whole_start;
    let fraction_len: usize = fraction_end - fraction_start;
    let in_whole: usize = if point <= 0 {
        0
    } else if point >= whole_len as i128 {
        whole_len
    } else {
        point as usize
    };
    let in_fraction: usize = if point <= whole_len as i128 {
        0
    } else if point - whole_len as i128 >= fraction_len as i128 {
        fraction_len
    } else {
        (point - whole_len as i128) as usize
    };
    proof {
        let a = whole.skip(in_whole as int);
        let b = fraction.skip(in_fraction as int);
        assert(chars@.subrange(whole_start + in_whole, whole_end as int) =~= a);
        assert(chars@.subrange(fraction_start + in_fraction, fraction_end as int) =~= b);
        assert(digits.skip(within(point as int, digits.len() as int)) =~= a + b);
        lemma_zeros_concat(a, b);
    }
    all_zeros(chars, whole_start + in_whole, whole_end) && all_zeros(
        chars,
        fraction_start + in_fraction,
        fraction_end,
    )
}

/// Whether the number that the digits stand for, with the decimal point
/// moved by `written` places, is at most one.
fn at_most_one(
    chars: &Vec<char>,
    whole_start: usize,
    whole_end: usize,
    fraction_start: usize,
    fraction_end: usize,
    downwards: bool,
    written: u64,
) -> (r: bool)
    requires
        whole_start <= whole_end <= fraction_start <= fraction_end <= chars.len(),
        written < 1000,
        forall|i: int| whole_start <= i < whole_end ==> is_digit(#[trigger] chars@[i]),
        forall|i: int| fraction_start <= i < fraction_end ==> is_digit(#[trigger] chars@[i]),
    ensures
        ({
            let whole = chars@.subrange(whole_start as int, whole_end as int);
            let fraction = chars@.subrange(fraction_start as int, fraction_end as int);
            let power: int = if downwards { -(written as int) } else { written as int };
            let exponent = power - fraction.len();
            let coefficient = numeral(whole + fraction);
            r == if exponent >= 0 {
                coefficient * pow10(exponent as nat) <= 1
            } else {
                coefficient <= pow10((-exponent) as nat)
            }
        }),
{
    let ghost whole = chars@.subrange(whole_start as int, whole_end as int);
    let ghost fraction = chars@.subrange(fraction_start as int, fraction_end as int);
    let ghost digits = whole + fraction;
    let ghost power: int = if downwards { -(written as int) } else { written as int };
    let ghost exponent = power - fraction.len();
    let whole_len: usize = whole_end - whole_start;
    let point: i128 = if downwards {
        whole_len as i128 - written as i128
    } else {
        whole_len as i128 + written as i128
    };
    proof {
        lemma_leading_digits(whole, fraction, power);
        assert(point == digits.len() + exponent);
        if exponent < 0 {
            lemma_at_most_one(digits, (-exponent) as nat);
            if 0 < point {
                let rest = digits.skip(point as int);
                assert forall|i: int| 0 <= i < rest.len() implies is_digit(#[trigger] rest[i]) by {
                    assert(rest[i] == digits[point + i]);
                }
                lemma_zero_numeral(rest);
            }
        } else {
            assert(digits.skip(digits.len() as int) =~= Seq::<char>::empty());
        }
    }
    let whole_part = leading(
        chars,
        whole_start,
        whole_end,
        fraction_start,
        fraction_end,
        downwards,
        written,
        0,
    );
    proof {
        if exponent < 0 && point <= 0 {
            // Without a digit before the point the number is below one.
            lemma_numeral_bound(digits);
            lemma_pow10_grows(digits.len(), (-exponent) as nat);
        }
    }
    match whole_part {
        Some(0) => true,
        Some(1) => rest_is_zero(
            chars,
            whole_start,
            whole_end,
            fraction_start,
            fraction_end,
            point,
        ),
        _ => false,
    }
}

/// Whether `text` is a decimal numeral whose value lies between zero and
/// one, both included. No digit is dropped: one that differs from zero,
/// however far behind the decimal point, tells.
pub fn reads_within_unit(text: &str) -> (ok: bool)
    ensures
        ok == is_unit_numeral(text@),
{
    let chars = chars_of(text);
    let at = match mark(&chars) {
        Some(at) => at,
        None => {
            return false;
        },
    };
    let ghost whole = chars@.subrange(at.whole_start as int, at.whole_end as int);
    let ghost fraction = chars@.subrange(at.fraction_start as int, at.fraction_end as int);
    let ghost exponent = chars@.subrange(at.exponent_start as int, at.exponent_end as int);
    proof {
        lemma_digits_end(chars@, at.whole_start as int);
        lemma_digits_end(chars@, at.fraction_start as int);
        lemma_digits_end(chars@, at.exponent_start as int);
        lemma_numeral_bound(exponent);
        lemma_pow10_grows(exponent.len(), 3);
        assert(pow10(3) == 1000) by {
            reveal_with_fuel(pow10, 4);
        }
        assert(all_digits(whole + fraction));
        lemma_zero_numeral(whole + fraction);
        lemma_zeros_concat(whole, fraction);
    }
    let written: u64 = match accumulate(0, &chars, at.exponent_start, at.exponent_end) {
        Some(v) => v,
        None => {
            return false;
        },
    };
    if all_zeros(&chars, at.whole_start, at.whole_end) && all_zeros(
        &chars,
        at.fraction_start,
        at.fraction_end,
    ) {
        true
    } else if at.negative {
        false
    } else {
        at_most_one(
            &chars,
            at.whole_start,
            at.whole_end,
            at.fraction_start,
            at.fraction_end,
            at.downwards,
            written,
        )
    }
}

impl Fixed {
    /// Whether the value lies between zero and one, both included.
    pub open spec fn is_fraction_of_one(self) -> bool {
        0 <= self.units <= UNITS_PER_ONE
    }

    /// Reads a decimal numeral such as `39.52`, `-7`, `4.5e-3` or `1e+2`.
    pub fn parse(text: &str) -> (r: Option<Fixed>)
        ensures
            match r {
                Some(value) => units_of_text(text@) == Some(value.units as int),
                None => units_of_text(text@) is None,
            },
    {
        let chars = chars_of(text);
        let at = match mark(&chars) {
            Some(at) => at,
            None => {
                return None;
            },
        };
        let ghost whole = chars@.subrange(at.whole_start as int, at.whole_end as int);
        let ghost fraction = chars@.subrange(at.fraction_start as int, at.fraction_end as int);
        let ghost exponent = chars@.subrange(at.exponent_start as int, at.exponent_end as int);
        proof {
            lemma_digits_end(chars@, at.whole_start as int);
            lemma_digits_end(chars@, at.fraction_start as int);
            lemma_digits_end(chars@, at.exponent_start as int);
            lemma_numeral_bound(exponent);
            lemma_pow10_grows(exponent.len(), 3);
            assert(pow10(3) == 1000) by {
                reveal_with_fuel(pow10, 4);
            }
        }
        let written: u64 = match accumulate(0, &chars, at.exponent_start, at.exponent_end) {
            Some(v) => v,
            None => {
                return None;
            },
        };
        proof {
            let power: int = if at.downwards { -(written as int) } else { written as int };
            lemma_leading_digits(whole, fraction, power + FRACTION_DIGITS);
        }
        match leading(
            &chars,
            at.whole_start,
            at.whole_end,
            at.fraction_start,
            at.fraction_end,
            at.downwards,
            written,
            FRACTION_DIGITS,
        ) {
            Some(size) => if at.negative {
                Some(Fixed { units: -(size as i64) })
            } else {
                Some(Fixed { units: size as i64 })
            },
            None => None,
        }
    }
}

} // verus!

//! Decimal numerals, read exactly.
//!
//! A log line carries its timestamp and its readings as text. A numeral is an
//! optional sign, digits with an optional point, and an optional exponent, or
//! one of the words `inf`, `infinity` and `nan` in any case. It is kept as
//! the digits that were written and a power of ten, so nothing is rounded:
//! whether a timestamp lies inside a window is decided on the number that was
//! written. Turning a number into a machine float is left to the caller.

use crate::text::chars_of;
use vstd::prelude::*;

verus! {

/// The largest exponent that a numeral can write: a larger one is read as this.
pub const EXPONENT_LIMIT: i128 = 1_000_000_000_000_000_000_000_000_000_000;

/// The largest exponent that a number can hold.
pub const EXPONENT_MAX: i128 = 2_000_000_000_000_000_000_000_000_000_000;

/// Above every bound that a window can have: ten to the power 19.
const CAP: u128 = 10_000_000_000_000_000_000;

/// What a numeral denotes.
pub enum Decimal {
    /// The number that `digits` write in base ten, times `10^exponent`,
    /// negated where `negative`.
    Finite { negative: bool, digits: Seq<u8>, exponent: int },
    /// Plus or minus infinity.
    Infinite { negative: bool },
    /// Not a number.
    NotANumber,
}

/// Ten to the power `n`.
pub open spec fn pow10(n: nat) -> nat
    decreases n,
{
    if n == 0 {
        1
    } else {
        10 * pow10((n - 1) as nat)
    }
}

/// Whether `mantissa * 10^exponent > bound`.
pub open spec fn magnitude_exceeds(mantissa: nat, exponent: int, bound: int) -> bool {
    if exponent >= 0 {
        mantissa * pow10(exponent as nat) > bound
    } else {
        mantissa > bound * pow10((-exponent) as nat)
    }
}

/// Whether `mantissa * 10^exponent < bound`.
pub open spec fn magnitude_below(mantissa: nat, exponent: int, bound: int) -> bool {
    if exponent >= 0 {
        mantissa * pow10(exponent as nat) < bound
    } else {
        mantissa < bound * pow10((-exponent) as nat)
    }
}

/// Whether `mantissa * 10^exponent == bound`.
pub open spec fn magnitude_equals(mantissa: nat, exponent: int, bound: int) -> bool {
    if exponent >= 0 {
        mantissa * pow10(exponent as nat) == bound
    } else {
        mantissa == bound * pow10((-exponent) as nat)
    }
}

impl Decimal {
    /// Whether this value is greater than the integer `bound`.
    pub open spec fn exceeds(self, bound: int) -> bool {
        match self {
            Decimal::Finite { negative, digits, exponent } => if negative {
                magnitude_below(digits_value(digits), exponent, -bound)
            } else {
                magnitude_exceeds(digits_value(digits), exponent, bound)
            },
            Decimal::Infinite { negative } => !negative,
            Decimal::NotANumber => false,
        }
    }

    /// Whether this value is less than the integer `bound`.
    pub open spec fn below(self, bound: int) -> bool {
        match self {
            Decimal::Finite { negative, digits, exponent } => if negative {
                magnitude_exceeds(digits_value(digits), exponent, -bound)
            } else {
                magnitude_below(digits_value(digits), exponent, bound)
            },
            Decimal::Infinite { negative } => negative,
            Decimal::NotANumber => false,
        }
    }

    /// Whether this value is the integer `bound`.
    pub open spec fn equals(self, bound: int) -> bool {
        match self {
            Decimal::Finite { negative, digits, exponent } => magnitude_equals(
                digits_value(digits),
                exponent,
                if negative { -bound } else { bound },
            ),
            _ => false,
        }
    }

    /// Whether this value lies strictly between `from` and `to`.
    pub open spec fn within(self, from: int, to: int) -> bool {
        self.exceeds(from) && self.below(to)
    }

    /// This value times one thousand. The exponent of the result stops at
    /// [`EXPONENT_MAX`].
    pub open spec fn times_thousand(self) -> Decimal {
        match self {
            Decimal::Finite { negative, digits, exponent } => Decimal::Finite {
                negative,
                digits,
                exponent: if exponent + 3 <= EXPONENT_MAX {
                    exponent + 3
                } else {
                    EXPONENT_MAX as int
                },
            },
            other => other,
        }
    }
}

/// Whether `c` is one of the ten digits.
pub open spec fn is_digit(c: char) -> bool {
    '0' <= c <= '9'
}

/// The digit that `c` writes.
pub open spec fn digit_of(c: char) -> u8 {
    (c as u32 - '0' as u32) as u8
}

/// The digits that the characters of `s` write.
pub open spec fn digits_of(s: Seq<char>) -> Seq<u8> {
    Seq::new(s.len(), |i: int| digit_of(s[i]))
}

/// The number that a sequence of digits writes in base ten.
pub open spec fn digits_value(digits: Seq<u8>) -> nat
    decreases digits.len(),
{
    if digits.len() == 0 {
        0
    } else {
        digits_value(digits.drop_last()) * 10 + digits.last() as nat
    }
}

/// Where the run of digits that starts at `from` ends.
pub open spec fn digits_end(s: Seq<char>, from: int) -> int
    decreases s.len() - from,
{
    if 0 <= from < s.len() && is_digit(s[from]) {
        digits_end(s, from + 1)
    } else {
        from
    }
}

/// Whether `s` has a sign at `at`.
pub open spec fn has_sign(s: Seq<char>, at: int) -> bool {
    0 <= at < s.len() && (s[at] == '+' || s[at] == '-')
}

/// Whether `s` holds the letter `lower`, or its capital `upper`, at `at`.
pub open spec fn has_letter(s: Seq<char>, at: int, lower: char, upper: char) -> bool {
    0 <= at < s.len() && (s[at] == lower || s[at] == upper)
}

/// Whether `s` from `from` on is the word `inf` or `infinity`, in any case.
pub open spec fn is_infinity_word(s: Seq<char>, from: int) -> bool {
    let inf = has_letter(s, from, 'i', 'I') && has_letter(s, from + 1, 'n', 'N') && has_letter(
        s,
        from + 2,
        'f',
        'F',
    );
    let inity = has_letter(s, from + 3, 'i', 'I') && has_letter(s, from + 4, 'n', 'N')
        && has_letter(s, from + 5, 'i', 'I') && has_letter(s, from + 6, 't', 'T') && has_letter(
        s,
        from + 7,
        'y',
        'Y',
    );
    inf && (s.len() - from == 3 || (s.len() - from == 8 && inity))
}

/// Whether `s` from `from` on is the word `nan`, in any case.
pub open spec fn is_nan_word(s: Seq<char>, from: int) -> bool {
    s.len() - from == 3 && has_letter(s, from, 'n', 'N') && has_letter(s, from + 1, 'a', 'A')
        && has_letter(s, from + 2, 'n', 'N')
}

/// The exponent that the digits `s[from..]` write, at most [`EXPONENT_LIMIT`].
pub open spec fn written_exponent(s: Seq<char>, from: int) -> int {
    let all = digits_value(digits_of(s.subrange(from, s.len() as int)));
    if all <= EXPONENT_LIMIT {
        all as int
    } else {
        EXPONENT_LIMIT as int
    }
}

/// What the text `s` from `start` on denotes, where it is digits with at
/// most one point among them and at least one digit, and then optionally `e`
/// or `E`, an optional sign and at least one digit.
pub open spec fn decimal_value(s: Seq<char>, start: int, negative: bool) -> Option<Decimal> {
    let whole_end = digits_end(s, start);
    let point = whole_end < s.len() && s[whole_end] == '.';
    let part_start = if point { whole_end + 1 } else { whole_end };
    let part_end = if point { digits_end(s, part_start) } else { whole_end };
    let digits = digits_of(s.subrange(start, whole_end) + s.subrange(part_start, part_end));
    let places = part_end - part_start;
    if digits.len() == 0 {
        None
    } else if part_end == s.len() {
        Some(Decimal::Finite { negative, digits, exponent: -places })
    } else if s[part_end] == 'e' || s[part_end] == 'E' {
        let exp_start = if has_sign(s, part_end + 1) { part_end + 2 } else { part_end + 1 };
        let exp_negative = has_sign(s, part_end + 1) && s[part_end + 1] == '-';
        if exp_start < s.len() && digits_end(s, exp_start) == s.len() {
            let written = written_exponent(s, exp_start);
            Some(
                Decimal::Finite {
                    negative,
                    digits,
                    exponent: (if exp_negative { -written } else { written }) - places,
                },
            )
        } else {
            None
        }
    } else {
        None
    }
}

/// What the text `s` denotes, where it is a numeral.
///
/// A numeral is an optional sign followed by `inf`, `infinity` or `nan` in
/// any case, or by a decimal number as [`decimal_value`] reads it. Nothing
/// may stand before or after it.
pub open spec fn numeral_value(s: Seq<char>) -> Option<Decimal> {
    let start: int = if has_sign(s, 0) { 1 } else { 0 };
    let negative = s.len() > 0 && s[0] == '-';
    if is_infinity_word(s, start) {
        Some(Decimal::Infinite { negative })
    } else if is_nan_word(s, start) {
        Some(Decimal::NotANumber)
    } else {
        decimal_value(s, start, negative)
    }
}

/// Which sort of number a [`Number`] is.
#[derive(Clone, Copy, Debug, PartialEq, Eq)]
pub enum Kind {
    Finite,
    Infinite,
    NotANumber,
}

/// A number as it was written: its digits and a power of ten.
#[derive(Debug, PartialEq, Eq)]
pub struct Number {
    kind: Kind,
    negative: bool,
    digits: Vec<u8>,
    exponent: i128,
}

impl View for Number {
    type V = Decimal;

    closed spec fn view(&self) -> Decimal {
        match self.kind {
            Kind::Finite => Decimal::Finite {
                negative: self.negative,
                digits: self.digits@,
                exponent: self.exponent as int,
            },
            Kind::Infinite => Decimal::Infinite { negative: self.negative },
            Kind::NotANumber => Decimal::NotANumber,
        }
    }
}

impl DeepView for Number {
    type V = Decimal;

    open spec fn deep_view(&self) -> Decimal {
        self@
    }
}

/// Whether every entry of `digits` is a digit.
pub open spec fn all_digits(digits: Seq<u8>) -> bool {
    forall|i: int| 0 <= i < digits.len() ==> digits[i] <= 9
}

proof fn lemma_digits_value_push(digits: Seq<u8>, d: u8)
    ensures
        digits_value(digits.push(d)) == digits_value(digits) * 10 + d as nat,
{
    assert(digits.push(d).drop_last() =~= digits);
}

/// Whether `s` holds `lower` or `upper` at `at`.
fn letter_at(s: &Vec<char>, at: usize, lower: char, upper: char) -> (found: bool)
    ensures
        found == has_letter(s@, at as int, lower, upper),
{
    at < s.len() && (s[at] == lower || s[at] == upper)
}

/// Whether `s` from `from` on is `inf` or `infinity`.
fn infinity_word(s: &Vec<char>, from: usize) -> (found: bool)
    requires
        from <= s.len(),
    ensures
        found == is_infinity_word(s@, from as int),
{
    let rest = s.len() - from;
    if rest != 3 && rest != 8 {
        return false;
    }
    let inf = letter_at(s, from, 'i', 'I') && letter_at(s, from + 1, 'n', 'N') && letter_at(
        s,
        from + 2,
        'f',
        'F',
    );
    if rest == 3 {
        return inf;
    }
    inf && letter_at(s, from + 3, 'i', 'I') && letter_at(s, from + 4, 'n', 'N') && letter_at(
        s,
        from + 5,
        'i',
        'I',
    ) && letter_at(s, from + 6, 't', 'T') && letter_at(s, from + 7, 'y', 'Y')
}

/// Whether `s` from `from` on is `nan`.
fn nan_word(s: &Vec<char>, from: usize) -> (found: bool)
    requires
        from <= s.len(),
    ensures
        found == is_nan_word(s@, from as int),
{
    s.len() - from == 3 && letter_at(s, from, 'n', 'N') && letter_at(s, from + 1, 'a', 'A')
        && letter_at(s, from + 2, 'n', 'N')
}

/// Whether `s` has a sign at `at`.
fn sign_at(s: &Vec<char>, at: usize) -> (found: bool)
    ensures
        found == has_sign(s@, at as int),
{
    at < s.len() && (s[at] == '+' || s[at] == '-')
}

/// Appends to `digits` the digits of the run that starts at `from`, and
/// returns where the run ends.
fn take_digits(s: &Vec<char>, from: usize, digits: &mut Vec<u8>) -> (end: usize)
    requires
        from <= s.len(),
        all_digits(old(digits)@),
    ensures
        end == digits_end(s@, from as int),
        from <= end <= s.len(),
        final(digits)@ == old(digits)@ + digits_of(s@.subrange(from as int, end as int)),
        all_digits(final(digits)@),
{
    let mut end: usize = from;
    while end < s.len() && '0' <= s[end] && s[end] <= '9'
        invariant
            from <= end <= s.len(),
            digits_end(s@, from as int) == digits_end(s@, end as int),
            digits@ == old(digits)@ + digits_of(s@.subrange(from as int, end as int)),
            all_digits(digits@),
        decreases s.len() - end,
    {
        let c: char = s[end];
        let d: u8 = (c as u32 - '0' as u32) as u8;
        proof {
            assert(digits@.push(d) =~= old(digits)@ + digits_of(
                s@.subrange(from as int, end as int + 1),
            ));
        }
        digits.push(d);
        end = end + 1;
    }
    end
}

/// The value of the first `upto` digits, or `cap` where that is less.
fn capped_value(digits: &Vec<u8>, upto: usize, cap: u128) -> (value: u128)
    requires
        upto <= digits.len(),
        all_digits(digits@),
        cap <= 10_000_000_000_000_000_000_000_000_000_000_000_000,
    ensures
        value == if digits_value(digits@.take(upto as int)) <= cap {
            digits_value(digits@.take(upto as int))
        } else {
            cap as nat
        },
{
    let mut value: u128 = 0;
    let mut i: usize = 0;
    while i < upto
        invariant
            i <= upto <= digits.len(),
            all_digits(digits@),
            cap <= 10_000_000_000_000_000_000_000_000_000_000_000_000,
            value <= cap,
            value == if digits_value(digits@.take(i as int)) <= cap {
                digits_value(digits@.take(i as int))
            } else {
                cap as nat
            },
        decreases upto - i,
    {
        proof {
            assert(digits@.take(i as int + 1) =~= digits@.take(i as int).push(digits@[i as int]));
            lemma_digits_value_push(digits@.take(i as int), digits@[i as int]);
        }
        if value < cap {
            let next: u128 = value * 10 + digits[i] as u128;
            value = if next < cap { next } else { cap };
        }
        i = i + 1;
    }
    value
}

/// Whether one of the digits from `from` on is not zero.
fn any_nonzero(digits: &Vec<u8>, from: usize) -> (found: bool)
    requires
        from <= digits.len(),
    ensures
        found == (digits_value(digits@.skip(from as int)) != 0),
{
    let mut found = false;
    let mut i: usize = from;
    while i < digits.len()
        invariant
            from <= i <= digits.len(),
            found == (digits_value(digits@.subrange(from as int, i as int)) != 0),
        decreases digits.len() - i,
    {
        proof {
            assert(digits@.subrange(from as int, i as int + 1) =~= digits@.subrange(
                from as int,
                i as int,
            ).push(digits@[i as int]));
            lemma_digits_value_push(digits@.subrange(from as int, i as int), digits@[i as int]);
        }
        if digits[i] != 0 {
            found = true;
        }
        i = i + 1;
    }
    proof {
        assert(digits@.subrange(from as int, digits.len() as int) =~= digits@.skip(from as int));
    }
    found
}

proof fn lemma_pow10_grows(a: nat, b: nat)
    requires
        a <= b,
    ensures
        1 <= pow10(a) <= pow10(b),
    decreases b,
{
    if a < b {
        lemma_pow10_grows(a, (b - 1) as nat);
    } else if a > 0 {
        lemma_pow10_grows((a - 1) as nat, (b - 1) as nat);
    }
}

/// The first `k` digits are the part of the number above the last
/// `digits.len() - k` places.
proof fn lemma_digits_split(digits: Seq<u8>, k: int)
    requires
        all_digits(digits),
        0 <= k <= digits.len(),
    ensures
        digits_value(digits) == digits_value(digits.take(k)) * pow10((digits.len() - k) as nat)
            + digits_value(digits.skip(k)),
        digits_value(digits.skip(k)) < pow10((digits.len() - k) as nat),
    decreases digits.len(),
{
    if k == digits.len() {
        assert(digits.take(k) =~= digits);
        assert(digits.skip(k).len() == 0);
        assert(digits_value(digits) * pow10(0) == digits_value(digits)) by (nonlinear_arith)
            requires
                pow10(0) == 1,
        ;
    } else {
        let front = digits.drop_last();
        let last = digits.last();
        lemma_digits_split(front, k);
        assert(front.take(k) =~= digits.take(k));
        assert(front.skip(k).push(last) =~= digits.skip(k));
        lemma_digits_value_push(front.skip(k), last);
        let high = digits_value(digits.take(k));
        let low = digits_value(front.skip(k));
        let p = pow10((front.len() - k) as nat);
        assert(pow10((digits.len() - k) as nat) == 10 * p);
        assert((high * p + low) * 10 + last == high * (10 * p) + (low * 10 + last))
            by (nonlinear_arith);
    }
}

/// How `a * p + r` stands to `c * p`, where `r` is a remainder below `p`.
proof fn lemma_order_scaled(a: int, r: int, p: int, c: int)
    requires
        p > 0,
        0 <= r < p,
    ensures
        a * p + r > c * p <==> a > c || (a == c && r > 0),
        a * p + r < c * p <==> a < c,
{
    assert(a * p - c * p == (a - c) * p) by (nonlinear_arith);
    if a - c >= 1 {
        assert((a - c) * p >= p) by (nonlinear_arith)
            requires
                a - c >= 1,
                p > 0,
        ;
    } else if a - c <= -1 {
        assert((a - c) * p <= -p) by (nonlinear_arith)
            requires
                a - c <= -1,
                p > 0,
        ;
    } else {
        assert((a - c) * p == 0) by (nonlinear_arith)
            requires
                a - c == 0,
        ;
    }
}

impl Clone for Number {
    fn clone(&self) -> (copy: Number)
        ensures
            copy@ == self@,
    {
        proof {
            use_type_invariant(self);
        }
        Number {
            kind: self.kind,
            negative: self.negative,
            digits: self.digits.clone(),
            exponent: self.exponent,
        }
    }
}

impl Number {
    #[verifier::type_invariant]
    spec fn well_formed(self) -> bool {
        &&& all_digits(self.digits@)
        &&& -EXPONENT_MAX <= self.exponent <= EXPONENT_MAX
        &&& !(self.kind is Finite) ==> self.digits@.len() == 0 && self.exponent == 0
        &&& self.kind is NotANumber ==> !self.negative
    }

    /// Reads a numeral. The result is `None` exactly where `text` is no
    /// numeral, and else the number that it writes.
    pub fn parse(text: &str) -> (parsed: Option<Number>)
        ensures
            parsed is Some <==> numeral_value(text@) is Some,
            parsed is Some ==> parsed->0@ == numeral_value(text@)->0,
    {
        let s = chars_of(text);
        let start: usize = if sign_at(&s, 0) { 1 } else { 0 };
        let negative = s.len() > 0 && s[0] == '-';
        if infinity_word(&s, start) {
            Some(Number { kind: Kind::Infinite, negative, digits: Vec::new(), exponent: 0 })
        } else if nan_word(&s, start) {
            Some(Number { kind: Kind::NotANumber, negative: false, digits: Vec::new(), exponent: 0 })
        } else {
            Number::parse_decimal(&s, start, negative)
        }
    }

    /// Reads the decimal number that `s` holds from `start` on.
    fn parse_decimal(s: &Vec<char>, start: usize, negative: bool) -> (parsed: Option<Number>)
        requires
            start <= s.len(),
        ensures
            parsed is Some <==> decimal_value(s@, start as int, negative) is Some,
            parsed is Some ==> parsed->0@ == decimal_value(s@, start as int, negative)->0,
    {
        let n = s.len();
        let mut digits: Vec<u8> = Vec::new();
        let whole_end = take_digits(&s, start, &mut digits);
        let point = whole_end < n && s[whole_end] == '.';
        let part_start: usize = if point { whole_end + 1 } else { whole_end };
        let part_end: usize = if point {
            take_digits(&s, part_start, &mut digits)
        } else {
            whole_end
        };
        proof {
            assert(digits@ =~= digits_of(
                s@.subrange(start as int, whole_end as int) + s@.subrange(
                    part_start as int,
                    part_end as int,
                ),
            ));
        }
        if digits.len() == 0 {
            return None;
        }
        let places: i128 = (part_end - part_start) as i128;
        if part_end == n {
            return Some(Number { kind: Kind::Finite, negative, digits, exponent: -places });
        }
        if s[part_end] != 'e' && s[part_end] != 'E' {
            return None;
        }
        let exp_signed = sign_at(&s, part_end + 1);
        let exp_start: usize = if exp_signed { part_end + 2 } else { part_end + 1 };
        let exp_negative = exp_signed && s[part_end + 1] == '-';
        if exp_start >= n {
            return None;
        }
        let mut exp_digits: Vec<u8> = Vec::new();
        let exp_end = take_digits(&s, exp_start, &mut exp_digits);
        if exp_end != n {
            return None;
        }
        let written: i128 = capped_value(&exp_digits, exp_digits.len(), EXPONENT_LIMIT as u128) as i128;
        proof {
            assert(exp_digits@ =~= digits_of(s@.subrange(exp_start as int, n as int)));
            assert(exp_digits@.take(exp_digits.len() as int) =~= exp_digits@);
            assert(written == written_exponent(s@, exp_start as int));
        }
        let exponent: i128 = if exp_negative { -written - places } else { written - places };
        Some(Number { kind: Kind::Finite, negative, digits, exponent })
    }

    /// The floor of the magnitude of a finite number, at most `CAP`, and
    /// whether the magnitude has a fractional part. Together they order the
    /// magnitude against every integer below `CAP`.
    fn whole_and_rest(&self) -> (split: (u128, bool))
        requires
            self.kind is Finite,
        ensures
            split.0 <= CAP,
            forall|c: int|
                -CAP < c < CAP ==> (#[trigger] magnitude_exceeds(
                    digits_value(self.digits@),
                    self.exponent as int,
                    c,
                ) <==> split.0 > c || (split.0 == c && split.1)),
            forall|c: int|
                -CAP < c < CAP ==> (#[trigger] magnitude_below(
                    digits_value(self.digits@),
                    self.exponent as int,
                    c,
                ) <==> split.0 < c),
    {
        proof {
            use_type_invariant(self);
        }
        let n = self.digits.len();
        let ghost m = digits_value(self.digits@);
        if self.exponent >= 0 {
            let mut whole = capped_value(&self.digits, n, CAP);
            let mut k: i128 = 0;
            proof {
                assert(self.digits@.take(n as int) =~= self.digits@);
                assert(m * pow10(0) == m) by (nonlinear_arith)
                    requires
                        pow10(0) == 1,
                ;
            }
            while k < self.exponent && 0 < whole && whole < CAP
                invariant
                    0 <= k <= self.exponent,
                    whole <= CAP,
                    whole == if m * pow10(k as nat) <= CAP {
                        m * pow10(k as nat)
                    } else {
                        CAP as nat
                    },
                decreases CAP - whole,
            {
                proof {
                    assert(m * pow10((k + 1) as nat) == 10 * (m * pow10(k as nat)))
                        by (nonlinear_arith)
                        requires
                            pow10((k + 1) as nat) == 10 * pow10(k as nat),
                    ;
                }
                let next: u128 = whole * 10;
                whole = if next < CAP { next } else { CAP };
                k = k + 1;
            }
            proof {
                let full = m * pow10(self.exponent as nat);
                lemma_pow10_grows(k as nat, self.exponent as nat);
                let lower = pow10(k as nat);
                let upper = pow10(self.exponent as nat);
                assert(m * lower <= m * upper) by (nonlinear_arith)
                    requires
                        lower <= upper,
                        m >= 0,
                ;
                if whole == 0 {
                    assert(m == 0) by (nonlinear_arith)
                        requires
                            m * lower == 0,
                            lower >= 1,
                            m >= 0,
                    ;
                    assert(m * upper == 0) by (nonlinear_arith)
                        requires
                            m == 0,
                    ;
                }
                assert(whole == if full <= CAP { full } else { CAP as nat });
            }
            (whole, false)
        } else {
            let places: u128 = (-self.exponent) as u128;
            let kept: usize = if places >= n as u128 {
                0
            } else {
                (n as u128 - places) as usize
            };
            let whole = capped_value(&self.digits, kept, CAP);
            let rest = any_nonzero(&self.digits, kept);
            proof {
                let p = pow10(places as nat);
                let a = digits_value(self.digits@.take(kept as int));
                let r = digits_value(self.digits@.skip(kept as int));
                lemma_digits_split(self.digits@, kept as int);
                lemma_pow10_grows((n - kept) as nat, places as nat);
                assert(m == a * p + r && r < p) by {
                    if places >= n {
                        assert(self.digits@.take(0).len() == 0);
                        assert(a == 0);
                        assert(a * p == 0) by (nonlinear_arith)
                            requires
                                a == 0,
                        ;
                    }
                }
                assert forall|c: int| -CAP < c < CAP implies (#[trigger] magnitude_exceeds(
                    m,
                    self.exponent as int,
                    c,
                ) <==> whole > c || (whole == c && rest)) by {
                    lemma_order_scaled(a as int, r as int, p as int, c);
                }
                assert forall|c: int| -CAP < c < CAP implies (#[trigger] magnitude_below(
                    m,
                    self.exponent as int,
                    c,
                ) <==> whole < c) by {
                    lemma_order_scaled(a as int, r as int, p as int, c);
                }
            }
            (whole, rest)
        }
    }

    /// Whether this number is greater than `bound`.
    pub fn exceeds(&self, bound: i64) -> (greater: bool)
        ensures
            greater == self@.exceeds(bound as int),
    {
        match self.kind {
            Kind::Infinite => !self.negative,
            Kind::NotANumber => false,
            Kind::Finite => {
                let (whole, rest) = self.whole_and_rest();
                if self.negative {
                    (whole as i128) < -(bound as i128)
                } else {
                    whole as i128 > bound as i128 || (whole as i128 == bound as i128 && rest)
                }
            },
        }
    }

    /// Whether this number is less than `bound`.
    pub fn below(&self, bound: i64) -> (less: bool)
        ensures
            less == self@.below(bound as int),
    {
        match self.kind {
            Kind::Infinite => self.negative,
            Kind::NotANumber => false,
            Kind::Finite => {
                let (whole, rest) = self.whole_and_rest();
                if self.negative {
                    whole as i128 > -(bound as i128) || (whole as i128 == -(bound as i128) && rest)
                } else {
                    (whole as i128) < bound as i128
                }
            },
        }
    }

    /// Whether this number lies strictly between `from` and `to`.
    pub fn within(&self, from: i64, to: i64) -> (inside: bool)
        ensures
            inside == self@.within(from as int, to as int),
    {
        self.exceeds(from) && self.below(to)
    }

    /// This number times one thousand.
    pub fn times_thousand(&self) -> (product: Number)
        ensures
            product@ == self@.times_thousand(),
    {
        proof {
            use_type_invariant(self);
        }
        Number {
            kind: self.kind,
            negative: self.negative,
            digits: self.digits.clone(),
            exponent: match self.kind {
                Kind::Finite => if self.exponent <= EXPONENT_MAX - 3 {
                    self.exponent + 3
                } else {
                    EXPONENT_MAX
                },
                _ => 0,
            },
        }
    }

    /// Which sort of number this is.
    pub fn kind(&self) -> (kind: Kind)
        ensures
            kind is Finite <==> self@ is Finite,
            kind is Infinite <==> self@ is Infinite,
            kind is NotANumber <==> self@ is NotANumber,
    {
        self.kind
    }

    /// Whether this number carries a minus sign. Not a number carries none.
    pub fn is_negative(&self) -> (negative: bool)
        ensures
            negative == match self@ {
                Decimal::Finite { negative, .. } => negative,
                Decimal::Infinite { negative } => negative,
                Decimal::NotANumber => false,
            },
    {
        proof {
            use_type_invariant(self);
        }
        self.negative
    }

    /// The digits as they were written, the first first. A number that is
    /// not finite has none.
    pub fn digits(&self) -> (digits: &Vec<u8>)
        ensures
            all_digits(digits@),
            digits@ == match self@ {
                Decimal::Finite { digits, .. } => digits,
                _ => Seq::empty(),
            },
    {
        proof {
            use_type_invariant(self);
            assert(!(self.kind is Finite) ==> self.digits@ =~= Seq::empty());
        }
        &self.digits
    }

    /// The power of ten by which the digits are multiplied; 0 where the
    /// number is not finite.
    pub fn exponent(&self) -> (exponent: i128)
        ensures
            exponent == match self@ {
                Decimal::Finite { exponent, .. } => exponent,
                _ => 0,
            },
    {
        proof {
            use_type_invariant(self);
        }
        self.exponent
    }
}

} // verus!

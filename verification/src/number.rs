//! Numbers of the language: exact decimals with nine fractional digits, and
//! the two infinities. A finite number is a sign and a magnitude counted in
//! billionths, up to 340282366920938463463374607431.768211455; results
//! beyond that become an infinity, and results below a billionth are cut off
//! towards zero. What is no number (the difference of two infinities, the
//! text `nan`) has no value here: the operations give none, which the value
//! algebra turns into undefined.

use vstd::prelude::*;
use crate::value::Boolean;

verus! {

/// How many billionths make one.
pub const SCALE: u128 = 1_000_000_000;

/// The largest magnitude a finite number holds, in billionths.
pub const MAX_MAGNITUDE: u128 = 0xffff_ffff_ffff_ffff_ffff_ffff_ffff_ffff;

/// The bound of the loose comparison, `e` to the power of one tenth, in
/// billionths.
pub const TOLERANCE: u128 = 1_105_170_918;

/// A number: finite, with a sign and a magnitude in billionths, or an
/// infinity with a sign.
#[derive(Debug, Clone, Copy, PartialEq, Eq, Structural)]
pub enum Number {
    Finite { negative: bool, magnitude: u128 },
    Infinite { negative: bool },
}

/// Whether a character is a decimal digit.
pub open spec fn is_digit(c: char) -> bool {
    '0' <= c <= '9'
}

/// The number that a decimal digit stands for.
pub open spec fn digit_value(c: char) -> nat
    recommends
        is_digit(c),
{
    (c as nat - '0' as nat) as nat
}

/// The decimal digit that stands for a number below ten.
pub open spec fn digit_char(d: nat) -> char
    recommends
        d < 10,
{
    (d + '0' as nat) as char
}

/// The number that a run of decimal digits spells.
pub open spec fn digits_value(s: Seq<char>) -> nat
    decreases s.len(),
{
    if s.len() == 0 {
        0
    } else {
        digits_value(s.drop_last()) * 10 + digit_value(s.last())
    }
}

/// The decimal digits of a natural number, without leading zeros.
pub open spec fn nat_digits(n: nat) -> Seq<char>
    decreases n,
{
    if n < 10 {
        seq![digit_char(n)]
    } else {
        nat_digits(n / 10).push(digit_char(n % 10))
    }
}

/// The digits of the fraction `f / (10 * unit)`, up to its last digit that is
/// not zero.
pub open spec fn fraction_digits(f: nat, unit: nat) -> Seq<char>
    decreases unit,
{
    if f == 0 || unit == 0 {
        Seq::empty()
    } else {
        seq![digit_char((f / unit) % 10)] + fraction_digits(f % unit, unit / 10)
    }
}

/// Ten to the power of `n`.
pub open spec fn pow10(n: nat) -> nat
    decreases n,
{
    if n == 0 {
        1
    } else {
        10 * pow10((n - 1) as nat)
    }
}

/// What a digit counts at a place, in billionths: its value times ten to the
/// power of the place; nothing at a place below the billionths.
pub open spec fn place(c: char, q: int) -> nat {
    if q < 0 {
        0
    } else {
        digit_value(c) * pow10(q as nat)
    }
}

/// What a run of digits counts, the first at the place `top` and each next
/// one at the place below. Digits below the billionths are cut off.
pub open spec fn place_sum(digits: Seq<char>, top: int) -> nat
    decreases digits.len(),
{
    if digits.len() == 0 {
        0
    } else {
        place(digits[0], top) + place_sum(digits.drop_first(), top - 1)
    }
}

/// The end of the run of digits that starts at `i`.
pub open spec fn digits_end(s: Seq<char>, i: int) -> int
    decreases s.len() - i,
{
    if i < 0 || i >= s.len() || !is_digit(s[i]) {
        i
    } else {
        digits_end(s, i + 1)
    }
}

/// Whether a character is a sign.
pub open spec fn is_sign(c: char) -> bool {
    c == '+' || c == '-'
}

/// Whether a character is a lower-case letter or that letter in upper case.
pub open spec fn same_letter(c: char, letter: char) -> bool {
    c == letter || ('A' <= c <= 'Z' && c as u32 + 32 == letter as u32)
}

/// Whether a text spells a word of lower-case letters, in whatever case.
pub open spec fn spells(s: Seq<char>, word: Seq<char>) -> bool {
    s.len() == word.len() && forall|i: int| 0 <= i < s.len() ==> same_letter(s[i], word[i])
}

/// The words for an infinity.
pub open spec fn spells_infinity(s: Seq<char>) -> bool {
    spells(s, seq!['i', 'n', 'f']) || spells(s, seq!['i', 'n', 'f', 'i', 'n', 'i', 't', 'y'])
}

/// Whether a text spells what is no number: `nan` in whatever case, with or
/// without a sign.
pub open spec fn spells_nan(s: Seq<char>) -> bool {
    spells(if s.len() > 0 && is_sign(s[0]) { s.drop_first() } else { s }, seq!['n', 'a', 'n'])
}

/// The exponent that stands at `at` in a text, which has to end with it:
/// nothing stands for zero; else `e` or `E`, an optional sign, and one or more
/// digits. None for anything else.
pub open spec fn exponent_spec(s: Seq<char>, at: int) -> Option<int> {
    if at == s.len() {
        Some(0)
    } else if 0 <= at < s.len() && (s[at] == 'e' || s[at] == 'E') {
        let signed = at + 1 < s.len() && is_sign(s[at + 1]);
        let first = if signed { at + 2 } else { at + 1 };
        let end = digits_end(s, first);
        if end == s.len() && first < end {
            let v = digits_value(s.subrange(first, end));
            Some(if signed && s[at + 1] == '-' { -(v as int) } else { v as int })
        } else {
            None
        }
    } else {
        None
    }
}

/// The number that a text spells from `start` on, after its sign: digits
/// with an optional point among them, at least one digit in all, and an
/// optional exponent.
pub open spec fn decimal_spec(negative: bool, s: Seq<char>, start: int) -> Option<Number> {
    let whole_end = digits_end(s, start);
    let has_point = whole_end < s.len() && s[whole_end] == '.';
    let fraction_start = if has_point { whole_end + 1 } else { whole_end };
    let fraction_end = digits_end(s, fraction_start);
    if !(0 <= start <= whole_end <= fraction_start <= fraction_end <= s.len()) {
        None
    } else {
        let digits = s.subrange(start, whole_end) + s.subrange(fraction_start, fraction_end);
        if digits.len() == 0 {
            None
        } else {
            match exponent_spec(s, fraction_end) {
                None => None,
                Some(e) => Some(
                    Number::of_signed(negative, place_sum(digits, whole_end - start + 8 + e)),
                ),
            }
        }
    }
}

impl Number {
    /// The number zero.
    pub open spec fn zero() -> Number {
        Number::Finite { negative: false, magnitude: 0 }
    }

    /// A finite number is canonical when it is not a negative zero.
    pub open spec fn canonical(self) -> bool {
        match self {
            Number::Finite { negative, magnitude } => !(negative && magnitude == 0),
            Number::Infinite { .. } => true,
        }
    }

    /// The position of the number on the line of billionths; the infinities
    /// lie just outside the finite range.
    pub open spec fn scaled(self) -> int {
        match self {
            Number::Finite { negative, magnitude } => if negative {
                -(magnitude as int)
            } else {
                magnitude as int
            },
            Number::Infinite { negative } => if negative {
                -(MAX_MAGNITUDE as int) - 1
            } else {
                MAX_MAGNITUDE as int + 1
            },
        }
    }

    /// The number at `v` billionths, or the infinity on its side where `v`
    /// lies outside the finite range.
    pub open spec fn of_scaled(v: int) -> Number {
        if v > MAX_MAGNITUDE as int {
            Number::Infinite { negative: false }
        } else if v < -(MAX_MAGNITUDE as int) {
            Number::Infinite { negative: true }
        } else if v >= 0 {
            Number::Finite { negative: false, magnitude: v as u128 }
        } else {
            Number::Finite { negative: true, magnitude: (-v) as u128 }
        }
    }

    /// The number of the given sign and magnitude, or the infinity of that
    /// sign where the magnitude is out of range.
    pub open spec fn of_signed(negative: bool, magnitude: nat) -> Number {
        Number::of_scaled(if negative { -(magnitude as int) } else { magnitude as int })
    }

    /// Whether the sign of the number is set.
    pub open spec fn is_negative(self) -> bool {
        match self {
            Number::Finite { negative, .. } => negative,
            Number::Infinite { negative } => negative,
        }
    }

    /// The number with the opposite sign; zero stays zero.
    pub open spec fn neg_spec(self) -> Number {
        match self {
            Number::Finite { negative, magnitude } => Number::of_signed(!negative, magnitude as nat),
            Number::Infinite { negative } => Number::Infinite { negative: !negative },
        }
    }

    /// The sum; none where two opposite infinities meet.
    pub open spec fn add_spec(self, rhs: Number) -> Option<Number> {
        match (self, rhs) {
            (Number::Finite { .. }, Number::Finite { .. }) => Some(
                Number::of_scaled(self.scaled() + rhs.scaled()),
            ),
            (Number::Infinite { negative }, Number::Finite { .. }) => Some(
                Number::Infinite { negative },
            ),
            (Number::Finite { .. }, Number::Infinite { negative }) => Some(
                Number::Infinite { negative },
            ),
            (Number::Infinite { negative: a }, Number::Infinite { negative: b }) => if a == b {
                Some(Number::Infinite { negative: a })
            } else {
                None
            },
        }
    }

    /// The difference; none where two infinities of one sign meet.
    pub open spec fn sub_spec(self, rhs: Number) -> Option<Number> {
        self.add_spec(rhs.neg_spec())
    }

    /// The product, cut off towards zero; none for zero times an infinity.
    pub open spec fn mul_spec(self, rhs: Number) -> Option<Number> {
        match (self, rhs) {
            (
                Number::Finite { negative: a, magnitude: m },
                Number::Finite { negative: b, magnitude: n },
            ) => Some(Number::of_signed(a != b, ((m as nat) * (n as nat) / (SCALE as nat)) as nat)),
            (Number::Infinite { negative: a }, Number::Infinite { negative: b }) => Some(
                Number::Infinite { negative: a != b },
            ),
            (Number::Infinite { negative: a }, Number::Finite { negative: b, magnitude }) => if magnitude
                == 0 {
                None
            } else {
                Some(Number::Infinite { negative: a != b })
            },
            (Number::Finite { negative: a, magnitude }, Number::Infinite { negative: b }) => if magnitude
                == 0 {
                None
            } else {
                Some(Number::Infinite { negative: a != b })
            },
        }
    }

    /// The quotient, cut off towards zero; none for a zero divisor and for an
    /// infinity divided by an infinity.
    pub open spec fn div_spec(self, rhs: Number) -> Option<Number> {
        match (self, rhs) {
            (
                Number::Finite { negative: a, magnitude: m },
                Number::Finite { negative: b, magnitude: n },
            ) => if n == 0 {
                None
            } else {
                Some(Number::of_signed(a != b, ((m as nat) * (SCALE as nat) / (n as nat)) as nat))
            },
            (Number::Finite { .. }, Number::Infinite { .. }) => Some(Number::zero()),
            (Number::Infinite { negative: a }, Number::Finite { negative: b, magnitude }) => if magnitude
                == 0 {
                None
            } else {
                Some(Number::Infinite { negative: a != b })
            },
            (Number::Infinite { .. }, Number::Infinite { .. }) => None,
        }
    }

    /// The remainder, with the sign of the dividend; none for a zero divisor
    /// and for an infinite dividend.
    pub open spec fn rem_spec(self, rhs: Number) -> Option<Number> {
        match (self, rhs) {
            (
                Number::Finite { negative: a, magnitude: m },
                Number::Finite { negative: b, magnitude: n },
            ) => if n == 0 {
                None
            } else {
                Some(Number::of_signed(a, ((m as nat) % (n as nat)) as nat))
            },
            (Number::Finite { .. }, Number::Infinite { .. }) => Some(self),
            (Number::Infinite { .. }, _) => None,
        }
    }

    /// Whether the number lies before another on the line.
    pub open spec fn lt_spec(self, rhs: Number) -> bool {
        self.scaled() < rhs.scaled()
    }

    /// Whether the number lies before another on the line, or on it.
    pub open spec fn le_spec(self, rhs: Number) -> bool {
        self.scaled() <= rhs.scaled()
    }

    /// Whether two numbers are within the loose tolerance of each other: both
    /// finite, of one sign, neither zero, and their ratio strictly between
    /// the tolerance and its inverse.
    pub open spec fn close_spec(self, rhs: Number) -> bool {
        match (self, rhs) {
            (
                Number::Finite { negative: a, magnitude: m },
                Number::Finite { negative: b, magnitude: n },
            ) => {
                &&& a == b
                &&& m != 0
                &&& n != 0
                &&& (m as nat) * (SCALE as nat) < (n as nat) * (TOLERANCE as nat)
                &&& (n as nat) * (SCALE as nat) < (m as nat) * (TOLERANCE as nat)
            },
            _ => false,
        }
    }

    /// The truth value of a number: true from one upwards, false from zero
    /// downwards, maybe in between.
    pub open spec fn truth_spec(self) -> Boolean {
        if self.scaled() >= SCALE as int {
            Boolean::True
        } else if self.scaled() <= 0 {
            Boolean::False
        } else {
            Boolean::Maybe
        }
    }

    /// The whole part of the magnitude; none for an infinity.
    pub open spec fn whole_spec(self) -> Option<nat> {
        match self {
            Number::Finite { magnitude, .. } => Some((magnitude as nat) / (SCALE as nat)),
            Number::Infinite { .. } => None,
        }
    }

    /// The billionths of the magnitude past its whole part.
    pub open spec fn fraction_spec(self) -> nat {
        match self {
            Number::Finite { magnitude, .. } => (magnitude as nat) % (SCALE as nat),
            Number::Infinite { .. } => 0,
        }
    }

    /// The text of a number: an optional minus sign, the whole part, and the
    /// fraction after a point where there is one; `inf` for an infinity.
    pub open spec fn text_spec(self) -> Seq<char> {
        match self {
            Number::Infinite { negative } => if negative {
                seq!['-', 'i', 'n', 'f']
            } else {
                seq!['i', 'n', 'f']
            },
            Number::Finite { negative, magnitude } => {
                let sign = if negative { seq!['-'] } else { Seq::<char>::empty() };
                let whole = nat_digits((magnitude as nat) / (SCALE as nat));
                let f = (magnitude as nat) % (SCALE as nat);
                let fraction = if f == 0 {
                    Seq::<char>::empty()
                } else {
                    seq!['.'] + fraction_digits(f, (SCALE / 10) as nat)
                };
                sign + whole + fraction
            },
        }
    }

    /// The number that a text spells: an optional sign, and then either a
    /// word for infinity, in whatever case, or a decimal: digits with an
    /// optional point among them and an optional exponent. None for any other
    /// text.
    pub open spec fn parse_spec(s: Seq<char>) -> Option<Number> {
        let signed = s.len() > 0 && is_sign(s[0]);
        let negative = s.len() > 0 && s[0] == '-';
        let start: int = if signed { 1 } else { 0 };
        if spells_infinity(s.skip(start)) {
            Some(Number::Infinite { negative })
        } else {
            decimal_spec(negative, s, start)
        }
    }
}

/// Whether a character is a decimal digit.
fn is_digit_char(c: char) -> (r: bool)
    ensures
        r == is_digit(c),
{
    c >= '0' && c <= '9'
}

/// The number that a decimal digit stands for.
fn value_of_digit(c: char) -> (r: u64)
    requires
        is_digit(c),
    ensures
        r == digit_value(c),
        r < 10,
{
    (c as u32 - '0' as u32) as u64
}

/// The decimal digit that stands for a number below ten.
fn char_of_digit(d: u64) -> (r: char)
    requires
        d < 10,
    ensures
        r == digit_char(d as nat),
{
    if d == 0 {
        '0'
    } else if d == 1 {
        '1'
    } else if d == 2 {
        '2'
    } else if d == 3 {
        '3'
    } else if d == 4 {
        '4'
    } else if d == 5 {
        '5'
    } else if d == 6 {
        '6'
    } else if d == 7 {
        '7'
    } else if d == 8 {
        '8'
    } else {
        '9'
    }
}

/// Appends the decimal digits of `n` to `buf`.
pub fn push_digits(buf: &mut Vec<char>, n: u128)
    ensures
        final(buf)@ == old(buf)@ + nat_digits(n as nat),
    decreases n,
{
    if n >= 10 {
        push_digits(buf, n / 10);
    }
    buf.push(char_of_digit((n % 10) as u64));
    assert(buf@ =~= old(buf)@ + nat_digits(n as nat));
}

/// Appends the digits of the fraction `f / (10 * unit)`, up to its last digit
/// that is not zero.
fn push_fraction(buf: &mut Vec<char>, f: u128, unit: u128)
    ensures
        final(buf)@ == old(buf)@ + fraction_digits(f as nat, unit as nat),
    decreases unit,
{
    if f == 0 || unit == 0 {
        assert(buf@ =~= old(buf)@ + fraction_digits(f as nat, unit as nat));
    } else {
        buf.push(char_of_digit(((f / unit) % 10) as u64));
        push_fraction(buf, f % unit, unit / 10);
        assert(buf@ =~= old(buf)@ + fraction_digits(f as nat, unit as nat));
    }
}

/// A run of digits spells no less than the run without its last digit.
proof fn lemma_digits_value_grows(s: Seq<char>)
    requires
        s.len() > 0,
    ensures
        digits_value(s) >= digits_value(s.drop_last()),
{
    assert(digits_value(s.drop_last()) * 10 >= digits_value(s.drop_last())) by (nonlinear_arith);
}

/// A run of digits ends behind its digits, at the first character that is
/// none.
proof fn lemma_digits_end(s: Seq<char>, i: int)
    requires
        0 <= i <= s.len(),
    ensures
        i <= digits_end(s, i) <= s.len(),
        forall|j: int| i <= j < digits_end(s, i) ==> is_digit(#[trigger] s[j]),
        digits_end(s, i) < s.len() ==> !is_digit(s[digits_end(s, i)]),
    decreases s.len() - i,
{
    if i < s.len() && is_digit(s[i]) {
        lemma_digits_end(s, i + 1);
    }
}

/// Digits at places below the billionths count nothing.
proof fn lemma_place_sum_low(digits: Seq<char>, top: int)
    requires
        top < 0,
    ensures
        place_sum(digits, top) == 0,
    decreases digits.len(),
{
    if digits.len() > 0 {
        lemma_place_sum_low(digits.drop_first(), top - 1);
    }
}

/// Zeros count nothing.
proof fn lemma_place_sum_zero(digits: Seq<char>, top: int)
    requires
        forall|i: int| 0 <= i < digits.len() ==> digits[i] == '0',
    ensures
        place_sum(digits, top) == 0,
    decreases digits.len(),
{
    if digits.len() > 0 {
        let rest = digits.drop_first();
        assert forall|i: int| 0 <= i < rest.len() implies rest[i] == '0' by {
            assert(rest[i] == digits[i + 1]);
        }
        lemma_place_sum_zero(rest, top - 1);
        assert(digit_value(digits[0]) == 0);
        assert(place(digits[0], top) == 0) by (nonlinear_arith)
            requires
                digit_value(digits[0]) == 0,
                place(digits[0], top) == if top < 0 {
                    0
                } else {
                    digit_value(digits[0]) * pow10(top as nat)
                },
        ;
    }
}

/// Powers of ten multiply as their exponents add.
proof fn lemma_pow10_add(a: nat, b: nat)
    ensures
        pow10(a + b) == pow10(a) * pow10(b),
    decreases a,
{
    if a > 0 {
        lemma_pow10_add((a - 1) as nat, b);
        assert((a + b - 1) as nat == (a - 1) as nat + b);
        assert(pow10(a + b) == 10 * pow10((a + b - 1) as nat));
        assert(pow10(a) == 10 * pow10((a - 1) as nat));
        assert(10 * (pow10((a - 1) as nat) * pow10(b)) == (10 * pow10((a - 1) as nat)) * pow10(b))
            by (nonlinear_arith);
    } else {
        assert(pow10(0) == 1);
        assert(1 * pow10(b) == pow10(b));
    }
}

/// Some powers of ten.
proof fn lemma_pow10_values()
    ensures
        pow10(9) == 1_000_000_000,
        pow10(19) == 10_000_000_000_000_000_000,
        pow10(38) == 100_000_000_000_000_000_000_000_000_000_000_000_000,
        pow10(39) == 1_000_000_000_000_000_000_000_000_000_000_000_000_000,
{
    reveal_with_fuel(pow10, 10);
    assert(pow10(9) == 1_000_000_000);
    assert(pow10(10) == 10_000_000_000);
    lemma_pow10_add(10, 9);
    assert(pow10(19) == 10_000_000_000_000_000_000);
    lemma_pow10_add(19, 19);
    lemma_pow10_add(1, 38);
}

/// Ten to the power of thirty-nine or more is out of the finite range.
proof fn lemma_pow10_high(q: nat)
    requires
        q >= 39,
    ensures
        pow10(q) >= 1_000_000_000_000_000_000_000_000_000_000_000_000_000,
    decreases q,
{
    if q == 39 {
        lemma_pow10_values();
    } else {
        lemma_pow10_high((q - 1) as nat);
    }
}

/// A digit that is not zero, at the thirty-ninth place or above, carries the sum
/// out of the finite range.
proof fn lemma_place_sum_high(digits: Seq<char>, top: int, k: int)
    requires
        0 <= k < digits.len(),
        is_digit(digits[k]),
        digits[k] != '0',
        top - k >= 39,
    ensures
        place_sum(digits, top) > MAX_MAGNITUDE,
    decreases digits.len(),
{
    if k == 0 {
        lemma_pow10_high(top as nat);
        assert(digit_value(digits[0]) >= 1);
        assert(place(digits[0], top) >= pow10(top as nat)) by (nonlinear_arith)
            requires
                digit_value(digits[0]) >= 1,
                place(digits[0], top) == digit_value(digits[0]) * pow10(top as nat),
        ;
    } else {
        let rest = digits.drop_first();
        assert(rest[k - 1] == digits[k]);
        lemma_place_sum_high(rest, top - 1, k - 1);
    }
}

/// Ten to a power below thirty-nine, as a machine number.
fn power_of_ten(q: u8) -> (r: u128)
    requires
        q < 39,
    ensures
        r == pow10(q as nat),
        r <= 100_000_000_000_000_000_000_000_000_000_000_000_000,
{
    let mut r: u128 = 1;
    let mut i: u8 = 0;
    proof {
        lemma_pow10_values();
        lemma_pow10_grows(0, q as nat);
        lemma_pow10_grows(q as nat, 38);
    }
    while i < q
        invariant
            i <= q,
            q < 39,
            r == pow10(i as nat),
            pow10(38) == 100_000_000_000_000_000_000_000_000_000_000_000_000,
            pow10(q as nat) <= pow10(38),
            r <= pow10(q as nat),
        decreases q - i,
    {
        proof {
            lemma_pow10_grows((i + 1) as nat, q as nat);
        }
        r = r * 10;
        i += 1;
    }
    r
}

/// Powers of ten grow with their exponents.
proof fn lemma_pow10_grows(a: nat, b: nat)
    requires
        a <= b,
    ensures
        pow10(a) <= pow10(b),
        pow10(a) >= 1,
    decreases b,
{
    if a < b {
        lemma_pow10_grows(a, (b - 1) as nat);
    } else if a > 0 {
        lemma_pow10_grows((a - 1) as nat, (a - 1) as nat);
    }
}

/// Whether a character is a lower-case letter or that letter in upper case.
fn is_letter(c: char, letter: char) -> (r: bool)
    ensures
        r == same_letter(c, letter),
{
    c == letter || (c >= 'A' && c <= 'Z' && c as u32 + 32 == letter as u32)
}

/// Whether a text spells a word from `start` on to its end.
fn spells_from(s: &Vec<char>, start: usize, word: &Vec<char>) -> (r: bool)
    requires
        start <= s.len(),
    ensures
        r == spells(s@.skip(start as int), word@),
{
    let n: usize = s.len() - start;
    if n != word.len() {
        return false;
    }
    let ghost rest = s@.skip(start as int);
    let mut i: usize = 0;
    while i < n
        invariant
            i <= n,
            n == word.len(),
            start + n == s.len(),
            rest == s@.skip(start as int),
            forall|j: int| 0 <= j < i ==> same_letter(rest[j], word@[j]),
        decreases n - i,
    {
        assert(rest[i as int] == s@[start + i]);
        if !is_letter(s[start + i], word[i]) {
            return false;
        }
        i += 1;
    }
    true
}

/// The end of the run of digits that starts at `from`.
fn scan_digits(s: &Vec<char>, from: usize) -> (r: usize)
    requires
        from <= s.len(),
    ensures
        r == digits_end(s@, from as int),
        from <= r <= s.len(),
{
    let mut i: usize = from;
    while i < s.len() && is_digit_char(s[i])
        invariant
            from <= i <= s.len(),
            digits_end(s@, from as int) == digits_end(s@, i as int),
        decreases s.len() - i,
    {
        i += 1;
    }
    i
}

/// The size of an exponent as a machine number: none where it is larger than
/// any count of digits could make up for.
fn exponent_size(s: &Vec<char>, first: usize, end: usize) -> (r: Option<u128>)
    requires
        first <= end <= s.len(),
        forall|j: int| first <= j < end ==> is_digit(#[trigger] s@[j]),
    ensures
        match r {
            Some(v) => v == digits_value(s@.subrange(first as int, end as int)) && v
                <= 0x1_0000_0000_0000_0000_0000_0000,
            None => digits_value(s@.subrange(first as int, end as int))
                > 0x1_0000_0000_0000_0000_0000_0000,
        },
{
    let mut v: u128 = 0;
    let mut big: bool = false;
    let mut i: usize = first;
    assert(s@.subrange(first as int, first as int).len() == 0);
    while i < end
        invariant
            first <= i <= end,
            end <= s.len(),
            forall|j: int| first <= j < end ==> is_digit(#[trigger] s@[j]),
            !big ==> v == digits_value(s@.subrange(first as int, i as int)) && v
                <= 0x1_0000_0000_0000_0000_0000_0000,
            big ==> digits_value(s@.subrange(first as int, i as int))
                > 0x1_0000_0000_0000_0000_0000_0000,
        decreases end - i,
    {
        let d: u64 = value_of_digit(s[i]);
        proof {
            let t = s@.subrange(first as int, i + 1);
            assert(t.drop_last() =~= s@.subrange(first as int, i as int));
            assert(t.last() == s@[i as int]);
            lemma_digits_value_grows(t);
        }
        if !big {
            v = v * 10 + d as u128;
            if v > 0x1_0000_0000_0000_0000_0000_0000 {
                big = true;
            }
        }
        i += 1;
    }
    if big {
        None
    } else {
        Some(v)
    }
}

/// What two runs of digits in a row count is what the first counts and what
/// the second counts below it.
proof fn lemma_place_sum_concat(a: Seq<char>, b: Seq<char>, top: int)
    ensures
        place_sum(a + b, top) == place_sum(a, top) + place_sum(b, top - a.len()),
    decreases a.len(),
{
    if a.len() == 0 {
        assert(a + b =~= b);
    } else {
        assert((a + b)[0] == a[0]);
        assert((a + b).drop_first() =~= a.drop_first() + b);
        lemma_place_sum_concat(a.drop_first(), b, top - 1);
    }
}

/// The digits of a number, with the last of them at a place, count the
/// number times ten to the power of the place.
proof fn lemma_place_sum_of_digits(n: nat, k: nat)
    ensures
        nat_digits(n).len() > 0,
        forall|i: int| 0 <= i < nat_digits(n).len() ==> is_digit(#[trigger] nat_digits(n)[i]),
        place_sum(nat_digits(n), nat_digits(n).len() - 1 + k) == n * pow10(k),
    decreases n,
{
    let t = nat_digits(n);
    if n < 10 {
        assert(t.len() == 1);
        assert(t[0] == digit_char(n));
        assert(digit_value(t[0]) == n);
        assert(t.drop_first().len() == 0);
        assert(place_sum(t.drop_first(), k - 1) == 0);
    } else {
        let shorter = nat_digits(n / 10);
        let last = seq![digit_char(n % 10)];
        lemma_place_sum_of_digits(n / 10, k + 1);
        assert(t =~= shorter + last);
        lemma_place_sum_concat(shorter, last, (shorter.len() + k) as int);
        assert(last.drop_first().len() == 0);
        assert(place_sum(last.drop_first(), k - 1) == 0);
        assert(digit_value(last[0]) == n % 10);
        assert(place_sum(last, k as int) == (n % 10) * pow10(k));
        assert(pow10(k + 1) == 10 * pow10(k));
        assert((n / 10) * pow10(k + 1) + (n % 10) * pow10(k) == n * pow10(k)) by (nonlinear_arith)
            requires
                pow10(k + 1) == 10 * pow10(k),
        ;
        assert forall|i: int| 0 <= i < t.len() implies is_digit(#[trigger] t[i]) by {
            if i < shorter.len() {
                assert(t[i] == shorter[i]);
            } else {
                assert(t[i] == last[0]);
            }
        }
    }
}

/// The digits of a fraction count the fraction.
proof fn lemma_place_sum_of_fraction(f: nat, q: nat)
    requires
        f < 10 * pow10(q),
    ensures
        forall|i: int|
            0 <= i < fraction_digits(f, pow10(q)).len() ==> is_digit(
                #[trigger] fraction_digits(f, pow10(q))[i],
            ),
        place_sum(fraction_digits(f, pow10(q)), q as int) == f,
        f > 0 ==> fraction_digits(f, pow10(q)).len() > 0,
    decreases q,
{
    let unit = pow10(q);
    lemma_pow10_grows(0, q);
    let t = fraction_digits(f, unit);
    if f == 0 {
    } else {
        let d = f / unit;
        assert(d < 10 && f == d * unit + f % unit && f % unit < unit) by (nonlinear_arith)
            requires
                d == f / unit,
                unit > 0,
                f < 10 * unit,
        ;
        let rest = fraction_digits(f % unit, unit / 10);
        assert(t == seq![digit_char(d % 10)] + rest);
        assert(t[0] == digit_char(d));
        assert(digit_value(t[0]) == d);
        assert(t.drop_first() =~= rest);
        assert(place(t[0], q as int) == d * unit);
        if q > 0 {
            assert(unit == 10 * pow10((q - 1) as nat));
            assert(unit / 10 == pow10((q - 1) as nat));
            lemma_place_sum_of_fraction(f % unit, (q - 1) as nat);
            assert(place_sum(rest, q - 1) == f % unit);
        } else {
            assert(unit == 1);
            assert(f % unit == 0);
            assert(rest.len() == 0);
            assert(place_sum(rest, q - 1) == 0);
        }
        assert(place_sum(t, q as int) == place(t[0], q as int) + place_sum(
            t.drop_first(),
            q - 1,
        ));
        assert forall|i: int| 0 <= i < t.len() implies is_digit(#[trigger] t[i]) by {
            if i > 0 {
                assert(t[i] == rest[i - 1]);
            }
        }
    }
}

/// A run of digits ends where its digits end.
proof fn lemma_digits_end_at(s: Seq<char>, i: int, end: int)
    requires
        0 <= i <= end <= s.len(),
        forall|j: int| i <= j < end ==> is_digit(#[trigger] s[j]),
        end < s.len() ==> !is_digit(s[end]),
    ensures
        digits_end(s, i) == end,
    decreases end - i,
{
    if i < end {
        lemma_digits_end_at(s, i + 1, end);
    }
}

/// The text of a finite number that is no negative zero spells the number.
pub proof fn lemma_text_spells_number(n: Number)
    requires
        n is Finite,
        n.canonical(),
    ensures
        Number::parse_spec(n.text_spec()) == Some(n),
{
    let negative = n->Finite_negative;
    let magnitude = n->Finite_magnitude;
    let w = (magnitude as nat) / (SCALE as nat);
    let f = (magnitude as nat) % (SCALE as nat);
    lemma_pow10_values();
    lemma_pow10_add(1, 8);
    assert(pow10(1) == 10) by {
        reveal_with_fuel(pow10, 2);
    }
    assert(pow10(8) == 100_000_000);
    let whole = nat_digits(w);
    let digits = fraction_digits(f, pow10(8));
    lemma_place_sum_of_digits(w, 9);
    lemma_place_sum_of_fraction(f, 8);
    let sign = if negative { seq!['-'] } else { Seq::<char>::empty() };
    let fraction = if f == 0 { Seq::<char>::empty() } else { seq!['.'] + digits };
    let s = sign + whole + fraction;
    assert(s == n.text_spec());
    let start: int = if negative { 1 } else { 0 };
    let p = start + whole.len();
    assert forall|j: int| start <= j < p implies is_digit(#[trigger] s[j]) by {
        assert(s[j] == whole[j - start]);
    }
    assert(is_digit(whole[0]));
    assert(s[start] == whole[0]);
    if negative {
        assert(s[0] == '-');
    }
    assert(!spells_infinity(s.skip(start))) by {
        assert(s.skip(start)[0] == whole[0]);
        assert(!same_letter(whole[0], 'i'));
        if spells(s.skip(start), seq!['i', 'n', 'f']) {
            assert(same_letter(s.skip(start)[0], seq!['i', 'n', 'f'][0]));
        }
        if spells(s.skip(start), seq!['i', 'n', 'f', 'i', 'n', 'i', 't', 'y']) {
            assert(same_letter(
                s.skip(start)[0],
                seq!['i', 'n', 'f', 'i', 'n', 'i', 't', 'y'][0],
            ));
        }
    }
    if f != 0 {
        assert(s[p] == '.');
        assert forall|j: int| p + 1 <= j < s.len() implies is_digit(#[trigger] s[j]) by {
            assert(s[j] == digits[j - p - 1]);
        }
        lemma_digits_end_at(s, start, p);
        lemma_digits_end_at(s, p + 1, s.len() as int);
        assert(s.subrange(start, p) =~= whole);
        assert(s.subrange(p + 1, s.len() as int) =~= digits);
    } else {
        lemma_digits_end_at(s, start, p);
        lemma_digits_end_at(s, p, p);
        assert(s.subrange(start, p) =~= whole);
        assert(s.subrange(p, p) =~= Seq::<char>::empty());
        assert(digits.len() == 0);
    }
    lemma_place_sum_concat(whole, digits, whole.len() - 1 + 9);
    assert(w * pow10(9) + f == magnitude) by (nonlinear_arith)
        requires
            w == (magnitude as nat) / 1_000_000_000,
            f == (magnitude as nat) % 1_000_000_000,
            pow10(9) == 1_000_000_000,
    ;
}

/// The product of two magnitudes in billionths; none where it is out of range.
fn scaled_product(m: u128, n: u128) -> (r: Option<u128>)
    ensures
        match r {
            Some(v) => v == (m as nat) * (n as nat) / (SCALE as nat),
            None => (m as nat) * (n as nat) / (SCALE as nat) > MAX_MAGNITUDE,
        },
{
    let nh: u128 = n / SCALE;
    let nl: u128 = n % SCALE;
    let mh: u128 = m / SCALE;
    let ml: u128 = m % SCALE;
    assert((m as nat) * (n as nat) / 1_000_000_000 == (m as nat) * (nh as nat) + (mh as nat) * (
    nl as nat) + (ml as nat) * (nl as nat) / 1_000_000_000) by (nonlinear_arith)
        requires
            n == nh * 1_000_000_000 + nl,
            m == mh * 1_000_000_000 + ml,
            0 <= nl < 1_000_000_000,
            0 <= ml < 1_000_000_000,
    ;
    if nh != 0 && m > MAX_MAGNITUDE / nh {
        assert((m as nat) * (nh as nat) > MAX_MAGNITUDE) by (nonlinear_arith)
            requires
                nh > 0,
                m > MAX_MAGNITUDE / nh,
        ;
        return None;
    }
    assert((m as nat) * (nh as nat) <= MAX_MAGNITUDE) by (nonlinear_arith)
        requires
            nh == 0 || m <= MAX_MAGNITUDE / nh,
    ;
    assert((mh as nat) * (nl as nat) <= MAX_MAGNITUDE && (ml as nat) * (nl as nat)
        < 1_000_000_000 * 1_000_000_000) by (nonlinear_arith)
        requires
            mh == m / 1_000_000_000,
            m <= MAX_MAGNITUDE,
            nl < 1_000_000_000,
            ml < 1_000_000_000,
    ;
    let t1: u128 = m * nh;
    let t2: u128 = mh * nl;
    let t3: u128 = (ml * nl) / SCALE;
    if t1 > MAX_MAGNITUDE - t2 {
        return None;
    }
    let sum: u128 = t1 + t2;
    if sum > MAX_MAGNITUDE - t3 {
        return None;
    }
    Some(sum + t3)
}

/// Ten times `x` divided by `n`, for `x` below `n`: the quotient, which is a
/// digit, and the remainder.
fn times_ten(x: u128, n: u128) -> (r: (u128, u128))
    requires
        x < n,
    ensures
        10 * (x as nat) == (r.0 as nat) * (n as nat) + r.1,
        r.0 <= 9,
        r.1 < n,
{
    let mut d: u128 = 0;
    let mut t: u128 = 0;
    let mut j: u128 = 0;
    while j < 10
        invariant
            j <= 10,
            x < n,
            d <= j,
            t < n,
            (j as nat) * (x as nat) == (d as nat) * (n as nat) + t,
            j == 10 ==> d <= 9,
        decreases 10 - j,
    {
        let ghost before_d = d;
        let ghost before_t = t;
        if t >= n - x {
            t = t - (n - x);
            d = d + 1;
        } else {
            t = t + x;
        }
        j = j + 1;
        assert((j as nat) * (x as nat) == (d as nat) * (n as nat) + t) by (nonlinear_arith)
            requires
                ((j - 1) as nat) * (x as nat) == (before_d as nat) * (n as nat) + before_t,
                (d == before_d + 1 && t + n == before_t + x) || (d == before_d && t == before_t
                    + x),
                j >= 1,
        ;
        assert(j == 10 ==> d <= 9) by (nonlinear_arith)
            requires
                (j as nat) * (x as nat) == (d as nat) * (n as nat) + t,
                x < n,
                d <= j,
        ;
    }
    (d, t)
}

/// The quotient of two magnitudes in billionths; none where it is out of
/// range.
fn scaled_quotient(m: u128, n: u128) -> (r: Option<u128>)
    requires
        n > 0,
    ensures
        match r {
            Some(v) => v == (m as nat) * (SCALE as nat) / (n as nat),
            None => (m as nat) * (SCALE as nat) / (n as nat) > MAX_MAGNITUDE,
        },
{
    let q: u128 = m / n;
    let rem: u128 = m % n;
    let mut x: u128 = rem;
    let mut digits: u128 = 0;
    let mut j: u8 = 0;
    proof {
        lemma_pow10_values();
        lemma_pow10_grows(0, 9);
    }
    assert(m == q * n + rem) by (nonlinear_arith)
        requires
            q == m / n,
            rem == m % n,
            n > 0,
    ;
    while j < 9
        invariant
            j <= 9,
            n > 0,
            x < n,
            digits < pow10(j as nat),
            pow10(9) == 1_000_000_000,
            pow10(j as nat) <= pow10(9),
            (rem as nat) * pow10(j as nat) == (digits as nat) * (n as nat) + x,
        decreases 9 - j,
    {
        let (d, t) = times_ten(x, n);
        proof {
            lemma_pow10_grows((j + 1) as nat, 9);
            assert((rem as nat) * pow10((j + 1) as nat) == ((digits as nat) * 10 + d) * (n as nat)
                + t && (digits as nat) * 10 + d < pow10((j + 1) as nat)) by (nonlinear_arith)
                requires
                    (rem as nat) * pow10(j as nat) == (digits as nat) * (n as nat) + x,
                    10 * (x as nat) == (d as nat) * (n as nat) + t,
                    pow10((j + 1) as nat) == 10 * pow10(j as nat),
                    digits < pow10(j as nat),
                    d <= 9,
            ;
        }
        digits = digits * 10 + d;
        x = t;
        j += 1;
    }
    assert((m as nat) * 1_000_000_000 / (n as nat) == (q as nat) * 1_000_000_000 + digits)
        by (nonlinear_arith)
        requires
            m == q * n + rem,
            (rem as nat) * 1_000_000_000 == (digits as nat) * (n as nat) + x,
            x < n,
            n > 0,
    ;
    if q > MAX_MAGNITUDE / SCALE {
        assert((q as nat) * 1_000_000_000 > MAX_MAGNITUDE) by (nonlinear_arith)
            requires
                q > MAX_MAGNITUDE / 1_000_000_000,
        ;
        return None;
    }
    assert((q as nat) * 1_000_000_000 <= MAX_MAGNITUDE) by (nonlinear_arith)
        requires
            q <= MAX_MAGNITUDE / 1_000_000_000,
    ;
    let t1: u128 = q * SCALE;
    if t1 > MAX_MAGNITUDE - digits {
        return None;
    }
    Some(t1 + digits)
}

impl Number {
    /// The finite number of the given sign and magnitude; zero has no sign.
    pub fn make(negative: bool, magnitude: u128) -> (r: Number)
        ensures
            r == Number::of_signed(negative, magnitude as nat),
            r.canonical(),
    {
        if magnitude == 0 {
            Number::Finite { negative: false, magnitude: 0 }
        } else {
            Number::Finite { negative, magnitude }
        }
    }

    /// The finite number of the given sign and magnitude, or the infinity of
    /// that sign where the magnitude is out of range.
    fn sized(negative: bool, magnitude: Option<u128>, Ghost(size): Ghost<nat>) -> (r: Number)
        requires
            match magnitude {
                Some(v) => v == size,
                None => size > MAX_MAGNITUDE,
            },
        ensures
            r == Number::of_signed(negative, size),
    {
        match magnitude {
            Some(v) => Number::make(negative, v),
            None => Number::Infinite { negative },
        }
    }

    /// The number zero.
    pub fn nought() -> (r: Number)
        ensures
            r == Number::zero(),
    {
        Number::Finite { negative: false, magnitude: 0 }
    }

    /// The number one.
    pub fn one() -> (r: Number)
        ensures
            r == (Number::Finite { negative: false, magnitude: SCALE }),
    {
        Number::Finite { negative: false, magnitude: SCALE }
    }

    /// One half, the number that the truth value `maybe` counts as.
    pub fn half() -> (r: Number)
        ensures
            r == (Number::Finite { negative: false, magnitude: 500_000_000 }),
    {
        Number::Finite { negative: false, magnitude: 500_000_000 }
    }

    /// The circle constant, cut off after nine fractional digits.
    pub fn pi() -> (r: Number)
        ensures
            r == (Number::Finite { negative: false, magnitude: 3_141_592_653 }),
    {
        Number::Finite { negative: false, magnitude: 3_141_592_653 }
    }

    /// The positive infinity.
    pub fn infinity() -> (r: Number)
        ensures
            r == (Number::Infinite { negative: false }),
    {
        Number::Infinite { negative: false }
    }

    /// The number that equals the given integer.
    pub fn from_int(v: i64) -> (r: Number)
        ensures
            r == Number::of_scaled(v as int * SCALE as int),
    {
        if v >= 0 {
            assert(v * (SCALE as nat) <= 0x8000_0000_0000_0000 * 1_000_000_000)
                by (nonlinear_arith)
                requires
                    0 <= v <= 0x8000_0000_0000_0000,
                    SCALE == 1_000_000_000,
            ;
            let m: u128 = (v as u128) * SCALE;
            Number::make(false, m)
        } else {
            let a: u128 = (-(v as i128)) as u128;
            assert(a * (SCALE as nat) <= 0x8000_0000_0000_0000 * 1_000_000_000)
                by (nonlinear_arith)
                requires
                    a <= 0x8000_0000_0000_0000,
                    SCALE == 1_000_000_000,
            ;
            let m: u128 = a * SCALE;
            Number::make(true, m)
        }
    }

    /// The number with the opposite sign.
    pub fn neg(&self) -> (r: Number)
        ensures
            r == self.neg_spec(),
    {
        match *self {
            Number::Finite { negative, magnitude } => Number::make(!negative, magnitude),
            Number::Infinite { negative } => Number::Infinite { negative: !negative },
        }
    }

    /// The sum; none where two opposite infinities meet.
    pub fn add(&self, rhs: &Number) -> (r: Option<Number>)
        ensures
            r == self.add_spec(*rhs),
    {
        match (*self, *rhs) {
            (
                Number::Finite { negative: a, magnitude: m },
                Number::Finite { negative: b, magnitude: n },
            ) => {
                if a == b {
                    if m > MAX_MAGNITUDE - n {
                        Some(Number::Infinite { negative: a })
                    } else {
                        Some(Number::make(a, m + n))
                    }
                } else if m >= n {
                    Some(Number::make(a, m - n))
                } else {
                    Some(Number::make(b, n - m))
                }
            },
            (Number::Infinite { negative }, Number::Finite { .. }) => Some(
                Number::Infinite { negative },
            ),
            (Number::Finite { .. }, Number::Infinite { negative }) => Some(
                Number::Infinite { negative },
            ),
            (Number::Infinite { negative: a }, Number::Infinite { negative: b }) => {
                if a == b {
                    Some(Number::Infinite { negative: a })
                } else {
                    None
                }
            },
        }
    }

    /// The difference; none where two infinities of one sign meet.
    pub fn sub(&self, rhs: &Number) -> (r: Option<Number>)
        ensures
            r == self.sub_spec(*rhs),
    {
        let n = rhs.neg();
        self.add(&n)
    }

    /// The product, cut off towards zero; none for zero times an infinity.
    pub fn mul(&self, rhs: &Number) -> (r: Option<Number>)
        ensures
            r == self.mul_spec(*rhs),
    {
        match (*self, *rhs) {
            (
                Number::Finite { negative: a, magnitude: m },
                Number::Finite { negative: b, magnitude: n },
            ) => Some(
                Number::sized(
                    a != b,
                    scaled_product(m, n),
                    Ghost(((m as nat) * (n as nat) / (SCALE as nat)) as nat),
                ),
            ),
            (Number::Infinite { negative: a }, Number::Infinite { negative: b }) => Some(
                Number::Infinite { negative: a != b },
            ),
            (Number::Infinite { negative: a }, Number::Finite { negative: b, magnitude }) => {
                if magnitude == 0 {
                    None
                } else {
                    Some(Number::Infinite { negative: a != b })
                }
            },
            (Number::Finite { negative: a, magnitude }, Number::Infinite { negative: b }) => {
                if magnitude == 0 {
                    None
                } else {
                    Some(Number::Infinite { negative: a != b })
                }
            },
        }
    }

    /// The quotient, cut off towards zero; none for a zero divisor and for two
    /// infinities.
    pub fn div(&self, rhs: &Number) -> (r: Option<Number>)
        ensures
            r == self.div_spec(*rhs),
    {
        match (*self, *rhs) {
            (
                Number::Finite { negative: a, magnitude: m },
                Number::Finite { negative: b, magnitude: n },
            ) => {
                if n == 0 {
                    None
                } else {
                    Some(
                        Number::sized(
                            a != b,
                            scaled_quotient(m, n),
                            Ghost(((m as nat) * (SCALE as nat) / (n as nat)) as nat),
                        ),
                    )
                }
            },
            (Number::Finite { .. }, Number::Infinite { .. }) => Some(Number::nought()),
            (Number::Infinite { negative: a }, Number::Finite { negative: b, magnitude }) => {
                if magnitude == 0 {
                    None
                } else {
                    Some(Number::Infinite { negative: a != b })
                }
            },
            (Number::Infinite { .. }, Number::Infinite { .. }) => None,
        }
    }

    /// The remainder, with the sign of the dividend; none for a zero divisor
    /// and for an infinite dividend.
    pub fn rem(&self, rhs: &Number) -> (r: Option<Number>)
        ensures
            r == self.rem_spec(*rhs),
    {
        match (*self, *rhs) {
            (
                Number::Finite { negative: a, magnitude: m },
                Number::Finite { negative: b, magnitude: n },
            ) => {
                if n == 0 {
                    None
                } else {
                    Some(Number::make(a, m % n))
                }
            },
            (Number::Finite { .. }, Number::Infinite { .. }) => Some(*self),
            (Number::Infinite { .. }, _) => None,
        }
    }

    /// The sign, whether the number is an infinity, and the magnitude; zero
    /// has no sign.
    fn parts(&self) -> (r: (bool, bool, u128))
        ensures
            self.scaled() == if r.1 {
                if r.0 {
                    -(MAX_MAGNITUDE as int) - 1
                } else {
                    MAX_MAGNITUDE as int + 1
                }
            } else if r.0 {
                -(r.2 as int)
            } else {
                r.2 as int
            },
            !r.1 && r.0 ==> r.2 > 0,
    {
        match *self {
            Number::Finite { negative, magnitude } => (negative && magnitude != 0, false, magnitude),
            Number::Infinite { negative } => (negative, true, 0),
        }
    }

    /// Whether the number is less than another.
    pub fn lt(&self, rhs: &Number) -> (r: bool)
        ensures
            r == self.lt_spec(*rhs),
    {
        let (an, ai, am) = self.parts();
        let (bn, bi, bm) = rhs.parts();
        if an != bn {
            an
        } else if !an {
            if ai {
                false
            } else if bi {
                true
            } else {
                am < bm
            }
        } else {
            if bi {
                false
            } else if ai {
                true
            } else {
                am > bm
            }
        }
    }

    /// Whether the number is less than another or equal to it.
    pub fn le(&self, rhs: &Number) -> (r: bool)
        ensures
            r == self.le_spec(*rhs),
    {
        !rhs.lt(self)
    }

    /// Whether the two numbers hold the same value; a negative zero equals
    /// zero.
    pub fn same(&self, rhs: &Number) -> (r: bool)
        ensures
            r == (self.scaled() == rhs.scaled()),
    {
        !self.lt(rhs) && !rhs.lt(self)
    }

    /// Whether the two numbers are within the loose tolerance of each other.
    pub fn close(&self, rhs: &Number) -> (r: bool)
        ensures
            r == self.close_spec(*rhs),
    {
        match (*self, *rhs) {
            (
                Number::Finite { negative: a, magnitude: m },
                Number::Finite { negative: b, magnitude: n },
            ) => {
                if a != b || m == 0 || n == 0 {
                    false
                } else {
                    let forth = scaled_quotient(m, n);
                    let back = scaled_quotient(n, m);
                    assert(((m as nat) * 1_000_000_000 < (n as nat) * 1_105_170_918) == ((m as nat)
                        * 1_000_000_000 / (n as nat) < 1_105_170_918)) by (nonlinear_arith)
                        requires
                            n > 0,
                    ;
                    assert(((n as nat) * 1_000_000_000 < (m as nat) * 1_105_170_918) == ((n as nat)
                        * 1_000_000_000 / (m as nat) < 1_105_170_918)) by (nonlinear_arith)
                        requires
                            m > 0,
                    ;
                    match (forth, back) {
                        (Some(x), Some(y)) => x < TOLERANCE && y < TOLERANCE,
                        _ => false,
                    }
                }
            },
            _ => false,
        }
    }

    /// The truth value of the number.
    pub fn truth(&self) -> (r: Boolean)
        ensures
            r == self.truth_spec(),
    {
        let (negative, infinite, magnitude) = self.parts();
        if !negative && (infinite || magnitude >= SCALE) {
            Boolean::True
        } else if negative || magnitude == 0 {
            Boolean::False
        } else {
            Boolean::Maybe
        }
    }

    /// Whether the sign of the number is set.
    pub fn negative(&self) -> (r: bool)
        ensures
            r == self.is_negative(),
    {
        match *self {
            Number::Finite { negative, .. } => negative,
            Number::Infinite { negative } => negative,
        }
    }

    /// The whole part of the magnitude; none for an infinity.
    pub fn whole(&self) -> (r: Option<u128>)
        ensures
            r.is_some() == self.whole_spec().is_some(),
            r matches Some(w) ==> w as nat == self.whole_spec().unwrap(),
    {
        match *self {
            Number::Finite { magnitude, .. } => Some(magnitude / SCALE),
            Number::Infinite { .. } => None,
        }
    }

    /// The billionths of the magnitude past its whole part.
    pub fn fraction(&self) -> (r: u64)
        ensures
            r as nat == self.fraction_spec(),
            r < SCALE,
    {
        match *self {
            Number::Finite { magnitude, .. } => (magnitude % SCALE) as u64,
            Number::Infinite { .. } => 0,
        }
    }

    /// The text of the number.
    pub fn to_text(&self) -> (r: Vec<char>)
        ensures
            r@ == self.text_spec(),
    {
        let mut buf: Vec<char> = Vec::new();
        match *self {
            Number::Infinite { negative } => {
                if negative {
                    buf.push('-');
                }
                buf.push('i');
                buf.push('n');
                buf.push('f');
                assert(buf@ =~= self.text_spec());
            },
            Number::Finite { negative, magnitude } => {
                if negative {
                    buf.push('-');
                }
                let ghost sign = buf@;
                push_digits(&mut buf, magnitude / SCALE);
                let f: u128 = magnitude % SCALE;
                if f != 0 {
                    buf.push('.');
                    let ghost before = buf@;
                    push_fraction(&mut buf, f, SCALE / 10);
                    assert(buf@ =~= sign + nat_digits((magnitude as nat) / (SCALE as nat)) + (seq![
                        '.',
                    ] + fraction_digits(f as nat, (SCALE / 10) as nat)));
                } else {
                    assert(buf@ =~= sign + nat_digits((magnitude as nat) / (SCALE as nat))
                        + Seq::<char>::empty());
                }
            },
        }
        buf
    }

    /// The number that a text spells, if it spells one.
    pub fn parse(s: &Vec<char>) -> (r: Option<Number>)
        ensures
            r == Number::parse_spec(s@),
    {
        let n: usize = s.len();
        let signed: bool = n > 0 && (s[0] == '+' || s[0] == '-');
        let negative: bool = n > 0 && s[0] == '-';
        let start: usize = if signed { 1 } else { 0 };
        let mut short: Vec<char> = Vec::new();
        short.push('i');
        short.push('n');
        short.push('f');
        let mut long: Vec<char> = Vec::new();
        long.push('i');
        long.push('n');
        long.push('f');
        long.push('i');
        long.push('n');
        long.push('i');
        long.push('t');
        long.push('y');
        assert(short@ =~= seq!['i', 'n', 'f']);
        assert(long@ =~= seq!['i', 'n', 'f', 'i', 'n', 'i', 't', 'y']);
        if spells_from(s, start, &short) || spells_from(s, start, &long) {
            return Some(Number::Infinite { negative });
        }
        Number::parse_decimal(negative, s, start)
    }

    /// Whether a text spells what is no number: `nan` in whatever case, with
    /// or without a sign.
    pub fn is_nan(s: &Vec<char>) -> (r: bool)
        ensures
            r == spells_nan(s@),
    {
        let n: usize = s.len();
        let start: usize = if n > 0 && (s[0] == '+' || s[0] == '-') { 1 } else { 0 };
        let mut word: Vec<char> = Vec::new();
        word.push('n');
        word.push('a');
        word.push('n');
        assert(word@ =~= seq!['n', 'a', 'n']);
        assert(s@.skip(0) =~= s@);
        spells_from(s, start, &word)
    }

    /// The number that a text spells from `start` on, after its sign.
    pub fn parse_decimal(negative: bool, s: &Vec<char>, start: usize) -> (r: Option<Number>)
        ensures
            r == decimal_spec(negative, s@, start as int),
    {
        let n: usize = s.len();
        if start > n {
            proof {
                assert(digits_end(s@, start as int) == start);
            }
            return None;
        }
        let whole_end: usize = scan_digits(s, start);
        let has_point: bool = whole_end < n && s[whole_end] == '.';
        let fraction_start: usize = if has_point { whole_end + 1 } else { whole_end };
        let fraction_end: usize = scan_digits(s, fraction_start);
        let whole_len: usize = whole_end - start;
        let fraction_len: usize = fraction_end - fraction_start;
        let ghost digits = s@.subrange(start as int, whole_end as int) + s@.subrange(
            fraction_start as int,
            fraction_end as int,
        );
        proof {
            lemma_digits_end(s@, start as int);
            lemma_digits_end(s@, fraction_start as int);
            assert forall|k: int| 0 <= k < digits.len() implies is_digit(
                #[trigger] digits[k],
            ) by {
                if k < whole_len {
                    assert(digits[k] == s@[start + k]);
                } else {
                    assert(digits[k] == s@[fraction_start + (k - whole_len)]);
                }
            }
        }
        if whole_len == 0 && fraction_len == 0 {
            return None;
        }
        // The exponent.
        let mut exponent: i128 = 0;
        let mut huge: bool = false;
        let mut down: bool = false;
        if fraction_end < n {
            if !(s[fraction_end] == 'e' || s[fraction_end] == 'E') {
                return None;
            }
            let marked: bool = fraction_end + 1 < n && (s[fraction_end + 1] == '+'
                || s[fraction_end + 1] == '-');
            down = marked && s[fraction_end + 1] == '-';
            let first: usize = if marked { fraction_end + 2 } else { fraction_end + 1 };
            let end: usize = scan_digits(s, first);
            proof {
                lemma_digits_end(s@, first as int);
            }
            if end != n || first >= end {
                return None;
            }
            match exponent_size(s, first, end) {
                Some(v) => {
                    exponent = if down { -(v as i128) } else { v as i128 };
                },
                None => {
                    huge = true;
                },
            }
        }
        let ghost e = exponent_spec(s@, fraction_end as int)->Some_0;
        let ghost top = whole_len + 8 + e;
        if huge {
            // No count of digits makes up for the exponent: all depends on
            // whether any digit is not zero, and on the sign of the exponent.
            let mut k: usize = 0;
            let mut all_zero: bool = true;
            while k < whole_len + fraction_len && all_zero
                invariant
                    k <= whole_len + fraction_len,
                    whole_len == whole_end - start,
                    fraction_len == fraction_end - fraction_start,
                    start <= whole_end <= fraction_start <= fraction_end <= s.len(),
                    digits == s@.subrange(start as int, whole_end as int) + s@.subrange(
                        fraction_start as int,
                        fraction_end as int,
                    ),
                    all_zero ==> forall|j: int| 0 <= j < k ==> digits[j] == '0',
                    !all_zero ==> 0 < k && digits[k - 1] != '0',
                decreases whole_len + fraction_len - k,
            {
                let c: char = if k < whole_len {
                    s[start + k]
                } else {
                    s[fraction_start + (k - whole_len)]
                };
                assert(c == digits[k as int]);
                if c != '0' {
                    all_zero = false;
                }
                k += 1;
            }
            proof {
                if all_zero {
                    lemma_place_sum_zero(digits, top);
                } else if down {
                    lemma_place_sum_low(digits, top);
                } else {
                    lemma_place_sum_high(digits, top, k - 1);
                }
            }
            return Some(
                if all_zero || down {
                    Number::make(negative, 0)
                } else {
                    Number::Infinite { negative }
                },
            );
        }
        let top_place: i128 = whole_len as i128 + 8 + exponent;
        assert(top_place == top);
        let mut acc: u128 = 0;
        let mut k: usize = 0;
        assert(digits.skip(0) =~= digits);
        assert(decimal_spec(negative, s@, start as int) == Some(
            Number::of_signed(negative, place_sum(digits, top)),
        ));
        while k < whole_len + fraction_len
            invariant
                k <= whole_len + fraction_len,
                decimal_spec(negative, s@, start as int) == Some(
                    Number::of_signed(negative, place_sum(digits, top)),
                ),
                whole_len == whole_end - start,
                fraction_len == fraction_end - fraction_start,
                start <= whole_end <= fraction_start <= fraction_end <= s.len(),
                digits == s@.subrange(start as int, whole_end as int) + s@.subrange(
                    fraction_start as int,
                    fraction_end as int,
                ),
                forall|j: int| 0 <= j < digits.len() ==> is_digit(#[trigger] digits[j]),
                top_place == top,
                -0x1_0000_0000_0000_0000_0000_0000 <= top_place - whole_len - 8
                    <= 0x1_0000_0000_0000_0000_0000_0000,
                acc <= MAX_MAGNITUDE,
                place_sum(digits, top) == acc + place_sum(digits.skip(k as int), top - k),
            decreases whole_len + fraction_len - k,
        {
            let q: i128 = top_place - k as i128;
            let c: char = if k < whole_len {
                s[start + k]
            } else {
                s[fraction_start + (k - whole_len)]
            };
            let ghost rest = digits.skip(k as int);
            assert(c == digits[k as int]);
            assert(rest[0] == c);
            assert(rest.drop_first() =~= digits.skip(k + 1));
            if q < 0 {
                proof {
                    lemma_place_sum_low(rest, q as int);
                }
                return Some(Number::make(negative, acc));
            }
            let d: u64 = value_of_digit(c);
            if q >= 39 {
                if d > 0 {
                    proof {
                        lemma_place_sum_high(rest, q as int, 0);
                    }
                    return Some(Number::Infinite { negative });
                }
                assert(place(c, q as int) == 0) by (nonlinear_arith)
                    requires
                        digit_value(c) == 0,
                        q >= 0,
                        place(c, q as int) == digit_value(c) * pow10(q as nat),
                ;
            } else {
                let unit: u128 = power_of_ten(q as u8);
                if d != 0 && unit > MAX_MAGNITUDE / (d as u128) {
                    assert(digit_value(c) * pow10(q as nat) > MAX_MAGNITUDE) by (nonlinear_arith)
                        requires
                            d == digit_value(c),
                            unit == pow10(q as nat),
                            d > 0,
                            unit > MAX_MAGNITUDE / (d as u128),
                    ;
                    return Some(Number::Infinite { negative });
                }
                assert((d as nat) * (unit as nat) <= MAX_MAGNITUDE) by (nonlinear_arith)
                    requires
                        d == 0 || unit <= MAX_MAGNITUDE / (d as u128),
                ;
                let worth: u128 = d as u128 * unit;
                if acc > MAX_MAGNITUDE - worth {
                    return Some(Number::Infinite { negative });
                }
                acc = acc + worth;
            }
            k += 1;
        }
        assert(digits.skip(digits.len() as int).len() == 0);
        Some(Number::make(negative, acc))
    }
}

} // verus!

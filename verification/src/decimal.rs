use vstd::prelude::*;
use crate::text::{
    chars_of, digit_to_value, digit_value, is_digit, is_digit_char, lemma_pow10_monotonic,
    lemma_pow10_values, pow10, pow10_exec,
};

verus! {

/// Largest digit string, read as one number, that a [`Decimal`] is parsed
/// from: thirty nines would be one more.
pub const MAX_DECIMAL_MANTISSA: u128 = 1_000_000_000_000_000_000_000_000_000_000;

/// Largest exponent, by amount, that a [`Decimal`] is parsed from.
pub const MAX_DECIMAL_EXPONENT: u128 = 999;

/// A decimal number: `mantissa / 10^scale`, negated where `negative` is set.
#[derive(Clone, Copy, Debug, PartialEq, Eq, Structural)]
pub struct Decimal {
    pub negative: bool,
    pub mantissa: u128,
    pub scale: i128,
}

/// The parts of the text of a decimal number.
pub struct DecimalParts {
    /// Whether the text starts with a minus sign.
    pub negative: bool,
    /// The digits before the decimal point.
    pub whole: Seq<char>,
    /// The digits behind the decimal point.
    pub fraction: Seq<char>,
    /// Whether the exponent has a minus sign.
    pub exponent_negative: bool,
    /// The digits of the exponent; none where the text has no exponent.
    pub exponent: Seq<char>,
}

/// The index of the first character of `s`, from `from` on, that is no
/// decimal digit; the length of `s` where there is none.
pub open spec fn digits_end(s: Seq<char>, from: int) -> int
    decreases s.len() - from,
{
    if 0 <= from < s.len() && is_digit(s[from]) {
        digits_end(s, from + 1)
    } else {
        from
    }
}

/// The number `acc` with the digits of `s` written behind it.
pub open spec fn append_digits(acc: nat, s: Seq<char>) -> nat
    decreases s.len(),
{
    if s.len() == 0 {
        acc
    } else {
        (append_digits(acc, s.drop_last()) * 10 + digit_value(s.last())) as nat
    }
}

/// Whether `c` is a plus or a minus sign.
pub open spec fn is_sign(c: char) -> bool {
    c == '-' || c == '+'
}

/// Whether `c` is the letter that starts an exponent.
pub open spec fn is_exponent_mark(c: char) -> bool {
    c == 'e' || c == 'E'
}

/// The parts of the decimal number that `s` spells: an optional sign,
/// digits with an optional decimal point among them, and an optional
/// exponent, which is `e` or `E`, an optional sign and digits. At least
/// one digit stands before the exponent. `None` for any other text.
pub open spec fn spec_decimal_parts(s: Seq<char>) -> Option<DecimalParts> {
    let start: int = if s.len() > 0 && is_sign(s[0]) {
        1
    } else {
        0
    };
    let whole_end = digits_end(s, start);
    let has_point = whole_end < s.len() && s[whole_end] == '.';
    let fraction_start = if has_point {
        whole_end + 1
    } else {
        whole_end
    };
    let fraction_end = digits_end(s, fraction_start);
    let has_exponent = fraction_end < s.len() && is_exponent_mark(s[fraction_end]);
    let exponent_sign = fraction_end + 1;
    let exponent_start = if !has_exponent {
        fraction_end
    } else if exponent_sign < s.len() && is_sign(s[exponent_sign]) {
        exponent_sign + 1
    } else {
        exponent_sign
    };
    let exponent_end = if has_exponent {
        digits_end(s, exponent_start)
    } else {
        fraction_end
    };
    if (whole_end - start) + (fraction_end - fraction_start) == 0 {
        None
    } else if exponent_end != s.len() {
        None
    } else if has_exponent && exponent_end == exponent_start {
        None
    } else {
        Some(
            DecimalParts {
                negative: s[0] == '-',
                whole: s.subrange(start, whole_end),
                fraction: s.subrange(fraction_start, fraction_end),
                exponent_negative: has_exponent && s[exponent_sign] == '-',
                exponent: s.subrange(exponent_start, exponent_end),
            },
        )
    }
}

impl DecimalParts {
    /// The exponent as a number.
    pub open spec fn spec_exponent(self) -> int {
        if self.exponent_negative {
            -(append_digits(0, self.exponent) as int)
        } else {
            append_digits(0, self.exponent) as int
        }
    }

    /// The decimal number that the parts make, with all its digits: the
    /// digits before and behind the point are the mantissa, and the scale
    /// is the number of digits behind the point less the exponent. `None`
    /// where the digits spell more than [`MAX_DECIMAL_MANTISSA`], or the
    /// exponent is beyond [`MAX_DECIMAL_EXPONENT`].
    pub open spec fn spec_decimal(self) -> Option<Decimal> {
        let mantissa = append_digits(0, self.whole + self.fraction);
        if mantissa > MAX_DECIMAL_MANTISSA || append_digits(0, self.exponent) > MAX_DECIMAL_EXPONENT {
            None
        } else {
            Some(
                Decimal {
                    negative: self.negative,
                    mantissa: mantissa as u128,
                    scale: (self.fraction.len() - self.spec_exponent()) as i128,
                },
            )
        }
    }

    /// How many of the digits of the number, counted from the first, stand
    /// before the place `places` behind the decimal point, once the
    /// exponent has moved the point. Below zero where even the first digit
    /// stands behind that place.
    pub open spec fn spec_digits_before(self, places: nat) -> int {
        self.whole.len() + self.spec_exponent() + places
    }

    /// The amount of the number in units of `10^-places`, rounded towards
    /// zero: the digits that stand before the place `places` behind the
    /// point, read as one number, with zeros behind them where the number
    /// has fewer digits. Digits behind that place are dropped.
    pub open spec fn spec_units(self, places: nat) -> nat {
        let digits = self.whole + self.fraction;
        let kept = self.spec_digits_before(places);
        if kept <= 0 {
            0
        } else if kept <= digits.len() {
            append_digits(0, digits.take(kept))
        } else {
            append_digits(0, digits) * pow10((kept - digits.len()) as nat)
        }
    }
}

/// The decimal number that `s` spells, where a [`Decimal`] holds it.
pub open spec fn spec_parse_decimal(s: Seq<char>) -> Option<Decimal> {
    match spec_decimal_parts(s) {
        Some(parts) => parts.spec_decimal(),
        None => None,
    }
}

/// The recorded number of seconds that `s` spells, in nanoseconds, rounded
/// towards zero, where that fits in 64 bits.
pub open spec fn spec_seconds_as_nanos(s: Seq<char>) -> Option<int> {
    match spec_decimal_parts(s) {
        Some(parts) => if parts.spec_units(9) <= i64::MAX {
            Some(
                if parts.negative {
                    -(parts.spec_units(9) as int)
                } else {
                    parts.spec_units(9) as int
                },
            )
        } else {
            None
        },
        None => None,
    }
}

/// Writing digits behind a number never makes it smaller.
proof fn lemma_append_digits_from(acc: nat, s: Seq<char>)
    requires
        forall|i: int| 0 <= i < s.len() ==> is_digit(#[trigger] s[i]),
    ensures
        acc <= append_digits(acc, s),
    decreases s.len(),
{
    if s.len() > 0 {
        lemma_append_digits_from(acc, s.drop_last());
    }
}

/// Writing two runs of digits behind a number, one after the other, is
/// writing both at once.
proof fn lemma_append_digits_twice(acc: nat, first: Seq<char>, second: Seq<char>)
    ensures
        append_digits(append_digits(acc, first), second) == append_digits(acc, first + second),
    decreases second.len(),
{
    if second.len() == 0 {
        assert(first + second == first);
    } else {
        lemma_append_digits_twice(acc, first, second.drop_last());
        assert((first + second).drop_last() == first + second.drop_last());
        assert((first + second).last() == second.last());
    }
}

/// A run of digits spells a number below ten to the power of its length.
proof fn lemma_digits_are_below_power(s: Seq<char>)
    requires
        forall|i: int| 0 <= i < s.len() ==> is_digit(#[trigger] s[i]),
    ensures
        append_digits(0, s) < pow10(s.len()),
    decreases s.len(),
{
    if s.len() > 0 {
        lemma_digits_are_below_power(s.drop_last());
        assert(is_digit(s.last()));
    }
}

/// Dividing the number that a run of digits spells by ten to the power
/// `dropped` drops that many digits at the end.
proof fn lemma_division_drops_digits(s: Seq<char>, dropped: nat)
    requires
        forall|i: int| 0 <= i < s.len() ==> is_digit(#[trigger] s[i]),
        dropped <= s.len(),
    ensures
        append_digits(0, s) / pow10(dropped) == append_digits(0, s.take(s.len() - dropped)),
    decreases dropped,
{
    if dropped == 0 {
        assert(s.take(s.len() as int) == s);
        assert(pow10(0) == 1);
    } else {
        let shorter = s.drop_last();
        let rest = (dropped - 1) as nat;
        lemma_division_drops_digits(shorter, rest);
        assert(shorter.take(shorter.len() - rest) == s.take(s.len() - dropped));
        assert(is_digit(s.last()));
        let number = append_digits(0, s) as int;
        let before = append_digits(0, shorter) as int;
        assert(number == before * 10 + digit_value(s.last()));
        assert(number / 10 == before) by (nonlinear_arith)
            requires
                number == before * 10 + digit_value(s.last()),
                0 <= digit_value(s.last()) <= 9,
        ;
        lemma_pow10_monotonic(0, rest);
        vstd::arithmetic::div_mod::lemma_div_denominator(number, 10, pow10(rest) as int);
        assert(pow10(dropped) == 10 * pow10(rest));
    }
}

/// The units of the parts of a number are the units of the decimal number
/// that the parts make: the number times ten to the power `places`,
/// rounded towards zero. This holds of every text that a machine holds:
/// the fraction has a length that fits in 64 bits.
pub proof fn lemma_units_are_the_scaled_number(parts: DecimalParts, places: nat)
    requires
        forall|i: int| 0 <= i < parts.whole.len() ==> is_digit(#[trigger] parts.whole[i]),
        forall|i: int| 0 <= i < parts.fraction.len() ==> is_digit(#[trigger] parts.fraction[i]),
        parts.fraction.len() <= u64::MAX,
        parts.spec_decimal() is Some,
    ensures
        parts.spec_decimal()->0.spec_units(places) == parts.spec_units(places),
{
    let digits = parts.whole + parts.fraction;
    let number = parts.spec_decimal()->0;
    let kept = parts.spec_digits_before(places);
    let mantissa = append_digits(0, digits);
    assert(forall|i: int| 0 <= i < digits.len() ==> is_digit(#[trigger] digits[i]));
    assert(number.scale == parts.fraction.len() - parts.spec_exponent());
    assert(places - number.scale == kept - digits.len());
    lemma_digits_are_below_power(digits);
    if kept >= digits.len() {
        if kept == digits.len() {
            assert(digits.take(kept) == digits);
            assert(pow10(0) == 1);
        }
        if kept <= 0 {
            assert(digits.len() == 0);
            assert(mantissa == 0);
            assert(0 * pow10((kept - digits.len()) as nat) == 0);
        }
    } else {
        let dropped = (digits.len() - kept) as nat;
        if kept <= 0 {
            lemma_pow10_monotonic(digits.len(), dropped);
            vstd::arithmetic::div_mod::lemma_basic_div(mantissa as int, pow10(dropped) as int);
        } else {
            lemma_division_drops_digits(digits, dropped);
        }
    }
}

/// Where the parts of a decimal number stand in its text.
struct DecimalShape {
    negative: bool,
    whole_from: usize,
    whole_to: usize,
    fraction_from: usize,
    fraction_to: usize,
    exponent_negative: bool,
    exponent_from: usize,
}

/// Whether only digits stand in `s` from `from` up to `to`.
spec fn digits_between(s: Seq<char>, from: int, to: int) -> bool {
    forall|i: int| from <= i < to ==> is_digit(#[trigger] s[i])
}

impl DecimalShape {
    /// Whether the shape marks the given parts in `s`.
    spec fn marks(self, s: Seq<char>, parts: DecimalParts) -> bool {
        &&& self.whole_from <= self.whole_to <= self.fraction_from <= self.fraction_to
            <= self.exponent_from <= s.len()
        &&& digits_between(s, self.whole_from as int, self.whole_to as int)
        &&& digits_between(s, self.fraction_from as int, self.fraction_to as int)
        &&& digits_between(s, self.exponent_from as int, s.len() as int)
        &&& parts.negative == self.negative
        &&& parts.whole == s.subrange(self.whole_from as int, self.whole_to as int)
        &&& parts.fraction == s.subrange(self.fraction_from as int, self.fraction_to as int)
        &&& parts.exponent_negative == self.exponent_negative
        &&& parts.exponent == s.subrange(self.exponent_from as int, s.len() as int)
    }
}

/// Where the digits that start at `from` end.
fn digit_run_end(chars: &Vec<char>, from: usize) -> (end: usize)
    requires
        from <= chars.len(),
    ensures
        end == digits_end(chars@, from as int),
        from <= end <= chars.len(),
        digits_between(chars@, from as int, end as int),
{
    let mut k: usize = from;
    while k < chars.len() && is_digit_char(chars[k])
        invariant
            from <= k <= chars.len(),
            digits_end(chars@, from as int) == digits_end(chars@, k as int),
            digits_between(chars@, from as int, k as int),
        decreases chars.len() - k,
    {
        k += 1;
    }
    k
}

/// Finds the parts of a decimal number in its text.
fn decimal_shape(chars: &Vec<char>) -> (out: Option<DecimalShape>)
    ensures
        match spec_decimal_parts(chars@) {
            Some(parts) => out matches Some(shape) && shape.marks(chars@, parts),
            None => out is None,
        },
{
    let len = chars.len();
    let start: usize = if len > 0 && (chars[0] == '-' || chars[0] == '+') {
        1
    } else {
        0
    };
    let whole_end = digit_run_end(chars, start);
    let has_point = whole_end < len && chars[whole_end] == '.';
    let fraction_start: usize = if has_point {
        whole_end + 1
    } else {
        whole_end
    };
    let fraction_end = digit_run_end(chars, fraction_start);
    if (whole_end - start) + (fraction_end - fraction_start) == 0 {
        return None;
    }
    let has_exponent = fraction_end < len && (chars[fraction_end] == 'e' || chars[fraction_end] == 'E');
    if !has_exponent {
        if fraction_end != len {
            return None;
        }
        return Some(
            DecimalShape {
                negative: chars[0] == '-',
                whole_from: start,
                whole_to: whole_end,
                fraction_from: fraction_start,
                fraction_to: fraction_end,
                exponent_negative: false,
                exponent_from: len,
            },
        );
    }
    let exponent_sign = fraction_end + 1;
    let exponent_start: usize = if exponent_sign < len && (chars[exponent_sign] == '-'
        || chars[exponent_sign] == '+') {
        exponent_sign + 1
    } else {
        exponent_sign
    };
    let exponent_end = digit_run_end(chars, exponent_start);
    if exponent_end != len || exponent_end == exponent_start {
        return None;
    }
    Some(
        DecimalShape {
            negative: chars[0] == '-',
            whole_from: start,
            whole_to: whole_end,
            fraction_from: fraction_start,
            fraction_to: fraction_end,
            exponent_negative: chars[exponent_sign] == '-',
            exponent_from: exponent_start,
        },
    )
}

/// Reads the digits of `chars` from `from` up to `to`, behind the number
/// `acc`: the number where it is at most `limit`.
fn read_digits(chars: &Vec<char>, from: usize, to: usize, acc: u128, limit: u128) -> (out: Option<u128>)
    requires
        from <= to <= chars.len(),
        digits_between(chars@, from as int, to as int),
        acc <= limit <= MAX_DECIMAL_MANTISSA,
    ensures
        match out {
            Some(value) => value == append_digits(acc as nat, chars@.subrange(from as int, to as int))
                && value <= limit,
            None => append_digits(acc as nat, chars@.subrange(from as int, to as int)) > limit,
        },
{
    let mut value: u128 = acc;
    let mut k: usize = from;
    assert(chars@.subrange(from as int, from as int) == Seq::<char>::empty());
    while k < to
        invariant
            from <= k <= to <= chars.len(),
            digits_between(chars@, from as int, to as int),
            limit <= MAX_DECIMAL_MANTISSA,
            value == append_digits(acc as nat, chars@.subrange(from as int, k as int)),
            value <= limit,
        decreases to - k,
    {
        let ghost run = chars@.subrange(from as int, to as int);
        proof {
            assert(chars@.subrange(from as int, k + 1).drop_last() == chars@.subrange(
                from as int,
                k as int,
            ));
            assert(is_digit(chars@[k as int]));
        }
        let next = value * 10 + digit_to_value(chars[k]) as u128;
        if next > limit {
            proof {
                let read = chars@.subrange(from as int, k + 1);
                let rest = chars@.subrange(k + 1, to as int);
                assert(read + rest == run);
                lemma_append_digits_twice(acc as nat, read, rest);
                lemma_append_digits_from(append_digits(acc as nat, read), rest);
            }
            return None;
        }
        value = next;
        k += 1;
    }
    Some(value)
}

/// Reads a decimal number: an optional sign, digits with an optional
/// decimal point among them, and an optional exponent. `None` where the
/// text is anything else or the number has more digits than a
/// [`Decimal`] holds.
pub fn parse_decimal(text: &str) -> (out: Option<Decimal>)
    ensures
        out == spec_parse_decimal(text@),
{
    let chars = chars_of(text);
    let shape = match decimal_shape(&chars) {
        Some(shape) => shape,
        None => {
            return None;
        },
    };
    let ghost parts = spec_decimal_parts(chars@)->0;
    proof {
        lemma_append_digits_twice(0, parts.whole, parts.fraction);
    }
    let whole = read_digits(&chars, shape.whole_from, shape.whole_to, 0, MAX_DECIMAL_MANTISSA);
    let mantissa = match whole {
        Some(value) => read_digits(&chars, shape.fraction_from, shape.fraction_to, value, MAX_DECIMAL_MANTISSA),
        None => {
            proof {
                lemma_append_digits_from(append_digits(0, parts.whole), parts.fraction);
            }
            None
        },
    };
    let exponent = read_digits(&chars, shape.exponent_from, chars.len(), 0, MAX_DECIMAL_EXPONENT);
    match (mantissa, exponent) {
        (Some(mantissa), Some(exponent)) => {
            let places = (shape.fraction_to - shape.fraction_from) as i128;
            Some(
                Decimal {
                    negative: shape.negative,
                    mantissa,
                    scale: if shape.exponent_negative {
                        places + exponent as i128
                    } else {
                        places - exponent as i128
                    },
                },
            )
        },
        _ => None,
    }
}

/// Reads the first `count` of the digits before and behind the point,
/// as one number: the number where it is at most `limit`.
fn read_leading_digits(chars: &Vec<char>, shape: &DecimalShape, count: usize, limit: u128) -> (out: Option<
    u128,
>)
    requires
        shape.whole_from <= shape.whole_to <= shape.fraction_from <= shape.fraction_to <= chars.len(),
        digits_between(chars@, shape.whole_from as int, shape.whole_to as int),
        digits_between(chars@, shape.fraction_from as int, shape.fraction_to as int),
        count <= (shape.whole_to - shape.whole_from) + (shape.fraction_to - shape.fraction_from),
        limit <= MAX_DECIMAL_MANTISSA,
    ensures
        ({
            let digits = chars@.subrange(shape.whole_from as int, shape.whole_to as int) + chars@.subrange(
                shape.fraction_from as int,
                shape.fraction_to as int,
            );
            match out {
                Some(value) => value == append_digits(0, digits.take(count as int)) && value <= limit,
                None => append_digits(0, digits.take(count as int)) > limit,
            }
        }),
{
    let ghost whole = chars@.subrange(shape.whole_from as int, shape.whole_to as int);
    let ghost fraction = chars@.subrange(shape.fraction_from as int, shape.fraction_to as int);
    let whole_len = shape.whole_to - shape.whole_from;
    if count <= whole_len {
        proof {
            assert((whole + fraction).take(count as int) == chars@.subrange(
                shape.whole_from as int,
                shape.whole_from + count,
            ));
        }
        read_digits(chars, shape.whole_from, shape.whole_from + count, 0, limit)
    } else {
        let behind = count - whole_len;
        let ghost kept = chars@.subrange(shape.fraction_from as int, shape.fraction_from + behind);
        proof {
            assert((whole + fraction).take(count as int) == whole + kept);
            lemma_append_digits_twice(0, whole, kept);
        }
        match read_digits(chars, shape.whole_from, shape.whole_to, 0, limit) {
            Some(value) => read_digits(chars, shape.fraction_from, shape.fraction_from + behind, value, limit),
            None => {
                proof {
                    lemma_append_digits_from(append_digits(0, whole), kept);
                }
                None
            },
        }
    }
}

/// A number that is not zero, with nineteen or more zeros behind it, does
/// not fit in 64 bits.
proof fn lemma_many_zeros_overflow(number: nat, zeros: nat)
    requires
        number >= 1,
        zeros >= 19,
    ensures
        number * pow10(zeros) > i64::MAX,
{
    lemma_pow10_monotonic(19, zeros);
    lemma_pow10_values();
    assert(number * pow10(zeros) >= pow10(zeros)) by (nonlinear_arith)
        requires
            number >= 1,
    ;
}

/// Reads a number of seconds, written as a decimal number, in nanoseconds;
/// what is less than a nanosecond is dropped. `None` where the text is no
/// decimal number, or the nanoseconds do not fit in 64 bits.
pub fn parse_seconds(text: &str) -> (out: Option<i64>)
    ensures
        match spec_seconds_as_nanos(text@) {
            Some(nanos) => out == Some(nanos as i64) && nanos as i64 == nanos,
            None => out is None,
        },
{
    let chars = chars_of(text);
    let shape = match decimal_shape(&chars) {
        Some(shape) => shape,
        None => {
            return None;
        },
    };
    let ghost parts = spec_decimal_parts(chars@)->0;
    let ghost digits = parts.whole + parts.fraction;
    let whole_len = shape.whole_to - shape.whole_from;
    let count = whole_len + (shape.fraction_to - shape.fraction_from);
    let limit: u128 = 0x7fff_ffff_ffff_ffff;
    assert(digits.take(count as int) == digits);
    let exponent = read_digits(&chars, shape.exponent_from, chars.len(), 0, MAX_DECIMAL_MANTISSA);
    // How many zeros stand behind the digits, where all digits count and
    // the exponent moves the point beyond them; 19 stands for any more.
    let mut zeros: u32 = 0;
    let amount: Option<u128> = match exponent {
        Some(exponent) => {
            let kept: i128 = if shape.exponent_negative {
                whole_len as i128 + 9 - exponent as i128
            } else {
                whole_len as i128 + 9 + exponent as i128
            };
            if kept <= 0 {
                Some(0)
            } else if kept <= count as i128 {
                read_leading_digits(&chars, &shape, kept as usize, limit)
            } else {
                zeros = if kept - count as i128 > 18 {
                    19
                } else {
                    (kept - count as i128) as u32
                };
                read_leading_digits(&chars, &shape, count, limit)
            }
        },
        None => {
            if shape.exponent_negative {
                Some(0)
            } else {
                zeros = 19;
                read_leading_digits(&chars, &shape, count, limit)
            }
        },
    };
    let units: Option<u128> = match amount {
        Some(value) => {
            if zeros == 0 || value == 0 {
                proof {
                    if zeros > 0 {
                        assert(0 * pow10((parts.spec_digits_before(9) - digits.len()) as nat) == 0);
                    }
                }
                Some(value)
            } else if zeros > 18 {
                proof {
                    lemma_many_zeros_overflow(value as nat, (parts.spec_digits_before(9) - digits.len()) as nat);
                }
                None
            } else {
                let power = pow10_exec(zeros);
                proof {
                    lemma_pow10_monotonic(zeros as nat, 18);
                    lemma_pow10_values();
                    assert(value * power <= 0x7fff_ffff_ffff_ffff * 1_000_000_000_000_000_000)
                        by (nonlinear_arith)
                        requires
                            value <= 0x7fff_ffff_ffff_ffff,
                            power <= 1_000_000_000_000_000_000,
                    ;
                }
                let product = value * power;
                if product <= limit {
                    Some(product)
                } else {
                    None
                }
            }
        },
        None => {
            proof {
                if zeros > 0 {
                    let behind = (parts.spec_digits_before(9) - digits.len()) as nat;
                    lemma_pow10_monotonic(0, behind);
                    assert(append_digits(0, digits) * pow10(behind) >= append_digits(0, digits))
                        by (nonlinear_arith)
                        requires
                            pow10(behind) >= 1,
                    ;
                }
            }
            None
        },
    };
    match units {
        Some(units) => if shape.negative {
            Some(-(units as i64))
        } else {
            Some(units as i64)
        },
        None => None,
    }
}

impl Decimal {
    /// The amount of the number in units of `10^-places`, rounded towards zero.
    pub open spec fn spec_units(self, places: nat) -> nat {
        if self.scale <= places {
            self.mantissa as nat * pow10((places - self.scale) as nat)
        } else {
            self.mantissa as nat / pow10((self.scale - places) as nat)
        }
    }

    /// The amount of the number in units of `10^-places`, rounded towards
    /// zero, where that is at most `limit`.
    pub fn units(&self, places: u8, limit: u128) -> (out: Option<u128>)
        requires
            places <= 38,
        ensures
            out is Some <==> self.spec_units(places as nat) <= limit,
            out matches Some(value) ==> value == self.spec_units(places as nat),
    {
        proof {
            lemma_pow10_values();
        }
        if self.mantissa == 0 {
            proof {
                if self.scale <= places {
                    assert(0 * pow10((places - self.scale) as nat) == 0);
                } else {
                    lemma_pow10_monotonic(0, (self.scale - places) as nat);
                    assert(0int / (pow10((self.scale - places) as nat) as int) == 0) by (nonlinear_arith)
                        requires
                            pow10((self.scale - places) as nat) > 0,
                    ;
                }
            }
            return Some(0);
        }
        if self.scale <= places as i128 {
            if self.scale < places as i128 - 38 {
                proof {
                    let shift = (places - self.scale) as nat;
                    lemma_pow10_monotonic(39, shift);
                    reveal_with_fuel(pow10, 2);
                    assert(pow10(39) == 10 * pow10(38));
                    assert(self.mantissa as nat * pow10(shift) >= pow10(shift)) by (nonlinear_arith)
                        requires
                            self.mantissa >= 1,
                    ;
                }
                return None;
            }
            let shift = (places as i128 - self.scale) as u32;
            let power = pow10_exec(shift);
            match self.mantissa.checked_mul(power) {
                Some(value) => if value <= limit {
                    Some(value)
                } else {
                    None
                },
                None => None,
            }
        } else {
            if self.scale > places as i128 + 38 {
                proof {
                    let shift = (self.scale - places) as nat;
                    lemma_pow10_monotonic(39, shift);
                    reveal_with_fuel(pow10, 2);
                    assert(pow10(39) == 10 * pow10(38));
                    assert((self.mantissa as int) / (pow10(shift) as int) == 0) by (nonlinear_arith)
                        requires
                            0 <= self.mantissa < pow10(shift),
                    ;
                }
                return Some(0);
            }
            let shift = (self.scale - places as i128) as u32;
            let power = pow10_exec(shift);
            proof {
                lemma_pow10_monotonic(0, shift as nat);
            }
            let value = self.mantissa / power;
            if value <= limit {
                Some(value)
            } else {
                None
            }
        }
    }
}

} // verus!

use vstd::prelude::*;
use vstd::string::*;

verus! {

/// Appends one character to a string.
///
/// Trusted: `String::push` adds exactly `c` at the end and changes nothing else.
#[verifier::external_body]
pub(crate) fn push_char(s: &mut String, c: char)
    ensures
        final(s)@ == old(s)@.push(c),
{
    s.push(c);
}

/// The texts of a list of strings, in order.
pub open spec fn texts_of(texts: Seq<String>) -> Seq<Seq<char>> {
    texts.map_values(|text: String| text@)
}

/// The texts of a list of `(key, value)` pairs.
pub open spec fn pairs_of(pairs: Seq<(String, String)>) -> Seq<(Seq<char>, Seq<char>)> {
    pairs.map_values(|pair: (String, String)| (pair.0@, pair.1@))
}

/// The characters of `s`, in order.
pub fn chars_of(s: &str) -> (out: Vec<char>)
    ensures
        out@ == s@,
{
    let mut out: Vec<char> = Vec::new();
    for c in it: s.chars()
        invariant
            out@ == it.seq().take(it.index() as int),
            it.seq() == s@,
    {
        out.push(c);
    }
    out
}

/// The string made of `chars[from..to]`.
pub(crate) fn string_of(chars: &Vec<char>, from: usize, to: usize) -> (out: String)
    requires
        from <= to <= chars.len(),
    ensures
        out@ == chars@.subrange(from as int, to as int),
{
    let mut out = String::new();
    let mut i: usize = from;
    while i < to
        invariant
            from <= i <= to <= chars.len(),
            out@ == chars@.subrange(from as int, i as int),
        decreases to - i,
    {
        push_char(&mut out, chars[i]);
        i += 1;
    }
    out
}

/// Whether `c` is one of the decimal digits `0` to `9`.
pub open spec fn is_digit(c: char) -> bool {
    '0' <= c <= '9'
}

/// The value of a decimal digit.
pub open spec fn digit_value(c: char) -> int {
    c as int - 48
}

/// The decimal digit of value `d`, for `d` below ten.
pub open spec fn digit_char(d: int) -> char {
    (d + 48) as u8 as char
}

/// Whether `c` is a decimal digit.
pub(crate) fn is_digit_char(c: char) -> (out: bool)
    ensures
        out == is_digit(c),
{
    '0' <= c && c <= '9'
}

/// The value of the decimal digit `c`.
pub(crate) fn digit_to_value(c: char) -> (out: u8)
    requires
        is_digit(c),
    ensures
        out == digit_value(c),
        out <= 9,
{
    (c as u32 - 48) as u8
}

/// The decimal digit of value `d`.
pub(crate) fn value_to_digit(d: u8) -> (out: char)
    requires
        d <= 9,
    ensures
        out == digit_char(d as int),
        is_digit(out),
        digit_value(out) == d,
{
    (d + 48) as char
}

/// Ten to the power `n`.
pub open spec fn pow10(n: nat) -> nat
    decreases n,
{
    if n == 0 {
        1
    } else {
        10 * pow10((n - 1) as nat)
    }
}

/// Powers of ten grow with the exponent and never vanish.
pub proof fn lemma_pow10_monotonic(a: nat, b: nat)
    requires
        a <= b,
    ensures
        1 <= pow10(a) <= pow10(b),
    decreases b,
{
    if b > a {
        lemma_pow10_monotonic(a, (b - 1) as nat);
    } else if a > 0 {
        lemma_pow10_monotonic((a - 1) as nat, (a - 1) as nat);
    }
}

/// `pow10(38)` is the largest power of ten that a `u128` holds.
pub proof fn lemma_pow10_values()
    ensures
        pow10(0) == 1,
        pow10(1) == 10,
        pow10(2) == 100,
        pow10(3) == 1_000,
        pow10(9) == 1_000_000_000,
        pow10(17) == 100_000_000_000_000_000,
        pow10(18) == 1_000_000_000_000_000_000,
        pow10(19) == 10_000_000_000_000_000_000,
        pow10(21) == 1_000_000_000_000_000_000_000,
        pow10(38) == 100_000_000_000_000_000_000_000_000_000_000_000_000,
{
    reveal_with_fuel(pow10, 39);
}

/// Ten to the power `n`, for the exponents whose power fits the type.
pub(crate) fn pow10_exec(n: u32) -> (out: u128)
    requires
        n <= 38,
    ensures
        out == pow10(n as nat),
{
    let mut out: u128 = 1;
    let mut i: u32 = 0;
    while i < n
        invariant
            i <= n <= 38,
            out == pow10(i as nat),
        decreases n - i,
    {
        proof {
            lemma_pow10_monotonic((i + 1) as nat, 38);
            lemma_pow10_values();
        }
        out = out * 10;
        i += 1;
    }
    out
}

/// The decimal digits of `n`, most significant first, without leading zeros.
pub open spec fn nat_digits(n: nat) -> Seq<char>
    decreases n,
{
    if n < 10 {
        seq![digit_char(n as int)]
    } else {
        nat_digits(n / 10).push(digit_char((n % 10) as int))
    }
}

/// The last `width` decimal digits of `n`, most significant first, with
/// leading zeros where `n` is short.
pub open spec fn padded_digits(n: nat, width: nat) -> Seq<char>
    decreases width,
{
    if width == 0 {
        Seq::<char>::empty()
    } else {
        padded_digits(n / 10, (width - 1) as nat).push(digit_char((n % 10) as int))
    }
}

/// Appends the decimal digits of `n` to `out`.
pub(crate) fn push_nat(out: &mut String, n: u128)
    ensures
        final(out)@ == old(out)@ + nat_digits(n as nat),
    decreases n,
{
    if n >= 10 {
        push_nat(out, n / 10);
    }
    push_char(out, value_to_digit((n % 10) as u8));
}

/// Appends the last `width` decimal digits of `n` to `out`.
pub(crate) fn push_padded(out: &mut String, n: u128, width: u32)
    ensures
        final(out)@ == old(out)@ + padded_digits(n as nat, width as nat),
    decreases width,
{
    if width > 0 {
        push_padded(out, n / 10, width - 1);
        push_char(out, value_to_digit((n % 10) as u8));
    }
}

/// Appends `count` copies of `c` to `out`.
pub(crate) fn push_repeated(out: &mut String, c: char, count: usize)
    ensures
        final(out)@ == old(out)@ + Seq::new(count as nat, |i: int| c),
{
    let mut i: usize = 0;
    while i < count
        invariant
            i <= count,
            out@ == old(out)@ + Seq::new(i as nat, |j: int| c),
        decreases count - i,
    {
        push_char(out, c);
        i += 1;
    }
}

/// The fraction digits `s` without the zeros at their end, of which the
/// first digit stays in any case.
pub open spec fn without_trailing_zeros(s: Seq<char>) -> Seq<char>
    decreases s.len(),
{
    if s.len() > 1 && s.last() == '0' {
        without_trailing_zeros(s.drop_last())
    } else {
        s
    }
}

/// The amount `units / 10^places` as decimal text: the whole part, a point
/// and `places` fraction digits.
pub open spec fn fixed_text(units: nat, places: nat) -> Seq<char> {
    nat_digits(units / pow10(places)) + seq!['.'] + padded_digits(units % pow10(places), places)
}

/// The amount `units / 10^places` as the shortest decimal text that keeps
/// a fraction digit: the whole part, a point and the fraction digits
/// without the zeros at their end.
pub open spec fn short_text(units: nat, places: nat) -> Seq<char> {
    nat_digits(units / pow10(places)) + seq!['.'] + without_trailing_zeros(
        padded_digits(units % pow10(places), places),
    )
}

/// The text of a signed amount: a minus sign before the text of the amount
/// where the number is below zero.
pub open spec fn signed_text(negative: bool, amount: Seq<char>) -> Seq<char> {
    if negative {
        seq!['-'] + amount
    } else {
        amount
    }
}

/// `s` behind as many spaces as it takes to fill `width` characters.
pub open spec fn right_aligned(s: Seq<char>, width: nat) -> Seq<char> {
    if s.len() < width {
        Seq::new((width - s.len()) as nat, |i: int| ' ') + s
    } else {
        s
    }
}

/// Appends the amount `units / 10^places` with all its fraction digits.
pub(crate) fn push_fixed(out: &mut String, units: u128, places: u32)
    requires
        1 <= places <= 38,
    ensures
        final(out)@ == old(out)@ + fixed_text(units as nat, places as nat),
{
    let power = pow10_exec(places);
    proof {
        lemma_pow10_monotonic(0, places as nat);
    }
    push_nat(out, units / power);
    push_char(out, '.');
    push_padded(out, units % power, places);
}

/// The digits of `n` in `width` places end in a zero where `n` is a
/// multiple of ten; without that zero they are the digits of `n / 10` in
/// one place less.
proof fn lemma_padded_digits_step(n: nat, width: nat)
    requires
        width >= 1,
    ensures
        padded_digits(n, width).len() == width,
        padded_digits(n, width).drop_last() == padded_digits(n / 10, (width - 1) as nat),
        padded_digits(n, width).last() == digit_char((n % 10) as int),
    decreases width,
{
    lemma_padded_digits_len(n / 10, (width - 1) as nat);
}

/// `width` places hold `width` digits.
pub proof fn lemma_padded_digits_len(n: nat, width: nat)
    ensures
        padded_digits(n, width).len() == width,
    decreases width,
{
    if width > 0 {
        lemma_padded_digits_len(n / 10, (width - 1) as nat);
    }
}

/// Appends the amount `units / 10^places` in its shortest form.
pub(crate) fn push_short(out: &mut String, units: u128, places: u32)
    requires
        1 <= places <= 38,
    ensures
        final(out)@ == old(out)@ + short_text(units as nat, places as nat),
{
    let power = pow10_exec(places);
    proof {
        lemma_pow10_monotonic(0, places as nat);
    }
    push_nat(out, units / power);
    push_char(out, '.');
    let mut fraction: u128 = units % power;
    let mut width: u32 = places;
    while width > 1 && fraction % 10 == 0
        invariant
            1 <= width <= places,
            without_trailing_zeros(padded_digits(fraction as nat, width as nat))
                == without_trailing_zeros(padded_digits((units % power) as nat, places as nat)),
        decreases width,
    {
        proof {
            lemma_padded_digits_step(fraction as nat, width as nat);
        }
        fraction = fraction / 10;
        width -= 1;
    }
    proof {
        lemma_padded_digits_step(fraction as nat, width as nat);
    }
    push_padded(out, fraction, width);
}

/// The text `s` behind as many spaces as it takes to fill `width` characters.
pub fn align_right(s: &str, width: usize) -> (out: String)
    ensures
        out@ == right_aligned(s@, width as nat),
{
    let len = s.unicode_len();
    let mut out = String::new();
    if len < width {
        push_repeated(&mut out, ' ', width - len);
    }
    out.append(s);
    out
}

} // verus!

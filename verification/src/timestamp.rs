use vstd::prelude::*;
use crate::error::ReplayError;
use crate::text::{chars_of, digit_to_value, digit_value, is_digit, is_digit_char};

verus! {

/// Largest distance from the reference instant, in nanoseconds, that a
/// [`Timestamp`] holds: about 31 700 years.
pub const MAX_TIMESTAMP_NANOS: i128 = 1_000_000_000_000_000_000_000;

/// Nanoseconds in a century of 36 525 days.
pub const NANOS_PER_CENTURY: i128 = 3_155_760_000_000_000_000;

/// The calendar fields that a timestamp string spells out.
#[derive(Clone, Copy, Debug, PartialEq, Eq, Structural)]
pub struct CalendarFields {
    pub year: u16,
    pub month: u8,
    pub day: u8,
    pub hour: u8,
    pub minute: u8,
    pub second: u8,
    pub millisecond: u16,
}

/// Whether `s` holds `count` decimal digits from index `from` on.
pub open spec fn digits_at(s: Seq<char>, from: int, count: int) -> bool {
    forall|i: int| from <= i < from + count ==> is_digit(#[trigger] s[i])
}

/// The number that the `count` digits of `s` from index `from` on spell.
pub open spec fn number_at(s: Seq<char>, from: int, count: int) -> int
    decreases count,
{
    if count <= 0 {
        0
    } else {
        10 * number_at(s, from, count - 1) + digit_value(s[from + count - 1])
    }
}

/// Whether `s` has the shape `YYYY-MM-DDTHH:MM:SS.mmmZ`.
pub open spec fn has_timestamp_shape(s: Seq<char>) -> bool {
    &&& s.len() == 24
    &&& digits_at(s, 0, 4)
    &&& s[4] == '-'
    &&& digits_at(s, 5, 2)
    &&& s[7] == '-'
    &&& digits_at(s, 8, 2)
    &&& s[10] == 'T'
    &&& digits_at(s, 11, 2)
    &&& s[13] == ':'
    &&& digits_at(s, 14, 2)
    &&& s[16] == ':'
    &&& digits_at(s, 17, 2)
    &&& s[19] == '.'
    &&& digits_at(s, 20, 3)
    &&& s[23] == 'Z'
}

/// The calendar fields of `s`, where `s` has the timestamp shape.
pub open spec fn spec_timestamp_fields(s: Seq<char>) -> Option<CalendarFields> {
    if has_timestamp_shape(s) {
        Some(
            CalendarFields {
                year: number_at(s, 0, 4) as u16,
                month: number_at(s, 5, 2) as u8,
                day: number_at(s, 8, 2) as u8,
                hour: number_at(s, 11, 2) as u8,
                minute: number_at(s, 14, 2) as u8,
                second: number_at(s, 17, 2) as u8,
                millisecond: number_at(s, 20, 3) as u16,
            },
        )
    } else {
        None
    }
}

/// Reads `count` digits of `chars` from index `from` on.
fn read_number(chars: &Vec<char>, from: usize, count: usize) -> (out: Option<u16>)
    requires
        from + count <= chars.len(),
        count <= 4,
    ensures
        out is Some <==> digits_at(chars@, from as int, count as int),
        out matches Some(v) ==> v == number_at(chars@, from as int, count as int),
        out matches Some(v) ==> (count <= 2 ==> v <= 99) && (count <= 3 ==> v <= 999) && v <= 9999,
{
    let mut value: u16 = 0;
    let mut k: usize = 0;
    while k < count
        invariant
            k <= count <= 4,
            from + count <= chars.len(),
            digits_at(chars@, from as int, k as int),
            value == number_at(chars@, from as int, k as int),
            k == 0 ==> value == 0,
            k == 1 ==> value <= 9,
            k == 2 ==> value <= 99,
            k == 3 ==> value <= 999,
            k == 4 ==> value <= 9999,
        decreases count - k,
    {
        let c = chars[from + k];
        if !is_digit_char(c) {
            return None;
        }
        value = value * 10 + digit_to_value(c) as u16;
        k += 1;
    }
    Some(value)
}

/// Reads the calendar fields off a string of the shape
/// `YYYY-MM-DDTHH:MM:SS.mmmZ`; any other string yields `None`. Whether the
/// fields name a day that exists is not looked at here.
pub fn parse_timestamp_fields(text: &str) -> (out: Option<CalendarFields>)
    ensures
        out == spec_timestamp_fields(text@),
        out matches Some(f) ==> f.year <= 9999 && f.millisecond <= 999,
{
    let chars = chars_of(text);
    if chars.len() != 24 {
        return None;
    }
    if chars[4] != '-' || chars[7] != '-' || chars[10] != 'T' || chars[13] != ':' || chars[16]
        != ':' || chars[19] != '.' || chars[23] != 'Z' {
        return None;
    }
    let year = read_number(&chars, 0, 4);
    let month = read_number(&chars, 5, 2);
    let day = read_number(&chars, 8, 2);
    let hour = read_number(&chars, 11, 2);
    let minute = read_number(&chars, 14, 2);
    let second = read_number(&chars, 17, 2);
    let millisecond = read_number(&chars, 20, 3);
    match (year, month, day, hour, minute, second, millisecond) {
        (Some(y), Some(mo), Some(d), Some(h), Some(mi), Some(s), Some(ms)) => Some(
            CalendarFields {
                year: y,
                month: mo as u8,
                day: d as u8,
                hour: h as u8,
                minute: mi as u8,
                second: s as u8,
                millisecond: ms,
            },
        ),
        _ => None,
    }
}

/// The instant that the given calendar fields name in UTC, as the time
/// library computes it: the whole centuries of atomic time since the start
/// of the year 1900, which are negative before that year, and the
/// nanoseconds into the century. `None` where the fields name no instant.
pub uninterp spec fn gregorian_utc_parts(
    year: i32,
    month: u8,
    day: u8,
    hour: u8,
    minute: u8,
    second: u8,
    nanos: u32,
) -> Option<(i16, u64)>;

/// The text that the time library prints for the instant `nanos`
/// nanoseconds of atomic time after the start of the year 1900.
pub uninterp spec fn utc_text(nanos: i128) -> Seq<char>;

/// Converts calendar fields in UTC to an instant.
///
/// Trusted: calls `hifitime::Epoch::maybe_from_gregorian_utc` and hands back
/// the two parts of the epoch's duration since its reference, centuries
/// and nanoseconds, or `None` where the call refuses the fields. The
/// contract only names that result.
/// Years outside `0..=9999` are left out, so that the call's arithmetic
/// on the year cannot overflow.
#[verifier::external_body]
fn instant_of_fields(
    year: i32,
    month: u8,
    day: u8,
    hour: u8,
    minute: u8,
    second: u8,
    nanos: u32,
) -> (out: Option<(i16, u64)>)
    requires
        0 <= year <= 9999,
    ensures
        out == gregorian_utc_parts(year, month, day, hour, minute, second, nanos),
{
    match hifitime::Epoch::maybe_from_gregorian_utc(year, month, day, hour, minute, second, nanos) {
        Ok(epoch) => Some(epoch.to_tai_duration().to_parts()),
        Err(_) => None,
    }
}

/// Prints an instant as the time library does.
///
/// Trusted: builds the `hifitime::Epoch` that lies `nanos` nanoseconds after
/// the reference and formats it with its `Display`. The contract only names
/// the text.
#[verifier::external_body]
fn text_of_instant(nanos: i128) -> (out: String)
    requires
        -MAX_TIMESTAMP_NANOS <= nanos <= MAX_TIMESTAMP_NANOS,
    ensures
        out@ == utc_text(nanos),
{
    let since_reference = hifitime::Duration::from_total_nanoseconds(nanos);
    format!("{}", hifitime::Epoch::from_tai_duration(since_reference))
}

/// An instant with nanosecond resolution, at most [`MAX_TIMESTAMP_NANOS`]
/// away from the reference instant.
#[derive(Clone, Copy, Debug)]
pub struct Timestamp {
    nanos: i128,
}

impl View for Timestamp {
    type V = int;

    /// Nanoseconds since the reference instant.
    closed spec fn view(&self) -> int {
        self.nanos as int
    }
}

/// The instant that a result of the calendar conversion stands for, in
/// nanoseconds since the reference instant, if it is one that a
/// [`Timestamp`] holds: the centuries, each of [`NANOS_PER_CENTURY`]
/// nanoseconds, and the nanoseconds into the century.
pub open spec fn spec_instant(found: Option<(i16, u64)>) -> Option<int> {
    match found {
        Some((centuries, nanoseconds)) => {
            let nanos = centuries * NANOS_PER_CENTURY + nanoseconds;
            if -MAX_TIMESTAMP_NANOS <= nanos <= MAX_TIMESTAMP_NANOS {
                Some(nanos)
            } else {
                None
            }
        },
        None => None,
    }
}

/// The instant that the timestamp string `s` names.
pub open spec fn spec_timestamp(s: Seq<char>) -> Option<int> {
    match spec_timestamp_fields(s) {
        Some(f) => spec_instant(
            gregorian_utc_parts(
                f.year as i32,
                f.month,
                f.day,
                f.hour,
                f.minute,
                f.second,
                (f.millisecond * 1_000_000) as u32,
            ),
        ),
        None => None,
    }
}

impl Timestamp {
    #[verifier::type_invariant]
    spec fn in_range(self) -> bool {
        -MAX_TIMESTAMP_NANOS <= self.nanos <= MAX_TIMESTAMP_NANOS
    }

    /// The timestamp `nanos` nanoseconds after the reference instant, where
    /// that is in range.
    pub fn from_nanos(nanos: i128) -> (out: Option<Timestamp>)
        ensures
            out is Some <==> -MAX_TIMESTAMP_NANOS <= nanos <= MAX_TIMESTAMP_NANOS,
            out matches Some(t) ==> t@ == nanos,
    {
        if -MAX_TIMESTAMP_NANOS <= nanos && nanos <= MAX_TIMESTAMP_NANOS {
            Some(Timestamp { nanos })
        } else {
            None
        }
    }

    /// Nanoseconds since the reference instant.
    pub fn nanos(&self) -> (out: i128)
        ensures
            out == self@,
            -MAX_TIMESTAMP_NANOS <= out <= MAX_TIMESTAMP_NANOS,
    {
        proof {
            use_type_invariant(self);
        }
        self.nanos
    }

    /// The timestamp for what the calendar conversion found: `BadTimestamp`
    /// where it found nothing, or an instant out of range.
    pub fn from_instant(found: Option<(i16, u64)>) -> (out: Result<Timestamp, ReplayError>)
        ensures
            match spec_instant(found) {
                Some(n) => out matches Ok(t) && t@ == n,
                None => out matches Err(ReplayError::BadTimestamp),
            },
    {
        match found {
            Some((centuries, nanoseconds)) => {
                let nanos: i128 = centuries as i128 * NANOS_PER_CENTURY + nanoseconds as i128;
                match Timestamp::from_nanos(nanos) {
                    Some(t) => Ok(t),
                    None => Err(ReplayError::BadTimestamp),
                }
            },
            None => Err(ReplayError::BadTimestamp),
        }
    }

    /// Decodes a timestamp of the shape `YYYY-MM-DDTHH:MM:SS.mmmZ`, read as
    /// UTC. Fails with `BadTimestamp` where the string has another shape or
    /// names no instant in range.
    pub fn parse(text: &str) -> (out: Result<Timestamp, ReplayError>)
        ensures
            match spec_timestamp(text@) {
                Some(n) => out matches Ok(t) && t@ == n,
                None => out matches Err(ReplayError::BadTimestamp),
            },
    {
        match parse_timestamp_fields(text) {
            Some(f) => {
                let found = instant_of_fields(
                    f.year as i32,
                    f.month,
                    f.day,
                    f.hour,
                    f.minute,
                    f.second,
                    f.millisecond as u32 * 1_000_000,
                );
                Timestamp::from_instant(found)
            },
            None => Err(ReplayError::BadTimestamp),
        }
    }

    /// Nanoseconds from `earlier` to `self`; negative where `self` is the
    /// earlier one.
    pub fn since(&self, earlier: &Timestamp) -> (out: i128)
        ensures
            out == self@ - earlier@,
            -2 * MAX_TIMESTAMP_NANOS <= out <= 2 * MAX_TIMESTAMP_NANOS,
    {
        proof {
            use_type_invariant(self);
            use_type_invariant(earlier);
        }
        self.nanos - earlier.nanos
    }

    /// The instant as calendar text in UTC.
    pub fn to_text(&self) -> (out: String)
        ensures
            out@ == utc_text(self@ as i128),
    {
        proof {
            use_type_invariant(self);
        }
        text_of_instant(self.nanos)
    }
}

} // verus!

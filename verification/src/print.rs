use vstd::prelude::*;
use vstd::string::*;
use crate::error::ReplayError;
use crate::ingest::{records_from_bytes, spec_decode, Decoded, InputFormat};
use crate::record::{
    is_stable_sort_of, lemma_sort_depends_on_views_only, records_view, AccessRecord, RecordView,
};
use crate::text::{
    align_right, fixed_text, lemma_pow10_values, push_char, push_fixed, right_aligned, signed_text, texts_of,
};
use crate::timestamp::{utc_text, Timestamp};

verus! {

/// Width of the number in the offset column of a printed line.
pub const OFFSET_WIDTH: usize = 12;

/// A time span of `nanos` nanoseconds as seconds with three fraction
/// digits; what is less than a millisecond is cut off.
pub open spec fn seconds_text(nanos: int) -> Seq<char> {
    let amount = if nanos < 0 {
        -nanos
    } else {
        nanos
    };
    signed_text(nanos < 0, fixed_text((amount / 1_000_000) as nat, 3))
}

/// A printed line: the text of the timestamp, a plus sign and the seconds
/// since the record before, right-aligned in twelve characters and
/// followed by the unit, then path and parameters.
pub open spec fn spec_line(timestamp_text: Seq<char>, waited: int, path: Seq<char>, parameters: Seq<char>) -> Seq<
    char,
> {
    timestamp_text + " +"@ + right_aligned(seconds_text(waited), OFFSET_WIDTH as nat) + " s "@ + path
        + parameters
}

/// The line that is printed for a record, with the time since the record
/// before it. The first record has no record before it and is printed
/// with zero seconds.
pub open spec fn spec_print_line(record: RecordView, previous: Option<int>) -> Seq<char> {
    let waited = match previous {
        Some(earlier) => record.timestamp - earlier,
        None => 0,
    };
    spec_line(utc_text(record.timestamp as i128), waited, record.path, record.parameters)
}

/// The lines that are printed for a list of records, one for each, in order.
pub open spec fn spec_print_lines(records: Seq<RecordView>) -> Seq<Seq<char>> {
    Seq::new(
        records.len(),
        |i: int|
            spec_print_line(
                records[i],
                if i == 0 {
                    None
                } else {
                    Some(records[i - 1].timestamp)
                },
            ),
    )
}

/// The text of a time span in seconds, with three fraction digits.
pub fn format_seconds(nanos: i128) -> (out: String)
    ensures
        out@ == seconds_text(nanos as int),
{
    let mut out = String::new();
    let amount: u128 = if nanos < 0 {
        push_char(&mut out, '-');
        (-(nanos + 1)) as u128 + 1
    } else {
        nanos as u128
    };
    proof {
        lemma_pow10_values();
    }
    push_fixed(&mut out, amount / 1_000_000, 3);
    out
}

/// Puts a printed line together from the text of the timestamp, the
/// nanoseconds since the record before, the path and the parameters.
pub fn compose_line(timestamp_text: &str, waited: i128, path: &str, parameters: &str) -> (out: String)
    ensures
        out@ == spec_line(timestamp_text@, waited as int, path@, parameters@),
{
    let mut out = timestamp_text.to_owned();
    out.append(" +");
    let seconds = format_seconds(waited);
    out.append(align_right(seconds.as_str(), OFFSET_WIDTH).as_str());
    out.append(" s ");
    out.append(path);
    out.append(parameters);
    out
}

/// The line that is printed for `record`, which follows a record with the
/// timestamp `previous`, if it follows one.
pub fn print_line(record: &AccessRecord, previous: Option<Timestamp>) -> (out: String)
    ensures
        out@ == spec_print_line(
            record@,
            match previous {
                Some(earlier) => Some(earlier@),
                None => None,
            },
        ),
{
    let waited: i128 = match previous {
        Some(earlier) => record.timestamp.since(&earlier),
        None => 0,
    };
    let timestamp_text = record.timestamp.to_text();
    compose_line(timestamp_text.as_str(), waited, record.path.as_str(), record.parameters.as_str())
}

/// The lines that are printed for the records, one for each, in order:
/// each with the time since the record before it.
pub fn print_lines(records: &Vec<AccessRecord>) -> (out: Vec<String>)
    ensures
        texts_of(out@) == spec_print_lines(records_view(records@)),
{
    let mut out: Vec<String> = Vec::new();
    let mut i: usize = 0;
    while i < records.len()
        invariant
            i <= records.len(),
            out.len() == i,
            forall|k: int|
                0 <= k < i ==> (#[trigger] out[k])@ == spec_print_lines(records_view(records@))[k],
        decreases records.len() - i,
    {
        let previous = if i == 0 {
            None
        } else {
            Some(records[i - 1].timestamp)
        };
        let line = print_line(&records[i], previous);
        out.push(line);
        i += 1;
    }
    assert(texts_of(out@) =~= spec_print_lines(records_view(records@)));
    out
}

/// Whether `out` holds the lines for the records of `decoded` in stable
/// timestamp order, or fails at the row at which `decoded` does.
pub open spec fn is_printed_decoding(out: Result<Vec<String>, ReplayError>, decoded: Decoded) -> bool {
    match decoded {
        Decoded::Records(found) => out matches Ok(lines) && exists|
            sorted: Seq<AccessRecord>,
            records: Seq<AccessRecord>,
        |
            records_view(records) == found && #[trigger] is_stable_sort_of(sorted, records) && texts_of(
                lines@,
            ) == spec_print_lines(records_view(sorted)),
        Decoded::FailedAt(at) => out matches Err(ReplayError::RecordDecode { row }) && row == at,
    }
}

/// Reads the records of the input in the given format, sorts them by
/// timestamp and hands back the lines that are printed for them.
pub fn print_from_bytes(format: InputFormat, data: &[u8]) -> (out: Result<Vec<String>, ReplayError>)
    ensures
        is_printed_decoding(out, spec_decode(format, data@)),
{
    match records_from_bytes(format, data) {
        Ok(records) => Ok(print_lines(&records)),
        Err(e) => Err(e),
    }
}

/// Lists that hold the same records are printed as the same lines once
/// they are sorted, whatever format they were read from.
pub proof fn lemma_same_records_print_the_same(
    sorted: Seq<AccessRecord>,
    records: Seq<AccessRecord>,
    other_sorted: Seq<AccessRecord>,
    others: Seq<AccessRecord>,
)
    requires
        is_stable_sort_of(sorted, records),
        is_stable_sort_of(other_sorted, others),
        records_view(records) == records_view(others),
    ensures
        spec_print_lines(records_view(sorted)) == spec_print_lines(records_view(other_sorted)),
{
    lemma_sort_depends_on_views_only(sorted, records, other_sorted, others);
}

} // verus!

use vstd::prelude::*;
use vstd::string::*;
use crate::error::ReplayError;
use crate::json::{json_quoted, quote_json};
use crate::plan::PlannedRequest;
use crate::text::{nat_digits, push_char, push_nat, push_short, short_text, signed_text};

verus! {

/// The first status code of the success class.
pub const FIRST_SUCCESS_STATUS: u16 = 200;

/// The last status code of the success class.
pub const LAST_SUCCESS_STATUS: u16 = 299;

/// One percent in the units in which a change is kept: `10^-9` percent.
pub const UNITS_PER_PERCENT: u128 = 1_000_000_000;

/// What dispatching one request gave.
pub enum Response {
    /// The server answered with this status code, after this many nanoseconds.
    Answered { status: u16, elapsed: u64 },
    /// The request could not be built or sent, or no answer came.
    Failed { cause: String },
}

/// What one successful dispatch measured.
#[derive(Debug)]
pub struct MeasurementRecord {
    /// The address that the request went to.
    pub url: String,
    /// The status code of the answer, which is of the success class.
    pub status: u16,
    /// Nanoseconds from issuing the request to the end of the answer.
    pub required_time: u64,
    /// The recorded processing time, in nanoseconds.
    pub original_time: i64,
    /// By how much the measured time differs from the recorded one, in
    /// units of `10^-9` percent of the recorded one and rounded towards
    /// zero; `None` where the recorded time is zero.
    pub change_percentage: Option<i128>,
}

/// Whether a status code is of the success class.
pub open spec fn is_success_status(status: u16) -> bool {
    FIRST_SUCCESS_STATUS <= status <= LAST_SUCCESS_STATUS
}

/// The distance of `n` from zero.
pub open spec fn magnitude(n: int) -> nat {
    if n < 0 {
        (-n) as nat
    } else {
        n as nat
    }
}

/// `(required - original) / original * 100` in units of `10^-9` percent,
/// rounded towards zero; `None` where `original` is zero.
pub open spec fn spec_change_percentage(required: int, original: int) -> Option<int> {
    if original == 0 {
        None
    } else {
        let amount = (magnitude(required - original) * 100 * UNITS_PER_PERCENT) / (magnitude(original) as int);
        if (required < original) != (original < 0) {
            Some(-(amount as int))
        } else {
            Some(amount as int)
        }
    }
}

/// The change is the quotient `(required - original) / original * 100`,
/// cut off after nine decimal places: times the recorded time it is at
/// most the difference of the times, and less than one unit short of it;
/// and it has the sign of that quotient.
pub proof fn lemma_change_is_the_quotient_cut_off(required: int, original: int)
    requires
        original != 0,
    ensures
        ({
            let change = spec_change_percentage(required, original)->0;
            let difference = (required - original) * 100 * UNITS_PER_PERCENT;
            &&& spec_change_percentage(required, original) is Some
            &&& magnitude(change) * magnitude(original) <= magnitude(difference)
            &&& magnitude(difference) < (magnitude(change) + 1) * magnitude(original)
            &&& change < 0 ==> (required < original) != (original < 0)
            &&& change > 0 ==> (required < original) == (original < 0)
        }),
{
    let distance = magnitude(required - original) * 100 * UNITS_PER_PERCENT;
    let base = magnitude(original) as int;
    let amount = distance / base;
    vstd::arithmetic::div_mod::lemma_fundamental_div_mod(distance as int, base);
    vstd::arithmetic::div_mod::lemma_mod_bound(distance as int, base);
    assert(base * amount == amount * base) by (nonlinear_arith);
    assert((amount + 1) * base == amount * base + base) by (nonlinear_arith);
    assert(amount >= 0) by (nonlinear_arith)
        requires
            amount == distance / base,
            distance >= 0,
            base > 0,
    ;
    assert(magnitude((required - original) * 100 * UNITS_PER_PERCENT) == distance) by (nonlinear_arith)
        requires
            distance == magnitude(required - original) * 100 * UNITS_PER_PERCENT,
            UNITS_PER_PERCENT == 1_000_000_000,
    ;
}

/// By how much a measured time differs from the recorded one, in units of
/// `10^-9` percent of the recorded one.
pub fn change_percentage(required: u64, original: i64) -> (out: Option<i128>)
    ensures
        match spec_change_percentage(required as int, original as int) {
            Some(change) => out == Some(change as i128) && change as i128 == change,
            None => out is None,
        },
{
    if original == 0 {
        return None;
    }
    let difference: i128 = required as i128 - original as i128;
    let distance: u128 = if difference < 0 {
        (-difference) as u128
    } else {
        difference as u128
    };
    let base: u128 = if original < 0 {
        (-(original as i128)) as u128
    } else {
        original as u128
    };
    assert(distance * 100 * 1_000_000_000 <= 0x1_8000_0000_0000_0000 * 100_000_000_000) by (nonlinear_arith)
        requires
            distance <= 0x1_8000_0000_0000_0000,
    ;
    let amount: u128 = (distance * 100 * UNITS_PER_PERCENT) / base;
    assert(amount <= distance * 100 * UNITS_PER_PERCENT) by (nonlinear_arith)
        requires
            amount == (distance * 100 * UNITS_PER_PERCENT) / (base as int),
            base >= 1,
    ;
    if (difference < 0) != (original < 0) {
        Some(-(amount as i128))
    } else {
        Some(amount as i128)
    }
}

/// The measurement of a request that was answered with `status` after
/// `elapsed` nanoseconds.
pub open spec fn spec_measurement(request: PlannedRequest, status: u16, elapsed: u64) -> MeasurementView {
    MeasurementView {
        url: request.url@,
        status,
        required_time: elapsed as int,
        original_time: request.record.required_time as int,
        change_percentage: spec_change_percentage(elapsed as int, request.record.required_time as int),
    }
}

/// What a [`MeasurementRecord`] stands for.
pub struct MeasurementView {
    pub url: Seq<char>,
    pub status: u16,
    pub required_time: int,
    pub original_time: int,
    pub change_percentage: Option<int>,
}

impl View for MeasurementRecord {
    type V = MeasurementView;

    open spec fn view(&self) -> MeasurementView {
        MeasurementView {
            url: self.url@,
            status: self.status,
            required_time: self.required_time as int,
            original_time: self.original_time as int,
            change_percentage: match self.change_percentage {
                Some(change) => Some(change as int),
                None => None,
            },
        }
    }
}

/// The cause that is reported for an answer whose status is not of the
/// success class.
pub open spec fn spec_status_cause(status: u16) -> Seq<char> {
    "HTTP status "@ + nat_digits(status as nat)
}

/// What a task reports for its request and what dispatching it gave: the
/// measurement where the server answered with a status of the success
/// class, and a `RequestFailure` with the address and the cause where it
/// answered with any other status or the dispatch failed.
pub fn task_result(request: &PlannedRequest, response: Response) -> (out: Result<
    MeasurementRecord,
    ReplayError,
>)
    ensures
        match response {
            Response::Answered { status, elapsed } => if is_success_status(status) {
                out matches Ok(measured) && measured@ == spec_measurement(*request, status, elapsed)
            } else {
                out matches Err(ReplayError::RequestFailure { url, cause }) && url@ == request.url@ && cause@
                    == spec_status_cause(status)
            },
            Response::Failed { cause: reason } => out matches Err(ReplayError::RequestFailure { url, cause })
                && url@ == request.url@ && cause@ == reason@,
        },
{
    match response {
        Response::Answered { status, elapsed } => {
            if FIRST_SUCCESS_STATUS <= status && status <= LAST_SUCCESS_STATUS {
                Ok(
                    MeasurementRecord {
                        url: request.url.clone(),
                        status,
                        required_time: elapsed,
                        original_time: request.record.required_time,
                        change_percentage: change_percentage(elapsed, request.record.required_time),
                    },
                )
            } else {
                let mut cause = "HTTP status ".to_owned();
                push_nat(&mut cause, status as u128);
                Err(ReplayError::RequestFailure { url: request.url.clone(), cause })
            }
        },
        Response::Failed { cause } => Err(ReplayError::RequestFailure { url: request.url.clone(), cause }),
    }
}

/// A number of `10^-9` units as a JSON number: the shortest decimal text
/// that keeps a fraction digit.
pub open spec fn number_text(units: int) -> Seq<char> {
    signed_text(units < 0, short_text(magnitude(units), 9))
}

/// A change that may be undefined as a JSON value.
pub open spec fn change_text(change: Option<int>) -> Seq<char> {
    match change {
        Some(units) => number_text(units),
        None => "null"@,
    }
}

/// The line that is written for a measurement whose address, as a JSON
/// string literal, is `quoted_url`: one JSON object with the members
/// `url`, `status`, `required_time`, `original_time` and
/// `change_percentage` in this order, without white space, and a line
/// feed. Times are in seconds and the change is in percent.
pub open spec fn spec_line_with(quoted_url: Seq<char>, measured: MeasurementView) -> Seq<char> {
    "{\"url\":"@ + quoted_url + ",\"status\":"@ + nat_digits(measured.status as nat)
        + ",\"required_time\":"@ + number_text(measured.required_time) + ",\"original_time\":"@
        + number_text(measured.original_time) + ",\"change_percentage\":"@ + change_text(
        measured.change_percentage,
    ) + "}\n"@
}

/// The line that is written for a measurement.
pub open spec fn spec_output_line(measured: MeasurementView) -> Seq<char> {
    spec_line_with(json_quoted(measured.url), measured)
}

/// Appends a number of `10^-9` units as a JSON number.
fn push_number(out: &mut String, units: i128)
    ensures
        final(out)@ == old(out)@ + number_text(units as int),
{
    let amount: u128 = if units < 0 {
        push_char(out, '-');
        (-(units + 1)) as u128 + 1
    } else {
        units as u128
    };
    push_short(out, amount, 9);
}

impl MeasurementRecord {
    /// The line that is written for the measurement, given its address as
    /// a JSON string literal.
    pub fn to_json_line_with(&self, quoted_url: &str) -> (out: String)
        ensures
            out@ == spec_line_with(quoted_url@, self@),
    {
        let mut out = "{\"url\":".to_owned();
        out.append(quoted_url);
        out.append(",\"status\":");
        push_nat(&mut out, self.status as u128);
        out.append(",\"required_time\":");
        push_number(&mut out, self.required_time as i128);
        out.append(",\"original_time\":");
        push_number(&mut out, self.original_time as i128);
        out.append(",\"change_percentage\":");
        match self.change_percentage {
            Some(change) => {
                push_number(&mut out, change);
            },
            None => {
                out.append("null");
            },
        }
        out.append("}\n");
        out
    }

    /// The line that is written for the measurement.
    pub fn to_json_line(&self) -> (out: String)
        ensures
            out@ == spec_output_line(self@),
    {
        let quoted_url = quote_json(self.url.as_str());
        self.to_json_line_with(quoted_url.as_str())
    }
}

} // verus!

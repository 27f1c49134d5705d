use vstd::prelude::*;
use crate::decimal::{parse_decimal, spec_parse_decimal, Decimal};
use crate::error::ReplayError;
use crate::ingest::{records_from_bytes, spec_decode, Decoded, InputFormat};
use crate::record::{is_sorted, is_stable_sort_of, records_view, sort_by_timestamp, AccessRecord};
use crate::resolver::{Resolution, SchemaAndHostMapping};
use crate::text::{lemma_pow10_monotonic, lemma_pow10_values, pow10, pow10_exec};

verus! {

/// Largest numerator of a [`TimeFactor`]: seventeen decimal digits.
pub const MAX_FACTOR_MANTISSA: u64 = 99_999_999_999_999_999;

/// Largest number of decimal places of a [`TimeFactor`].
pub const MAX_FACTOR_DECIMALS: u8 = 38;

/// Largest distance between two timestamps, in nanoseconds: twice the
/// largest distance of a timestamp from the reference instant.
pub const MAX_SPAN_NANOS: u128 = 2_000_000_000_000_000_000_000;

/// The factor by which the time between requests is stretched or
/// compressed: the decimal number `mantissa / 10^decimals`, never negative.
#[derive(Clone, Copy, Debug)]
pub struct TimeFactor {
    mantissa: u64,
    decimals: u8,
}

impl TimeFactor {
    #[verifier::type_invariant]
    spec fn in_range(self) -> bool {
        self.mantissa <= MAX_FACTOR_MANTISSA && self.decimals <= MAX_FACTOR_DECIMALS
    }

    /// The digits of the factor, read as one number.
    pub closed spec fn spec_mantissa(self) -> nat {
        self.mantissa as nat
    }

    /// How many of the factor's digits stand behind the decimal point.
    pub closed spec fn spec_decimals(self) -> nat {
        self.decimals as nat
    }

    /// Whether the factor is exactly one.
    pub open spec fn is_one(self) -> bool {
        self.spec_mantissa() == 1 && self.spec_decimals() == 0
    }

    /// A duration of `nanos` nanoseconds times the factor, rounded down to
    /// whole nanoseconds.
    pub open spec fn scale(self, nanos: nat) -> nat {
        (nanos * self.spec_mantissa()) / pow10(self.spec_decimals())
    }

    /// The factor `mantissa / 10^decimals`, where both parts are in range.
    pub fn new(mantissa: u64, decimals: u8) -> (out: Option<TimeFactor>)
        ensures
            out is Some <==> mantissa <= MAX_FACTOR_MANTISSA && decimals <= MAX_FACTOR_DECIMALS,
            out matches Some(f) ==> f.spec_mantissa() == mantissa && f.spec_decimals() == decimals,
    {
        if mantissa <= MAX_FACTOR_MANTISSA && decimals <= MAX_FACTOR_DECIMALS {
            Some(TimeFactor { mantissa, decimals })
        } else {
            None
        }
    }

    /// The factor that a decimal number stands for: the number must not be
    /// negative, and where it is written without exponent its digits and
    /// decimal places are the factor's. A number with more than seventeen
    /// digits or more than thirty-eight decimal places stands for none.
    pub open spec fn spec_from_decimal(number: Decimal) -> Option<(nat, nat)> {
        if number.negative {
            None
        } else if number.scale <= 0 {
            if number.spec_units(0) <= MAX_FACTOR_MANTISSA {
                Some((number.spec_units(0), 0))
            } else {
                None
            }
        } else if number.scale <= MAX_FACTOR_DECIMALS && number.mantissa <= MAX_FACTOR_MANTISSA {
            Some((number.mantissa as nat, number.scale as nat))
        } else {
            None
        }
    }

    /// The factor that a decimal number stands for.
    pub fn from_decimal(number: &Decimal) -> (out: Option<TimeFactor>)
        ensures
            match TimeFactor::spec_from_decimal(*number) {
                Some((mantissa, decimals)) => out matches Some(factor) && factor.spec_mantissa() == mantissa
                    && factor.spec_decimals() == decimals,
                None => out is None,
            },
    {
        if number.negative {
            None
        } else if number.scale <= 0 {
            match number.units(0, MAX_FACTOR_MANTISSA as u128) {
                Some(mantissa) => Some(TimeFactor { mantissa: mantissa as u64, decimals: 0 }),
                None => None,
            }
        } else if number.scale <= MAX_FACTOR_DECIMALS as i128 && number.mantissa <= MAX_FACTOR_MANTISSA as u128 {
            Some(TimeFactor { mantissa: number.mantissa as u64, decimals: number.scale as u8 })
        } else {
            None
        }
    }

    /// What the text of a factor stands for.
    pub open spec fn spec_parse(text: Seq<char>) -> Option<(nat, nat)> {
        match spec_parse_decimal(text) {
            Some(number) => TimeFactor::spec_from_decimal(number),
            None => None,
        }
    }

    /// Reads a factor that is written as a decimal number, such as `0.5`
    /// or `2`. `BadConfig` where the text is no such number, or the number
    /// is negative or has more digits than a factor holds.
    pub fn parse(text: &str) -> (out: Result<TimeFactor, ReplayError>)
        ensures
            match TimeFactor::spec_parse(text@) {
                Some((mantissa, decimals)) => out matches Ok(factor) && factor.spec_mantissa() == mantissa
                    && factor.spec_decimals() == decimals,
                None => out matches Err(ReplayError::BadConfig),
            },
    {
        match parse_decimal(text) {
            Some(number) => match TimeFactor::from_decimal(&number) {
                Some(factor) => Ok(factor),
                None => Err(ReplayError::BadConfig),
            },
            None => Err(ReplayError::BadConfig),
        }
    }

    /// The factor that leaves every duration as it is.
    pub fn one() -> (out: TimeFactor)
        ensures
            out.is_one(),
    {
        TimeFactor { mantissa: 1, decimals: 0 }
    }

    /// The digits of the factor, read as one number.
    pub fn mantissa(&self) -> (out: u64)
        ensures
            out == self.spec_mantissa(),
            out <= MAX_FACTOR_MANTISSA,
    {
        proof {
            use_type_invariant(self);
        }
        self.mantissa
    }

    /// How many of the factor's digits stand behind the decimal point.
    pub fn decimals(&self) -> (out: u8)
        ensures
            out == self.spec_decimals(),
            out <= MAX_FACTOR_DECIMALS,
    {
        proof {
            use_type_invariant(self);
        }
        self.decimals
    }

    /// Scales a duration of `nanos` nanoseconds by the factor.
    pub fn apply(&self, nanos: u128) -> (out: u128)
        requires
            nanos <= MAX_SPAN_NANOS,
        ensures
            out == self.scale(nanos as nat),
    {
        proof {
            use_type_invariant(self);
            lemma_pow10_monotonic(self.decimals as nat, 38);
            lemma_pow10_values();
            assert(nanos * self.mantissa <= 2_000_000_000_000_000_000_000 * 99_999_999_999_999_999)
                by (nonlinear_arith)
                requires
                    nanos <= 2_000_000_000_000_000_000_000,
                    self.mantissa <= 99_999_999_999_999_999,
            ;
        }
        let divisor = pow10_exec(self.decimals as u32);
        (nanos * (self.mantissa as u128)) / divisor
    }
}

/// The factor one leaves every duration as it is.
pub proof fn lemma_factor_one_is_identity(factor: TimeFactor, nanos: nat)
    requires
        factor.is_one(),
    ensures
        factor.scale(nanos) == nanos,
{
    assert(pow10(0) == 1);
}

/// A longer duration never scales to a shorter one.
pub proof fn lemma_scale_is_monotonic(factor: TimeFactor, shorter: nat, longer: nat)
    requires
        shorter <= longer,
    ensures
        factor.scale(shorter) <= factor.scale(longer),
        factor.scale(0) == 0,
{
    let m = factor.spec_mantissa();
    let d = pow10(factor.spec_decimals());
    lemma_pow10_monotonic(0, factor.spec_decimals());
    assert(shorter * m <= longer * m) by (nonlinear_arith)
        requires
            shorter <= longer,
            m >= 0,
    ;
    vstd::arithmetic::div_mod::lemma_div_is_ordered((shorter * m) as int, (longer * m) as int, d as int);
    assert(0 * m == 0);
    assert(0int / (d as int) == 0) by (nonlinear_arith)
        requires
            d > 0,
    ;
}

/// One request of the plan: a record, the time to wait before its request
/// is issued, and the address that the request goes to.
#[derive(Debug)]
pub struct PlannedRequest {
    /// Nanoseconds from the start of the plan to the request.
    pub offset: u128,
    /// The absolute URL: `scheme://host`, path and parameters, joined as they are.
    pub url: String,
    /// The record that the request replays.
    pub record: AccessRecord,
}

/// What a [`PlannedRequest`] stands for.
pub struct PlannedView {
    pub offset: nat,
    pub url: Seq<char>,
    pub record: AccessRecord,
}

impl View for PlannedRequest {
    type V = PlannedView;

    open spec fn view(&self) -> PlannedView {
        PlannedView { offset: self.offset as nat, url: self.url@, record: self.record }
    }
}

/// The views of the requests of a plan, in order.
pub open spec fn plan_view(plan: Seq<PlannedRequest>) -> Seq<PlannedView> {
    plan.map_values(|request: PlannedRequest| request@)
}

/// Nanoseconds from `anchor` to `instant`; zero where `instant` is the earlier.
pub open spec fn nanos_after(anchor: int, instant: int) -> nat {
    if instant >= anchor {
        (instant - anchor) as nat
    } else {
        0
    }
}

/// The request that replays `record` against `host`, in a plan that starts
/// at `anchor`.
pub open spec fn spec_request(record: AccessRecord, host: Seq<char>, anchor: int, factor: TimeFactor) -> PlannedView {
    PlannedView {
        offset: factor.scale(nanos_after(anchor, record.timestamp@)),
        url: host + record.path@ + record.parameters@,
        record,
    }
}

/// The requests for those of `records` that host resolution keeps, in the
/// order of the records: the requests for all but the last record, then
/// the one for the last record where it is kept.
pub open spec fn spec_requests(
    records: Seq<AccessRecord>,
    anchor: int,
    config: SchemaAndHostMapping,
    hosts_to_ignore: Seq<String>,
    factor: TimeFactor,
) -> Seq<PlannedView>
    decreases records.len(),
{
    if records.len() == 0 {
        Seq::empty()
    } else {
        let earlier = spec_requests(records.drop_last(), anchor, config, hosts_to_ignore, factor);
        match config.spec_resolve(records.last().domain_name, hosts_to_ignore) {
            Resolution::Target(host) => earlier.push(spec_request(records.last(), host, anchor, factor)),
            _ => earlier,
        }
    }
}

/// Whether a resolution stops the plan from being built.
pub open spec fn is_fatal(resolution: Resolution) -> bool {
    resolution is Unmapped || resolution is Misconfigured
}

/// The resolution of the first record for which host resolution fails.
pub open spec fn first_failure(
    records: Seq<AccessRecord>,
    config: SchemaAndHostMapping,
    hosts_to_ignore: Seq<String>,
) -> Option<Resolution>
    decreases records.len(),
{
    if records.len() == 0 {
        None
    } else {
        match first_failure(records.drop_last(), config, hosts_to_ignore) {
            Some(failure) => Some(failure),
            None => {
                let resolution = config.spec_resolve(records.last().domain_name, hosts_to_ignore);
                if is_fatal(resolution) {
                    Some(resolution)
                } else {
                    None
                }
            },
        }
    }
}

/// The timestamp that offsets are counted from: that of the first record.
pub open spec fn spec_anchor(records: Seq<AccessRecord>) -> int {
    if records.len() > 0 {
        records[0].timestamp@
    } else {
        0
    }
}

/// How building a plan ends.
pub enum PlanOutcome {
    /// The plan, which holds at least one request.
    Plan(Seq<PlannedView>),
    /// Host resolution failed for a record, with this resolution.
    Failed(Resolution),
    /// No record survived host resolution.
    Empty,
}

/// How building the plan for `records` ends: with the first failure of host
/// resolution, if there is one; else with the requests for the records
/// that were kept, if there are any.
pub open spec fn spec_build_plan(
    records: Seq<AccessRecord>,
    config: SchemaAndHostMapping,
    hosts_to_ignore: Seq<String>,
    factor: TimeFactor,
) -> PlanOutcome {
    match first_failure(records, config, hosts_to_ignore) {
        Some(failure) => PlanOutcome::Failed(failure),
        None => {
            let requests = spec_requests(records, spec_anchor(records), config, hosts_to_ignore, factor);
            if requests.len() == 0 {
                PlanOutcome::Empty
            } else {
                PlanOutcome::Plan(requests)
            }
        },
    }
}

/// Whether `out` is what `outcome` asks for.
pub open spec fn is_outcome(out: Result<Vec<PlannedRequest>, ReplayError>, outcome: PlanOutcome) -> bool {
    match outcome {
        PlanOutcome::Plan(requests) => out matches Ok(plan) && plan_view(plan@) == requests,
        PlanOutcome::Failed(Resolution::Unmapped(name)) => out matches Err(
            ReplayError::Unmapped { domain_name },
        ) && domain_name@ == name,
        PlanOutcome::Failed(_) => out matches Err(ReplayError::BadConfig),
        PlanOutcome::Empty => out matches Err(ReplayError::EmptyPlan),
    }
}

/// A failure among the first records is the failure of the whole list.
proof fn lemma_first_failure_of_prefix(
    records: Seq<AccessRecord>,
    config: SchemaAndHostMapping,
    hosts_to_ignore: Seq<String>,
    n: int,
)
    requires
        0 <= n <= records.len(),
        first_failure(records.take(n), config, hosts_to_ignore) is Some,
    ensures
        first_failure(records, config, hosts_to_ignore) == first_failure(
            records.take(n),
            config,
            hosts_to_ignore,
        ),
    decreases records.len() - n,
{
    if n < records.len() {
        assert(records.take(n + 1).drop_last() == records.take(n));
        lemma_first_failure_of_prefix(records, config, hosts_to_ignore, n + 1);
    } else {
        assert(records.take(n) == records);
    }
}

/// What holds of every request of a plan for sorted records: it replays a
/// record that host resolution keeps, its offset is the scaled time from
/// the anchor to that record, and the records follow each other in time.
pub proof fn lemma_requests_follow_records(
    records: Seq<AccessRecord>,
    anchor: int,
    config: SchemaAndHostMapping,
    hosts_to_ignore: Seq<String>,
    factor: TimeFactor,
)
    requires
        is_sorted(records),
    ensures
        ({
            let plan = spec_requests(records, anchor, config, hosts_to_ignore, factor);
            &&& plan.len() <= records.len()
            &&& forall|k: int|
                0 <= k < plan.len() ==> {
                    &&& config.spec_resolve((#[trigger] plan[k]).record.domain_name, hosts_to_ignore) is Target
                    &&& plan[k].offset == factor.scale(nanos_after(anchor, plan[k].record.timestamp@))
                    &&& plan[k].record.timestamp@ <= records.last().timestamp@
                }
            &&& forall|i: int, j: int|
                0 <= i <= j < plan.len() ==> (#[trigger] plan[i]).record.timestamp@ <= (
                #[trigger] plan[j]).record.timestamp@
        }),
    decreases records.len(),
{
    if records.len() > 0 {
        let shorter = records.drop_last();
        assert(is_sorted(shorter)) by {
            assert forall|i: int, j: int| 0 <= i <= j < shorter.len() implies (#[trigger] shorter[i]).timestamp@
                <= (#[trigger] shorter[j]).timestamp@ by {
                assert(shorter[i] == records[i] && shorter[j] == records[j]);
            }
        }
        lemma_requests_follow_records(shorter, anchor, config, hosts_to_ignore, factor);
        if shorter.len() > 0 {
            assert(shorter.last() == records[records.len() - 2]);
            assert(records[records.len() - 2].timestamp@ <= records[records.len() - 1].timestamp@);
        }
    }
}

/// In a plan for sorted records, offsets never decrease.
pub proof fn lemma_offsets_never_decrease(
    records: Seq<AccessRecord>,
    config: SchemaAndHostMapping,
    hosts_to_ignore: Seq<String>,
    factor: TimeFactor,
)
    requires
        is_sorted(records),
    ensures
        ({
            let plan = spec_requests(records, spec_anchor(records), config, hosts_to_ignore, factor);
            forall|i: int, j: int|
                0 <= i <= j < plan.len() ==> (#[trigger] plan[i]).offset <= (#[trigger] plan[j]).offset
        }),
{
    let anchor = spec_anchor(records);
    let plan = spec_requests(records, anchor, config, hosts_to_ignore, factor);
    lemma_requests_follow_records(records, anchor, config, hosts_to_ignore, factor);
    assert forall|i: int, j: int| 0 <= i <= j < plan.len() implies (#[trigger] plan[i]).offset <= (
    #[trigger] plan[j]).offset by {
        lemma_scale_is_monotonic(
            factor,
            nanos_after(anchor, plan[i].record.timestamp@),
            nanos_after(anchor, plan[j].record.timestamp@),
        );
    }
}

/// Where host resolution keeps the first record, the plan starts with the
/// request for it, at offset zero.
pub proof fn lemma_first_offset_is_zero(
    records: Seq<AccessRecord>,
    config: SchemaAndHostMapping,
    hosts_to_ignore: Seq<String>,
    factor: TimeFactor,
)
    requires
        records.len() > 0,
        config.spec_resolve(records[0].domain_name, hosts_to_ignore) is Target,
    ensures
        ({
            let plan = spec_requests(records, spec_anchor(records), config, hosts_to_ignore, factor);
            &&& plan.len() > 0
            &&& plan[0].record == records[0]
            &&& plan[0].offset == 0
        }),
    decreases records.len(),
{
    let anchor = spec_anchor(records);
    lemma_scale_is_monotonic(factor, 0, 0);
    if records.len() > 1 {
        let shorter = records.drop_last();
        assert(shorter[0] == records[0]);
        lemma_first_offset_is_zero(shorter, config, hosts_to_ignore, factor);
    } else {
        assert(records.drop_last().len() == 0);
        assert(spec_requests(records.drop_last(), anchor, config, hosts_to_ignore, factor).len() == 0);
        assert(records.last() == records[0]);
    }
}

/// A plan built with a factor holds the requests of the plan built with
/// factor one, each offset scaled by the factor and rounded down.
pub proof fn lemma_factor_scales_offsets(
    records: Seq<AccessRecord>,
    anchor: int,
    config: SchemaAndHostMapping,
    hosts_to_ignore: Seq<String>,
    factor: TimeFactor,
    one: TimeFactor,
)
    requires
        one.is_one(),
    ensures
        ({
            let scaled = spec_requests(records, anchor, config, hosts_to_ignore, factor);
            let plain = spec_requests(records, anchor, config, hosts_to_ignore, one);
            &&& scaled.len() == plain.len()
            &&& forall|k: int|
                0 <= k < scaled.len() ==> {
                    &&& (#[trigger] scaled[k]).offset == factor.scale(plain[k].offset)
                    &&& scaled[k].url == plain[k].url
                    &&& scaled[k].record == plain[k].record
                }
        }),
    decreases records.len(),
{
    if records.len() > 0 {
        lemma_factor_scales_offsets(records.drop_last(), anchor, config, hosts_to_ignore, factor, one);
        lemma_factor_one_is_identity(one, nanos_after(anchor, records.last().timestamp@));
    }
}

/// A record that host resolution drops adds nothing to the plan: without
/// it the same requests are planned.
pub proof fn lemma_dropped_record_adds_nothing(
    records: Seq<AccessRecord>,
    at: int,
    anchor: int,
    config: SchemaAndHostMapping,
    hosts_to_ignore: Seq<String>,
    factor: TimeFactor,
)
    requires
        0 <= at < records.len(),
        config.spec_resolve(records[at].domain_name, hosts_to_ignore) is Dropped,
    ensures
        spec_requests(records.remove(at), anchor, config, hosts_to_ignore, factor) == spec_requests(
            records,
            anchor,
            config,
            hosts_to_ignore,
            factor,
        ),
    decreases records.len(),
{
    if at == records.len() - 1 {
        assert(records.remove(at) == records.drop_last());
    } else {
        lemma_dropped_record_adds_nothing(records.drop_last(), at, anchor, config, hosts_to_ignore, factor);
        assert(records.remove(at).drop_last() == records.drop_last().remove(at));
        assert(records.remove(at).last() == records.last());
    }
}

/// Where no failure is found, host resolution fails for no record.
pub proof fn lemma_no_failure_means_none_fatal(
    records: Seq<AccessRecord>,
    config: SchemaAndHostMapping,
    hosts_to_ignore: Seq<String>,
)
    requires
        first_failure(records, config, hosts_to_ignore) is None,
    ensures
        forall|i: int|
            0 <= i < records.len() ==> !is_fatal(
                config.spec_resolve((#[trigger] records[i]).domain_name, hosts_to_ignore),
            ),
    decreases records.len(),
{
    if records.len() > 0 {
        lemma_no_failure_means_none_fatal(records.drop_last(), config, hosts_to_ignore);
        assert forall|i: int| 0 <= i < records.len() implies !is_fatal(
            config.spec_resolve((#[trigger] records[i]).domain_name, hosts_to_ignore),
        ) by {
            if i < records.len() - 1 {
                assert(records.drop_last()[i] == records[i]);
            }
        }
    }
}

/// One record whose domain the mapping does not hold, and which the ignore
/// list does not hold either, keeps any plan from being built.
pub proof fn lemma_unmapped_record_fails_the_plan(
    records: Seq<AccessRecord>,
    at: int,
    config: SchemaAndHostMapping,
    hosts_to_ignore: Seq<String>,
    factor: TimeFactor,
)
    requires
        0 <= at < records.len(),
        config.spec_resolve(records[at].domain_name, hosts_to_ignore) is Unmapped,
    ensures
        spec_build_plan(records, config, hosts_to_ignore, factor) is Failed,
{
    if first_failure(records, config, hosts_to_ignore) is None {
        lemma_no_failure_means_none_fatal(records, config, hosts_to_ignore);
    }
}

/// Without records there is no plan: the build ends as empty, which is
/// an error that does not exit with zero.
pub proof fn lemma_no_records_no_plan(
    records: Seq<AccessRecord>,
    config: SchemaAndHostMapping,
    hosts_to_ignore: Seq<String>,
    factor: TimeFactor,
)
    requires
        records.len() == 0,
    ensures
        spec_build_plan(records, config, hosts_to_ignore, factor) is Empty,
        ReplayError::EmptyPlan.spec_exit_status().spec_code() != 0,
{
}

/// Builds the plan for records that are sorted by timestamp.
///
/// Offsets count from the first record's timestamp and are scaled by
/// `factor`. Records that host resolution drops get no request. The first
/// record for which resolution fails ends the build with its error, and a
/// plan without requests is an `EmptyPlan`.
pub fn build_plan(
    records: &Vec<AccessRecord>,
    config: &SchemaAndHostMapping,
    hosts_to_ignore: &Vec<String>,
    factor: &TimeFactor,
) -> (out: Result<Vec<PlannedRequest>, ReplayError>)
    requires
        is_sorted(records@),
    ensures
        is_outcome(out, spec_build_plan(records@, *config, hosts_to_ignore@, *factor)),
{
    let mut plan: Vec<PlannedRequest> = Vec::new();
    let mut i: usize = 0;
    while i < records.len()
        invariant
            i <= records.len(),
            is_sorted(records@),
            first_failure(records@.take(i as int), *config, hosts_to_ignore@) is None,
            plan_view(plan@) == spec_requests(
                records@.take(i as int),
                spec_anchor(records@),
                *config,
                hosts_to_ignore@,
                *factor,
            ),
        decreases records.len() - i,
    {
        let record = &records[i];
        proof {
            assert(records@.take(i + 1).drop_last() == records@.take(i as int));
            assert(records@.take(i + 1).last() == records@[i as int]);
        }
        match config.resolve(&record.domain_name, hosts_to_ignore) {
            Ok(Some(host)) => {
                let waited = record.timestamp.since(&records[0].timestamp);
                assert(records@[0].timestamp@ <= records@[i as int].timestamp@);
                let offset = factor.apply(waited as u128);
                let mut url = host;
                url.append(record.path.as_str());
                url.append(record.parameters.as_str());
                let ghost before = plan_view(plan@);
                plan.push(PlannedRequest { offset, url, record: record.duplicate() });
                assert(plan_view(plan@) == before.push(plan@.last()@));
            },
            Ok(None) => {},
            Err(e) => {
                proof {
                    lemma_first_failure_of_prefix(records@, *config, hosts_to_ignore@, i + 1);
                }
                return Err(e);
            },
        }
        i += 1;
    }
    assert(records@.take(i as int) == records@);
    if plan.len() == 0 {
        Err(ReplayError::EmptyPlan)
    } else {
        Ok(plan)
    }
}

/// Sorts the records by timestamp and builds the plan for them; without a
/// factor, durations stay as they are.
pub fn requests_from_records(
    records: Vec<AccessRecord>,
    config: &SchemaAndHostMapping,
    hosts_to_ignore: &Vec<String>,
    time_factor: Option<TimeFactor>,
) -> (out: Result<Vec<PlannedRequest>, ReplayError>)
    ensures
        exists|sorted: Seq<AccessRecord>, factor: TimeFactor|
            {
                &&& #[trigger] is_stable_sort_of(sorted, records@)
                &&& match time_factor {
                    Some(given) => factor == given,
                    None => factor.is_one(),
                }
                &&& #[trigger] is_outcome(out, spec_build_plan(sorted, *config, hosts_to_ignore@, factor))
            },
{
    let factor = match time_factor {
        Some(given) => given,
        None => TimeFactor::one(),
    };
    let sorted = sort_by_timestamp(records);
    let out = build_plan(&sorted, config, hosts_to_ignore, &factor);
    assert(is_outcome(out, spec_build_plan(sorted@, *config, hosts_to_ignore@, factor)));
    out
}

/// Whether `out` is the plan for the records of `decoded`, sorted by
/// timestamp and with durations scaled by `time_factor` where one is
/// given, or fails at the row at which `decoded` does.
pub open spec fn is_planned_decoding(
    out: Result<Vec<PlannedRequest>, ReplayError>,
    decoded: Decoded,
    config: SchemaAndHostMapping,
    hosts_to_ignore: Seq<String>,
    time_factor: Option<TimeFactor>,
) -> bool {
    match decoded {
        Decoded::Records(found) => exists|
            sorted: Seq<AccessRecord>,
            records: Seq<AccessRecord>,
            factor: TimeFactor,
        |
            {
                &&& records_view(records) == found
                &&& #[trigger] is_stable_sort_of(sorted, records)
                &&& is_sorted(sorted)
                &&& match time_factor {
                    Some(given) => factor == given,
                    None => factor.is_one(),
                }
                &&& #[trigger] is_outcome(out, spec_build_plan(sorted, config, hosts_to_ignore, factor))
            },
        Decoded::FailedAt(at) => out matches Err(ReplayError::RecordDecode { row }) && row == at,
    }
}

/// Reads the records of the input in the given format, sorts them by
/// timestamp and builds the plan for them. What fails first ends the
/// build: a row that does not decode, before any host is resolved.
pub fn requests_from_bytes(
    format: InputFormat,
    data: &[u8],
    config: &SchemaAndHostMapping,
    hosts_to_ignore: &Vec<String>,
    time_factor: Option<TimeFactor>,
) -> (out: Result<Vec<PlannedRequest>, ReplayError>)
    ensures
        is_planned_decoding(out, spec_decode(format, data@), *config, hosts_to_ignore@, time_factor),
{
    let factor = match time_factor {
        Some(given) => given,
        None => TimeFactor::one(),
    };
    match records_from_bytes(format, data) {
        Ok(sorted) => {
            let out = build_plan(&sorted, config, hosts_to_ignore, &factor);
            proof {
                let records = choose|records: Seq<AccessRecord>|
                    records_view(records) == spec_decode(format, data@)->Records_0
                        && #[trigger] is_stable_sort_of(sorted@, records);
                assert(is_stable_sort_of(sorted@, records));
                assert(is_outcome(out, spec_build_plan(sorted@, *config, hosts_to_ignore@, factor)));
            }
            out
        },
        Err(e) => Err(e),
    }
}

} // verus!

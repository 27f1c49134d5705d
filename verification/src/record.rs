use vstd::prelude::*;
use crate::timestamp::Timestamp;

verus! {

/// One recorded request.
#[derive(Debug)]
pub struct AccessRecord {
    /// When the request was recorded.
    pub timestamp: Timestamp,
    /// The host as recorded, if the record names one.
    pub domain_name: Option<String>,
    /// The request path, without scheme or host.
    pub path: String,
    /// The query string as recorded, appended to the path as it is; empty
    /// where the record has none.
    pub parameters: String,
    /// The recorded processing time, in nanoseconds.
    pub required_time: i64,
}

/// What an [`AccessRecord`] stands for.
pub struct RecordView {
    /// Nanoseconds since the reference instant.
    pub timestamp: int,
    pub domain_name: Option<Seq<char>>,
    pub path: Seq<char>,
    pub parameters: Seq<char>,
    /// Nanoseconds.
    pub required_time: int,
}

impl View for AccessRecord {
    type V = RecordView;

    open spec fn view(&self) -> RecordView {
        RecordView {
            timestamp: self.timestamp@,
            domain_name: match self.domain_name {
                Some(name) => Some(name@),
                None => None,
            },
            path: self.path@,
            parameters: self.parameters@,
            required_time: self.required_time as int,
        }
    }
}

/// The views of the records of a list, in order.
pub open spec fn records_view(records: Seq<AccessRecord>) -> Seq<RecordView> {
    records.map_values(|record: AccessRecord| record@)
}

impl AccessRecord {
    /// A copy of the record.
    pub fn duplicate(&self) -> (out: AccessRecord)
        ensures
            out == *self,
    {
        let domain_name = match &self.domain_name {
            Some(name) => Some(name.clone()),
            None => None,
        };
        AccessRecord {
            timestamp: self.timestamp,
            domain_name,
            path: self.path.clone(),
            parameters: self.parameters.clone(),
            required_time: self.required_time,
        }
    }
}

/// Whether the timestamps never decrease along `records`.
pub open spec fn is_sorted(records: Seq<AccessRecord>) -> bool {
    forall|i: int, j: int|
        0 <= i <= j < records.len() ==> (#[trigger] records[i]).timestamp@ <= (
        #[trigger] records[j]).timestamp@
}

/// Whether the record at index `a` comes before the one at index `b` once
/// `records` is sorted: by timestamp, and by position where those are equal.
pub open spec fn comes_before(records: Seq<AccessRecord>, a: int, b: int) -> bool {
    records[a].timestamp@ < records[b].timestamp@ || (records[a].timestamp@
        == records[b].timestamp@ && a < b)
}

/// Whether `order` lists indices into `records`, one for each record, each
/// coming before the next: the one rearrangement that sorts `records` by
/// timestamp and keeps records of equal timestamp in their order.
pub open spec fn is_stable_order(order: Seq<int>, records: Seq<AccessRecord>) -> bool {
    &&& order.len() == records.len()
    &&& forall|k: int| 0 <= k < order.len() ==> 0 <= #[trigger] order[k] < records.len()
    &&& forall|i: int, j: int|
        0 <= i < j < order.len() ==> comes_before(records, #[trigger] order[i], #[trigger] order[j])
}

/// Whether `sorted` holds the records of `records` in stable timestamp order.
pub open spec fn is_stable_sort_of(sorted: Seq<AccessRecord>, records: Seq<AccessRecord>) -> bool {
    exists|order: Seq<int>|
        {
            &&& #[trigger] is_stable_order(order, records)
            &&& sorted.len() == records.len()
            &&& forall|k: int| 0 <= k < sorted.len() ==> #[trigger] sorted[k] == records[order[k]]
        }
}

/// A stable order lists every index of the records: sorting keeps every record.
pub proof fn lemma_stable_order_holds_every_index(order: Seq<int>, records: Seq<AccessRecord>, index: int)
    requires
        is_stable_order(order, records),
        0 <= index < records.len(),
    ensures
        exists|k: int| 0 <= k < order.len() && order[k] == index,
{
    let n = records.len() as int;
    assert(order.no_duplicates()) by {
        assert forall|i: int, j: int| 0 <= i < order.len() && 0 <= j < order.len() && i != j implies order[i]
            != order[j] by {
            if i < j {
                assert(comes_before(records, order[i], order[j]));
            } else {
                assert(comes_before(records, order[j], order[i]));
            }
        }
    }
    order.unique_seq_to_set();
    vstd::seq_lib::seq_to_set_is_finite(order);
    vstd::set_lib::lemma_int_range(0, n);
    assert(order.to_set().subset_of(vstd::set_lib::set_int_range(0, n))) by {
        assert forall|v: int| order.to_set().contains(v) implies vstd::set_lib::set_int_range(0, n).contains(
            v,
        ) by {
            let k = choose|k: int| 0 <= k < order.len() && order[k] == v;
            assert(0 <= order[k] < n);
        }
    }
    vstd::set_lib::lemma_subset_equality(order.to_set(), vstd::set_lib::set_int_range(0, n));
    assert(vstd::set_lib::set_int_range(0, n).contains(index));
    assert(order.to_set().contains(index));
    assert(order.contains(index));
}

/// Records with the same timestamps have the same stable order: there is
/// one way only to sort them.
pub proof fn lemma_stable_order_is_unique(
    first: Seq<int>,
    second: Seq<int>,
    records: Seq<AccessRecord>,
    others: Seq<AccessRecord>,
)
    requires
        is_stable_order(first, records),
        is_stable_order(second, others),
        records.len() == others.len(),
        forall|i: int| 0 <= i < records.len() ==> (#[trigger] records[i]).timestamp@ == others[i].timestamp@,
    ensures
        first == second,
{
    assert forall|k: int| 0 <= k < first.len() implies first[k] == second[k] by {
        lemma_orders_agree_up_to(first, second, records, others, k + 1);
    }
    assert(first =~= second);
}

/// Two stable orders of records with the same timestamps agree on their
/// first `count` places.
proof fn lemma_orders_agree_up_to(
    first: Seq<int>,
    second: Seq<int>,
    records: Seq<AccessRecord>,
    others: Seq<AccessRecord>,
    count: int,
)
    requires
        is_stable_order(first, records),
        is_stable_order(second, others),
        records.len() == others.len(),
        forall|i: int| 0 <= i < records.len() ==> (#[trigger] records[i]).timestamp@ == others[i].timestamp@,
        0 <= count <= first.len(),
    ensures
        forall|i: int| 0 <= i < count ==> first[i] == second[i],
    decreases count,
{
    if count > 0 {
        lemma_orders_agree_up_to(first, second, records, others, count - 1);
        let at = count - 1;
        let a = first[at];
        let b = second[at];
        assert(0 <= a < records.len() && 0 <= b < records.len());
        assert(records[a].timestamp@ == others[a].timestamp@);
        assert(records[b].timestamp@ == others[b].timestamp@);
        if a != b {
            if comes_before(records, a, b) {
                lemma_stable_order_holds_every_index(second, others, a);
                let m = choose|m: int| 0 <= m < second.len() && second[m] == a;
                if m < at {
                    assert(first[m] == a);
                    assert(comes_before(records, first[m], first[at]));
                } else if m > at {
                    assert(comes_before(others, second[at], second[m]));
                }
            } else {
                assert(comes_before(records, b, a));
                lemma_stable_order_holds_every_index(first, records, b);
                let m = choose|m: int| 0 <= m < first.len() && first[m] == b;
                if m < at {
                    assert(second[m] == b);
                    assert(comes_before(others, second[m], second[at]));
                } else if m > at {
                    assert(comes_before(records, first[at], first[m]));
                }
            }
        }
    }
}

/// Sorting keeps every record: each record of the input stands somewhere
/// in the sorted list.
pub proof fn lemma_sort_keeps_every_record(sorted: Seq<AccessRecord>, records: Seq<AccessRecord>, index: int)
    requires
        is_stable_sort_of(sorted, records),
        0 <= index < records.len(),
    ensures
        exists|k: int| 0 <= k < sorted.len() && sorted[k] == records[index],
{
    let order = choose|order: Seq<int>|
        {
            &&& #[trigger] is_stable_order(order, records)
            &&& sorted.len() == records.len()
            &&& forall|k: int| 0 <= k < sorted.len() ==> #[trigger] sorted[k] == records[order[k]]
        };
    lemma_stable_order_holds_every_index(order, records, index);
    let k = choose|k: int| 0 <= k < order.len() && order[k] == index;
    assert(sorted[k] == records[order[k]]);
}

/// What is sorted is in ascending order of time.
pub proof fn lemma_stable_sort_is_sorted(sorted: Seq<AccessRecord>, records: Seq<AccessRecord>)
    requires
        is_stable_sort_of(sorted, records),
    ensures
        is_sorted(sorted),
{
    let order = choose|order: Seq<int>|
        {
            &&& #[trigger] is_stable_order(order, records)
            &&& sorted.len() == records.len()
            &&& forall|k: int| 0 <= k < sorted.len() ==> #[trigger] sorted[k] == records[order[k]]
        };
    assert forall|i: int, j: int| 0 <= i <= j < sorted.len() implies (#[trigger] sorted[i]).timestamp@ <= (
    #[trigger] sorted[j]).timestamp@ by {
        assert(sorted[i] == records[order[i]]);
        assert(sorted[j] == records[order[j]]);
        if i < j {
            assert(comes_before(records, order[i], order[j]));
        }
    }
}

/// Lists that hold the same records sort to lists that hold the same
/// records: what is sorted depends on what the records say, not on how
/// they were read.
pub proof fn lemma_sort_depends_on_views_only(
    sorted: Seq<AccessRecord>,
    records: Seq<AccessRecord>,
    other_sorted: Seq<AccessRecord>,
    others: Seq<AccessRecord>,
)
    requires
        is_stable_sort_of(sorted, records),
        is_stable_sort_of(other_sorted, others),
        records_view(records) == records_view(others),
    ensures
        records_view(sorted) == records_view(other_sorted),
{
    let first = choose|order: Seq<int>|
        {
            &&& #[trigger] is_stable_order(order, records)
            &&& sorted.len() == records.len()
            &&& forall|k: int| 0 <= k < sorted.len() ==> #[trigger] sorted[k] == records[order[k]]
        };
    let second = choose|order: Seq<int>|
        {
            &&& #[trigger] is_stable_order(order, others)
            &&& other_sorted.len() == others.len()
            &&& forall|k: int| 0 <= k < other_sorted.len() ==> #[trigger] other_sorted[k] == others[order[k]]
        };
    assert(records.len() == others.len()) by {
        assert(records_view(records).len() == records.len());
        assert(records_view(others).len() == others.len());
    }
    assert forall|i: int| 0 <= i < records.len() implies (#[trigger] records[i])@ == others[i]@ by {
        assert(records_view(records)[i] == records[i]@);
        assert(records_view(others)[i] == others[i]@);
    }
    assert forall|i: int| 0 <= i < records.len() implies (#[trigger] records[i]).timestamp@
        == others[i].timestamp@ by {
        assert(records[i]@ == others[i]@);
    }
    lemma_stable_order_is_unique(first, second, records, others);
    assert forall|k: int| 0 <= k < sorted.len() implies records_view(sorted)[k] == records_view(
        other_sorted,
    )[k] by {
        assert(sorted[k] == records[first[k]]);
        assert(other_sorted[k] == others[second[k]]);
        assert(records[first[k]]@ == others[first[k]]@);
    }
    assert(records_view(sorted) =~= records_view(other_sorted));
}

/// Whether `order` holds indices from `lo` up to `hi`, one for each, in
/// the order in which sorting puts them.
spec fn orders_range(order: Seq<usize>, nanos: Seq<i128>, lo: int, hi: int) -> bool {
    &&& order.len() == hi - lo
    &&& forall|k: int| 0 <= k < order.len() ==> lo <= #[trigger] order[k] < hi
    &&& forall|i: int, j: int|
        0 <= i < j < order.len() ==> key_before(nanos, #[trigger] order[i] as int, #[trigger] order[j] as int)
}

spec fn key_before(nanos: Seq<i128>, a: int, b: int) -> bool {
    nanos[a] < nanos[b] || (nanos[a] == nanos[b] && a < b)
}

/// Merges two sorted runs of indices, the first holding indices below
/// `mid` and the second those from `mid` on.
fn merge_runs(nanos: &Vec<i128>, left: &Vec<usize>, right: &Vec<usize>, lo: usize, mid: usize, hi: usize) -> (out: Vec<usize>)
    requires
        lo <= mid <= hi <= nanos.len(),
        orders_range(left@, nanos@, lo as int, mid as int),
        orders_range(right@, nanos@, mid as int, hi as int),
    ensures
        orders_range(out@, nanos@, lo as int, hi as int),
{
    let mut out: Vec<usize> = Vec::new();
    let mut i: usize = 0;
    let mut j: usize = 0;
    while i < left.len() || j < right.len()
        invariant
            lo <= mid <= hi <= nanos.len(),
            orders_range(left@, nanos@, lo as int, mid as int),
            orders_range(right@, nanos@, mid as int, hi as int),
            i <= left.len(),
            j <= right.len(),
            out.len() == i + j,
            forall|k: int| 0 <= k < out.len() ==> lo <= #[trigger] out[k] < hi,
            forall|a: int, b: int|
                0 <= a < b < out.len() ==> key_before(nanos@, #[trigger] out[a] as int, #[trigger] out[b] as int),
            forall|a: int, b: int|
                0 <= a < out.len() && i <= b < left.len() ==> key_before(
                    nanos@,
                    #[trigger] out[a] as int,
                    #[trigger] left[b] as int,
                ),
            forall|a: int, b: int|
                0 <= a < out.len() && j <= b < right.len() ==> key_before(
                    nanos@,
                    #[trigger] out[a] as int,
                    #[trigger] right[b] as int,
                ),
        decreases left.len() - i + right.len() - j,
    {
        let take_left = if i >= left.len() {
            false
        } else if j >= right.len() {
            true
        } else {
            nanos[left[i]] <= nanos[right[j]]
        };
        if take_left {
            out.push(left[i]);
            i += 1;
        } else {
            out.push(right[j]);
            j += 1;
        }
    }
    out
}

/// The indices from `lo` up to `hi` in the order in which sorting by
/// timestamp, then by position, puts them.
fn sort_range(nanos: &Vec<i128>, lo: usize, hi: usize) -> (out: Vec<usize>)
    requires
        lo <= hi <= nanos.len(),
    ensures
        orders_range(out@, nanos@, lo as int, hi as int),
    decreases hi - lo,
{
    if hi - lo == 0 {
        Vec::new()
    } else if hi - lo == 1 {
        let mut out: Vec<usize> = Vec::new();
        out.push(lo);
        out
    } else {
        let mid = lo + (hi - lo) / 2;
        let left = sort_range(nanos, lo, mid);
        let right = sort_range(nanos, mid, hi);
        merge_runs(nanos, &left, &right, lo, mid, hi)
    }
}

/// Sorts records by timestamp, earliest first; records of equal timestamp
/// keep their order.
pub fn sort_by_timestamp(records: Vec<AccessRecord>) -> (sorted: Vec<AccessRecord>)
    ensures
        is_stable_sort_of(sorted@, records@),
        is_sorted(sorted@),
{
    let mut nanos: Vec<i128> = Vec::new();
    let mut k: usize = 0;
    while k < records.len()
        invariant
            k <= records.len(),
            nanos.len() == k,
            forall|i: int| 0 <= i < k ==> #[trigger] nanos[i] == records[i].timestamp@,
        decreases records.len() - k,
    {
        nanos.push(records[k].timestamp.nanos());
        k += 1;
    }
    let order = sort_range(&nanos, 0, records.len());
    let mut sorted: Vec<AccessRecord> = Vec::new();
    let mut k: usize = 0;
    while k < order.len()
        invariant
            k <= order.len(),
            order.len() == records.len(),
            sorted.len() == k,
            forall|i: int| 0 <= i < order.len() ==> 0 <= #[trigger] order[i] < records.len(),
            forall|i: int| 0 <= i < k ==> #[trigger] sorted[i] == records[order[i] as int],
        decreases order.len() - k,
    {
        sorted.push(records[order[k]].duplicate());
        k += 1;
    }
    proof {
        let witness = order@.map_values(|index: usize| index as int);
        assert(is_stable_order(witness, records@)) by {
            assert forall|i: int, j: int| 0 <= i < j < witness.len() implies comes_before(
                records@,
                #[trigger] witness[i],
                #[trigger] witness[j],
            ) by {
                assert(key_before(nanos@, order[i] as int, order[j] as int));
            }
        }
        assert forall|i: int, j: int| 0 <= i <= j < sorted.len() implies (#[trigger] sorted[i]).timestamp@
            <= (#[trigger] sorted[j]).timestamp@ by {
            if i < j {
                assert(key_before(nanos@, order[i] as int, order[j] as int));
            }
        }
    }
    sorted
}

} // verus!

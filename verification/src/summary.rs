//! Per-implementation timing summaries: the samples and their median.

use vstd::prelude::*;
use vstd::relations::{sorted_by, total_ordering};

verus! {

broadcast use vstd::seq_lib::group_to_multiset_ensures;

/// The samples of one measurement, in nanoseconds, and their median.
#[derive(Clone, Debug)]
pub struct SampleSummary {
    pub samples_ns: Vec<u64>,
    pub median_ns: u64,
}

/// Why durations could not be summarized.
#[derive(Clone, Copy, Debug, PartialEq, Eq, Structural)]
pub enum SummaryError {
    /// A duration does not fit in `u64` nanoseconds.
    DurationOutOfRange,
    /// There are no durations.
    NoSamples,
    /// A duration is zero.
    ZeroSample,
}

/// The order of nanosecond counts.
pub open spec fn ns_leq() -> spec_fn(u64, u64) -> bool {
    |a: u64, b: u64| a <= b
}

/// The samples in ascending order.
pub open spec fn sorted_samples(samples: Seq<u64>) -> Seq<u64> {
    samples.sort_by(ns_leq())
}

/// The middle element of an ascending sequence of odd length, or the
/// rounded-down mean of the two middle elements of one of even length.
pub open spec fn median_of_sorted(s: Seq<u64>) -> int {
    let mid = s.len() as int / 2;
    if s.len() % 2 == 0 {
        (s[mid - 1] + s[mid]) / 2
    } else {
        s[mid] as int
    }
}

/// The median of the samples.
pub open spec fn spec_median(samples: Seq<u64>) -> int {
    median_of_sorted(sorted_samples(samples))
}

/// What summarizing durations (in nanoseconds) gives: the first failing
/// check in the order range, emptiness, zero.
pub open spec fn spec_summary(durations_ns: Seq<u128>) -> Result<(Seq<u64>, int), SummaryError> {
    if exists|i: int| 0 <= i < durations_ns.len() && #[trigger] durations_ns[i] > u64::MAX {
        Err(SummaryError::DurationOutOfRange)
    } else if durations_ns.len() == 0 {
        Err(SummaryError::NoSamples)
    } else if exists|i: int| 0 <= i < durations_ns.len() && #[trigger] durations_ns[i] == 0 {
        Err(SummaryError::ZeroSample)
    } else {
        let samples = durations_ns.map_values(|d: u128| d as u64);
        Ok((samples, spec_median(samples)))
    }
}

pub proof fn lemma_ns_leq_total()
    ensures
        total_ordering(ns_leq()),
{
}

/// An ascending sequence with the same elements as the samples is their
/// sorted form.
pub proof fn lemma_sorted_is_sorted_samples(samples: Seq<u64>, sorted: Seq<u64>)
    requires
        sorted_by(sorted, ns_leq()),
        sorted.to_multiset() == samples.to_multiset(),
    ensures
        sorted == sorted_samples(samples),
{
    samples.lemma_sort_by_ensures(ns_leq());
    lemma_ns_leq_total();
    vstd::seq_lib::lemma_sorted_unique(sorted, sorted_samples(samples), ns_leq());
}

/// Sorts a copy of the samples in ascending order.
pub fn sorted_copy(samples: &Vec<u64>) -> (sorted: Vec<u64>)
    ensures
        sorted@ == sorted_samples(samples@),
        sorted_by(sorted@, ns_leq()),
        sorted@.len() == samples@.len(),
{
    let mut sorted: Vec<u64> = Vec::new();
    let mut i: usize = 0;
    assert(samples@.take(0) =~= Seq::<u64>::empty());
    while i < samples.len()
        invariant
            i <= samples@.len(),
            sorted_by(sorted@, ns_leq()),
            sorted@.to_multiset() == samples@.take(i as int).to_multiset(),
        decreases samples@.len() - i,
    {
        let v = samples[i];
        let mut pos: usize = 0;
        while pos < sorted.len() && sorted[pos] <= v
            invariant
                pos <= sorted@.len(),
                forall|j: int| 0 <= j < pos ==> sorted@[j] <= v,
            decreases sorted@.len() - pos,
        {
            pos = pos + 1;
        }
        let ghost before = sorted@;
        sorted.insert(pos, v);
        proof {
            vstd::seq_lib::to_multiset_insert(before, pos as int, v);
            assert(samples@.take(i + 1) =~= samples@.take(i as int).push(v));
            assert forall|a: int, b: int| 0 <= a < b < sorted@.len() implies #[trigger] (ns_leq())(
                sorted@[a],
                sorted@[b],
            ) by {
                if b < pos {
                    assert(sorted@[a] == before[a] && sorted@[b] == before[b]);
                    assert((ns_leq())(before[a], before[b]));
                } else if b == pos {
                    assert(sorted@[a] == before[a]);
                } else if a < pos {
                    assert(sorted@[a] == before[a] && sorted@[b] == before[b - 1]);
                    assert(before[a] <= v);
                    if pos < before.len() {
                        assert(before[pos as int] > v);
                        assert((ns_leq())(before[pos as int], before[b - 1]));
                    }
                } else if a == pos {
                    assert(sorted@[b] == before[b - 1]);
                    assert(before[pos as int] > v);
                    if b - 1 > pos {
                        assert((ns_leq())(before[pos as int], before[b - 1]));
                    }
                } else {
                    assert(sorted@[a] == before[a - 1] && sorted@[b] == before[b - 1]);
                    assert((ns_leq())(before[a - 1], before[b - 1]));
                }
            }
        }
        i = i + 1;
    }
    assert(samples@.take(i as int) =~= samples@);
    proof {
        lemma_sorted_is_sorted_samples(samples@, sorted@);
        assert(sorted@.to_multiset().len() == samples@.to_multiset().len());
    }
    sorted
}

impl SampleSummary {
    /// Summarizes durations given in nanoseconds.
    pub fn from_durations(durations_ns: &[u128]) -> (res: Result<SampleSummary, SummaryError>)
        ensures
            match spec_summary(durations_ns@) {
                Ok((samples, median)) => res matches Ok(s) && s.samples_ns@ == samples
                    && s.median_ns == median,
                Err(e) => res == Err::<SampleSummary, SummaryError>(e),
            },
    {
        let ghost ds = durations_ns@;
        let mut samples_ns: Vec<u64> = Vec::new();
        let mut i: usize = 0;
        while i < durations_ns.len()
            invariant
                ds == durations_ns@,
                i <= ds.len(),
                samples_ns@ == ds.take(i as int).map_values(|d: u128| d as u64),
                forall|j: int| 0 <= j < i ==> ds[j] <= u64::MAX,
            decreases ds.len() - i,
        {
            let d = durations_ns[i];
            if d > 0xffff_ffff_ffff_ffffu128 {
                assert(ds[i as int] > u64::MAX);
                return Err(SummaryError::DurationOutOfRange);
            }
            samples_ns.push(d as u64);
            i = i + 1;
            assert(samples_ns@ =~= ds.take(i as int).map_values(|d: u128| d as u64));
        }
        assert(ds.take(i as int) =~= ds);
        if samples_ns.len() == 0 {
            return Err(SummaryError::NoSamples);
        }
        let mut k: usize = 0;
        while k < samples_ns.len()
            invariant
                k <= samples_ns@.len(),
                ds == durations_ns@,
                samples_ns@.len() > 0,
                samples_ns@ == ds.map_values(|d: u128| d as u64),
                forall|j: int| 0 <= j < ds.len() ==> ds[j] <= u64::MAX,
                forall|j: int| 0 <= j < k ==> ds[j] != 0,
            decreases samples_ns@.len() - k,
        {
            if samples_ns[k] == 0 {
                assert(samples_ns@[k as int] == ds[k as int] as u64);
                assert(ds[k as int] == 0);
                assert(ds.len() > 0);
                assert(!(exists|i: int| 0 <= i < ds.len() && #[trigger] ds[i] > u64::MAX));
                return Err(SummaryError::ZeroSample);
            }
            k = k + 1;
        }
        let sorted = sorted_copy(&samples_ns);
        let midpoint = sorted.len() / 2;
        let median_ns = if sorted.len() % 2 == 0 {
            let lower = sorted[midpoint - 1];
            let upper = sorted[midpoint];
            assert(lower / 2 + upper / 2 + (lower % 2 + upper % 2) / 2 == (lower + upper) / 2);
            lower / 2 + upper / 2 + (lower % 2 + upper % 2) / 2
        } else {
            sorted[midpoint]
        };
        Ok(SampleSummary { samples_ns, median_ns })
    }
}

/// The median lies between the smallest and the largest sample.
pub proof fn lemma_median_within_range(samples: Seq<u64>)
    requires
        samples.len() > 0,
    ensures
        exists|i: int| 0 <= i < samples.len() && #[trigger] samples[i] <= spec_median(samples),
        exists|i: int| 0 <= i < samples.len() && #[trigger] samples[i] >= spec_median(samples),
{
    let s = sorted_samples(samples);
    samples.lemma_sort_by_ensures(ns_leq());
    assert(s.len() == samples.len()) by {
        assert(s.to_multiset().len() == samples.to_multiset().len());
    }
    let mid = s.len() as int / 2;
    let lo = if s.len() % 2 == 0 {
        mid - 1
    } else {
        mid
    };
    assert((ns_leq())(s[lo], s[mid]) || lo == mid);
    assert(s.to_multiset().count(s[lo]) > 0);
    assert(samples.contains(s[lo]));
    assert(s.to_multiset().count(s[mid]) > 0);
    assert(samples.contains(s[mid]));
    let a = choose|a: int| 0 <= a < samples.len() && samples[a] == s[lo];
    let b = choose|b: int| 0 <= b < samples.len() && samples[b] == s[mid];
    assert(samples[a] <= spec_median(samples));
    assert(samples[b] >= spec_median(samples));
}

/// The median of non-empty samples, read off any ascending arrangement `t`
/// of them: the middle element when their number `n` is odd, and the
/// rounded-down mean of elements `n / 2 - 1` and `n / 2` when it is even.
pub proof fn lemma_median_of_ascending(samples: Seq<u64>, t: Seq<u64>)
    requires
        samples.len() > 0,
        t.to_multiset() == samples.to_multiset(),
        forall|i: int, j: int| 0 <= i < j < t.len() ==> t[i] <= t[j],
    ensures
        t.len() == samples.len(),
        samples.len() % 2 == 1 ==> spec_median(samples) == t[samples.len() as int / 2] as int,
        samples.len() % 2 == 0 ==> spec_median(samples) == (t[samples.len() as int / 2 - 1]
            + t[samples.len() as int / 2]) / 2,
{
    t.to_multiset_ensures();
    samples.to_multiset_ensures();
    assert(sorted_by(t, ns_leq())) by {
        assert forall|i: int, j: int| 0 <= i < j < t.len() implies #[trigger] (ns_leq())(
            t[i],
            t[j],
        ) by {
            assert(t[i] <= t[j]);
        }
    }
    lemma_sorted_is_sorted_samples(samples, t);
}

/// Reordering the samples does not change their median.
pub proof fn lemma_median_order_independent(a: Seq<u64>, b: Seq<u64>)
    requires
        a.to_multiset() == b.to_multiset(),
    ensures
        spec_median(a) == spec_median(b),
{
    a.lemma_sort_by_ensures(ns_leq());
    b.lemma_sort_by_ensures(ns_leq());
    lemma_ns_leq_total();
    vstd::seq_lib::lemma_sorted_unique(sorted_samples(a), sorted_samples(b), ns_leq());
}

} // verus!

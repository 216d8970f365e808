//! Benchmark reports: validated comparison rows and their export as named
//! entries.

use vstd::prelude::*;

use crate::limits::{
    KEY_CREATION_SLOTS, MAX_DISTINCT_CLAIMS, MAX_RECURSIVE_FAN_IN, MAX_SAME_CLAIM_SIGNERS,
    RECURSIVE_AGGREGATION_WORKLOAD, RECURSIVE_CHILD_SIGNERS,
};
use crate::config::{lemma_accepted_config_within_limits, spec_parse_from};
use crate::paths::PathIdentity;
use crate::summary::SampleSummary;
use crate::text::{append_decimal, decimal_chars};

verus! {

/// Why a report could not be assembled or exported.
#[derive(Clone, Copy, Debug, PartialEq, Eq, Structural)]
pub enum ReportError {
    EmptyWorkload,
    ZeroInputSize,
    /// A key-creation row must measure exactly `KEY_CREATION_SLOTS` slots.
    KeyCreationSlots,
    InputSizeTooLarge(usize),
    ZeroLeanMedian,
    ZeroLeanArtifact,
    ZeroLighthouseArtifact,
    /// The Lighthouse median, the ratio's baseline, is zero.
    ZeroBaselineMedian,
    /// A claim count on a workload that is not a mixed-claim one.
    ClaimCountWorkload,
    ClaimCountTooSmall,
    ClaimCountTooLarge(usize),
    ClaimCountExceedsSignatures,
    ClaimCountNotDivisor,
    FanInTooSmall,
    FanInTooLarge(usize),
    ChildSignerCount,
    TotalSignersOverflow,
    /// The median of a recursive aggregation row is zero.
    ZeroLeanVmMedian,
    /// The proof of a recursive aggregation row is empty.
    ZeroLeanVmArtifact,
    EmptyReport,
}

/// A paired Lean / Lighthouse measurement of one workload and size.
#[derive(Clone, Debug)]
pub struct ComparisonReport {
    pub workload: String,
    pub input_size: usize,
    pub claim_count: Option<usize>,
    pub lean: SampleSummary,
    pub lighthouse: SampleSummary,
    pub lean_artifact_bytes: usize,
    pub lighthouse_artifact_bytes: usize,
}

/// A Lighthouse-only measurement.
#[derive(Clone, Debug)]
pub struct SupplementalReport {
    pub workload: String,
    pub input_size: usize,
    pub lighthouse: SampleSummary,
}

/// A Lean-only recursive aggregation measurement.
#[derive(Clone, Debug)]
pub struct RecursiveAggregationReport {
    pub workload: String,
    pub fan_in: usize,
    pub signers_per_child: usize,
    pub total_signers: usize,
    pub lean: SampleSummary,
    pub lean_artifact_bytes: usize,
}

/// All measurements of one run.
#[derive(Clone, Debug)]
pub struct BenchmarkReport {
    pub lighthouse_revision: String,
    pub samples: usize,
    pub proof_warmup: bool,
    pub comparisons: Vec<ComparisonReport>,
    pub recursive_aggregations: Vec<RecursiveAggregationReport>,
    pub supplemental: Vec<SupplementalReport>,
}

/// The workload name of the key-creation rows.
pub open spec fn key_creation_name() -> Seq<char> {
    "key_creation"@
}

/// The prefix that marks mixed-claim workloads.
pub open spec fn mixed_claim_prefix() -> Seq<char> {
    "mixed_claim_"@
}

pub open spec fn has_prefix(s: Seq<char>, prefix: Seq<char>) -> bool {
    s.len() >= prefix.len() && s.subrange(0, prefix.len() as int) == prefix
}

/// The first check that a comparison row fails, if any.
pub open spec fn comparison_error(
    workload: Seq<char>,
    input_size: usize,
    lean_median: u64,
    lighthouse_median: u64,
    lean_artifact_bytes: usize,
    lighthouse_artifact_bytes: usize,
) -> Option<ReportError> {
    if workload.len() == 0 {
        Some(ReportError::EmptyWorkload)
    } else if input_size == 0 {
        Some(ReportError::ZeroInputSize)
    } else if workload == key_creation_name() && input_size != KEY_CREATION_SLOTS {
        Some(ReportError::KeyCreationSlots)
    } else if workload != key_creation_name() && input_size > MAX_SAME_CLAIM_SIGNERS {
        Some(ReportError::InputSizeTooLarge(input_size))
    } else if lean_median == 0 {
        Some(ReportError::ZeroLeanMedian)
    } else if lean_artifact_bytes == 0 {
        Some(ReportError::ZeroLeanArtifact)
    } else if lighthouse_artifact_bytes == 0 {
        Some(ReportError::ZeroLighthouseArtifact)
    } else if lighthouse_median == 0 {
        Some(ReportError::ZeroBaselineMedian)
    } else {
        None
    }
}

/// The first check that a claim count fails on a row, if any.
pub open spec fn claim_count_error(workload: Seq<char>, input_size: usize, claim_count: usize) -> Option<
    ReportError,
> {
    if !has_prefix(workload, mixed_claim_prefix()) {
        Some(ReportError::ClaimCountWorkload)
    } else if claim_count <= 1 {
        Some(ReportError::ClaimCountTooSmall)
    } else if claim_count > MAX_DISTINCT_CLAIMS {
        Some(ReportError::ClaimCountTooLarge(claim_count))
    } else if claim_count > input_size {
        Some(ReportError::ClaimCountExceedsSignatures)
    } else if input_size % claim_count != 0 {
        Some(ReportError::ClaimCountNotDivisor)
    } else {
        None
    }
}

/// The first check that a recursive aggregation row fails, if any.
pub open spec fn recursive_error(
    fan_in: usize,
    signers_per_child: usize,
    lean_median: u64,
    lean_artifact_bytes: usize,
) -> Option<ReportError> {
    if fan_in < 2 {
        Some(ReportError::FanInTooSmall)
    } else if fan_in > MAX_RECURSIVE_FAN_IN {
        Some(ReportError::FanInTooLarge(fan_in))
    } else if signers_per_child != RECURSIVE_CHILD_SIGNERS {
        Some(ReportError::ChildSignerCount)
    } else if fan_in * signers_per_child > usize::MAX {
        Some(ReportError::TotalSignersOverflow)
    } else if lean_median == 0 {
        Some(ReportError::ZeroLeanVmMedian)
    } else if lean_artifact_bytes == 0 {
        Some(ReportError::ZeroLeanVmArtifact)
    } else {
        None
    }
}

/// A recursive aggregation row is accepted exactly when its fan-in lies in
/// `2..=MAX_RECURSIVE_FAN_IN`, each child proof covers
/// `RECURSIVE_CHILD_SIGNERS` signers, its median is positive and its proof
/// is non-empty; the maximum fan-in itself is accepted, and a fan-in is
/// refused as too large only when it exceeds the maximum, with that fan-in
/// in the error.
pub proof fn lemma_recursive_row_accepted(
    fan_in: usize,
    signers_per_child: usize,
    lean_median: u64,
    lean_artifact_bytes: usize,
)
    ensures
        recursive_error(fan_in, signers_per_child, lean_median, lean_artifact_bytes) is None <==> (
        2 <= fan_in <= MAX_RECURSIVE_FAN_IN && signers_per_child == RECURSIVE_CHILD_SIGNERS
            && lean_median > 0 && lean_artifact_bytes > 0),
        recursive_error(fan_in, signers_per_child, lean_median, lean_artifact_bytes)
            == Some(ReportError::FanInTooLarge(fan_in)) <==> fan_in > MAX_RECURSIVE_FAN_IN,
        recursive_error(fan_in, signers_per_child, lean_median, lean_artifact_bytes) matches Some(
            ReportError::FanInTooLarge(x),
        ) ==> x == fan_in && fan_in > MAX_RECURSIVE_FAN_IN,
{
    assert(fan_in <= MAX_RECURSIVE_FAN_IN && signers_per_child == RECURSIVE_CHILD_SIGNERS
        ==> fan_in * signers_per_child <= 8192) by (nonlinear_arith)
        requires
            MAX_RECURSIVE_FAN_IN == 16,
            RECURSIVE_CHILD_SIGNERS == 512,
    ;
}

/// Every fan-in that an accepted command line asks for gives an accepted
/// recursive aggregation row, whatever positive median and non-empty proof
/// it measures.
pub proof fn lemma_configured_fan_ins_accepted(
    args: Seq<Seq<u8>>,
    current_dir: Option<Seq<u8>>,
    identity: PathIdentity,
    k: int,
    lean_median: u64,
    lean_artifact_bytes: usize,
)
    requires
        spec_parse_from(args, current_dir, identity) is Ok,
        0 <= k < spec_parse_from(args, current_dir, identity)->Ok_0.recursive_fan_ins.len(),
        lean_median > 0,
        lean_artifact_bytes > 0,
    ensures
        recursive_error(
            spec_parse_from(args, current_dir, identity)->Ok_0.recursive_fan_ins[k],
            RECURSIVE_CHILD_SIGNERS,
            lean_median,
            lean_artifact_bytes,
        ) is None,
{
    lemma_accepted_config_within_limits(args, current_dir, identity);
    let fan_in = spec_parse_from(args, current_dir, identity)->Ok_0.recursive_fan_ins[k];
    lemma_recursive_row_accepted(fan_in, RECURSIVE_CHILD_SIGNERS, lean_median, lean_artifact_bytes);
}

fn string_equals_literal(s: &String, literal: &str) -> (res: bool)
    ensures
        res == (s@ == literal@),
{
    let owned = literal.to_owned();
    *s == owned
}

fn string_has_prefix(s: &String, prefix: &str) -> (res: bool)
    ensures
        res == has_prefix(s@, prefix@),
{
    let text = s.as_str();
    let n = text.unicode_len();
    let m = prefix.unicode_len();
    if n < m {
        return false;
    }
    let mut i: usize = 0;
    while i < m
        invariant
            i <= m,
            m == prefix@.len(),
            n == text@.len(),
            text@ == s@,
            m <= n,
            forall|j: int| 0 <= j < i ==> text@[j] == prefix@[j],
        decreases m - i,
    {
        if text.get_char(i) != prefix.get_char(i) {
            assert(s@.subrange(0, m as int)[i as int] != prefix@[i as int]);
            return false;
        }
        i = i + 1;
    }
    assert(s@.subrange(0, m as int) =~= prefix@);
    true
}

impl ComparisonReport {
    /// Validates a paired measurement.
    pub fn new(
        workload: String,
        input_size: usize,
        lean: SampleSummary,
        lighthouse: SampleSummary,
        lean_artifact_bytes: usize,
        lighthouse_artifact_bytes: usize,
    ) -> (res: Result<ComparisonReport, ReportError>)
        ensures
            match comparison_error(
                workload@,
                input_size,
                lean.median_ns,
                lighthouse.median_ns,
                lean_artifact_bytes,
                lighthouse_artifact_bytes,
            ) {
                Some(e) => res == Err::<ComparisonReport, ReportError>(e),
                None => res matches Ok(r) && r.workload@ == workload@ && r.input_size == input_size
                    && r.claim_count is None && r.lean == lean && r.lighthouse == lighthouse
                    && r.lean_artifact_bytes == lean_artifact_bytes && r.lighthouse_artifact_bytes
                    == lighthouse_artifact_bytes,
            },
    {
        if workload.as_str().unicode_len() == 0 {
            return Err(ReportError::EmptyWorkload);
        }
        if input_size == 0 {
            return Err(ReportError::ZeroInputSize);
        }
        if string_equals_literal(&workload, "key_creation") {
            if input_size != KEY_CREATION_SLOTS {
                return Err(ReportError::KeyCreationSlots);
            }
        } else if input_size > MAX_SAME_CLAIM_SIGNERS {
            return Err(ReportError::InputSizeTooLarge(input_size));
        }
        if lean.median_ns == 0 {
            return Err(ReportError::ZeroLeanMedian);
        }
        if lean_artifact_bytes == 0 {
            return Err(ReportError::ZeroLeanArtifact);
        }
        if lighthouse_artifact_bytes == 0 {
            return Err(ReportError::ZeroLighthouseArtifact);
        }
        if lighthouse.median_ns == 0 {
            return Err(ReportError::ZeroBaselineMedian);
        }
        Ok(ComparisonReport {
            workload,
            input_size,
            claim_count: None,
            lean,
            lighthouse,
            lean_artifact_bytes,
            lighthouse_artifact_bytes,
        })
    }

    /// Records the claim count of a mixed-claim row.
    pub fn with_claim_count(self, claim_count: usize) -> (res: Result<ComparisonReport, ReportError>)
        ensures
            match claim_count_error(self.workload@, self.input_size, claim_count) {
                Some(e) => res == Err::<ComparisonReport, ReportError>(e),
                None => res == Ok::<ComparisonReport, ReportError>(
                    ComparisonReport { claim_count: Some(claim_count), ..self },
                ),
            },
    {
        if !string_has_prefix(&self.workload, "mixed_claim_") {
            return Err(ReportError::ClaimCountWorkload);
        }
        if claim_count <= 1 {
            return Err(ReportError::ClaimCountTooSmall);
        }
        if claim_count > MAX_DISTINCT_CLAIMS {
            return Err(ReportError::ClaimCountTooLarge(claim_count));
        }
        if claim_count > self.input_size {
            return Err(ReportError::ClaimCountExceedsSignatures);
        }
        if self.input_size % claim_count != 0 {
            return Err(ReportError::ClaimCountNotDivisor);
        }
        let mut report = self;
        report.claim_count = Some(claim_count);
        Ok(report)
    }
}

impl RecursiveAggregationReport {
    /// Validates a recursive aggregation measurement.
    pub fn new(
        fan_in: usize,
        signers_per_child: usize,
        lean: SampleSummary,
        lean_artifact_bytes: usize,
    ) -> (res: Result<RecursiveAggregationReport, ReportError>)
        ensures
            match recursive_error(fan_in, signers_per_child, lean.median_ns, lean_artifact_bytes) {
                Some(e) => res == Err::<RecursiveAggregationReport, ReportError>(e),
                None => res matches Ok(r) && r.workload@ == RECURSIVE_AGGREGATION_WORKLOAD@
                    && r.fan_in == fan_in && r.signers_per_child == signers_per_child
                    && r.total_signers == fan_in * signers_per_child && r.lean == lean
                    && r.lean_artifact_bytes == lean_artifact_bytes,
            },
    {
        if fan_in < 2 {
            return Err(ReportError::FanInTooSmall);
        }
        if fan_in > MAX_RECURSIVE_FAN_IN {
            return Err(ReportError::FanInTooLarge(fan_in));
        }
        if signers_per_child != RECURSIVE_CHILD_SIGNERS {
            return Err(ReportError::ChildSignerCount);
        }
        let total_signers = match fan_in.checked_mul(signers_per_child) {
            None => {
                return Err(ReportError::TotalSignersOverflow);
            },
            Some(t) => t,
        };
        if lean.median_ns == 0 {
            return Err(ReportError::ZeroLeanVmMedian);
        }
        if lean_artifact_bytes == 0 {
            return Err(ReportError::ZeroLeanVmArtifact);
        }
        Ok(RecursiveAggregationReport {
            workload: RECURSIVE_AGGREGATION_WORKLOAD.to_owned(),
            fan_in,
            signers_per_child,
            total_signers,
            lean,
            lean_artifact_bytes,
        })
    }
}

/// The unit of an exported entry.
#[derive(Clone, Copy, Debug, PartialEq, Eq, Structural)]
pub enum ActionUnit {
    Nanoseconds,
    Ratio,
    Bytes,
}

/// The value of an exported entry: a count, or the quotient of two counts.
#[derive(Clone, Copy, Debug, PartialEq, Eq, Structural)]
pub enum ActionValue {
    Count(u64),
    Quotient(u64, u64),
}

/// One exported benchmark entry; all entries of a report share `extra`.
#[derive(Clone, Debug)]
pub struct ActionEntry {
    pub name: String,
    pub unit: ActionUnit,
    pub value: ActionValue,
    pub extra: String,
}

/// An entry as plain values: name, unit, value, extra.
pub type EntryModel = (Seq<char>, ActionUnit, ActionValue, Seq<char>);

pub open spec fn entries_view(entries: Seq<ActionEntry>) -> Seq<EntryModel> {
    entries.map_values(|e: ActionEntry| (e.name@, e.unit, e.value, e.extra@))
}

/// The run context shared by every exported entry.
pub open spec fn report_extra(r: BenchmarkReport) -> Seq<char> {
    "samples="@ + decimal_chars(r.samples as nat) + "; proof_warmup="@ + (if r.proof_warmup {
        "enabled"@
    } else {
        "disabled"@
    }) + "; lighthouse_revision="@ + r.lighthouse_revision@
}

pub open spec fn comparison_prefix(c: ComparisonReport) -> Seq<char> {
    match c.claim_count {
        None => c.workload@ + "/size-"@ + decimal_chars(c.input_size as nat),
        Some(k) => c.workload@ + "/signatures-"@ + decimal_chars(c.input_size as nat)
            + "/claims-"@ + decimal_chars(k as nat),
    }
}

pub open spec fn comparison_entries(c: ComparisonReport, extra: Seq<char>) -> Seq<EntryModel> {
    let p = comparison_prefix(c);
    seq![
        (p + "/lean/median"@, ActionUnit::Nanoseconds, ActionValue::Count(c.lean.median_ns), extra),
        (p + "/lighthouse/median"@, ActionUnit::Nanoseconds, ActionValue::Count(c.lighthouse.median_ns), extra),
        (p + "/lean-over-lighthouse"@, ActionUnit::Ratio, ActionValue::Quotient(c.lean.median_ns, c.lighthouse.median_ns), extra),
        (p + "/lean/artifact"@, ActionUnit::Bytes, ActionValue::Count(c.lean_artifact_bytes as u64), extra),
        (p + "/lighthouse/artifact"@, ActionUnit::Bytes, ActionValue::Count(c.lighthouse_artifact_bytes as u64), extra),
    ]
}

pub open spec fn recursive_prefix(r: RecursiveAggregationReport) -> Seq<char> {
    r.workload@ + "/fan-in-"@ + decimal_chars(r.fan_in as nat) + "/child-signers-"@
        + decimal_chars(r.signers_per_child as nat)
}

pub open spec fn recursive_entries(r: RecursiveAggregationReport, extra: Seq<char>) -> Seq<
    EntryModel,
> {
    let p = recursive_prefix(r);
    seq![
        (p + "/lean/median"@, ActionUnit::Nanoseconds, ActionValue::Count(r.lean.median_ns), extra),
        (p + "/lean/artifact"@, ActionUnit::Bytes, ActionValue::Count(r.lean_artifact_bytes as u64), extra),
    ]
}

pub open spec fn supplemental_entry(s: SupplementalReport, extra: Seq<char>) -> EntryModel {
    (
        s.workload@ + "/size-"@ + decimal_chars(s.input_size as nat) + "/lighthouse/median"@,
        ActionUnit::Nanoseconds,
        ActionValue::Count(s.lighthouse.median_ns),
        extra,
    )
}

pub open spec fn all_comparison_entries(cs: Seq<ComparisonReport>, extra: Seq<char>) -> Seq<
    EntryModel,
>
    decreases cs.len(),
{
    if cs.len() == 0 {
        Seq::empty()
    } else {
        all_comparison_entries(cs.drop_last(), extra) + comparison_entries(cs.last(), extra)
    }
}

pub open spec fn all_recursive_entries(rs: Seq<RecursiveAggregationReport>, extra: Seq<char>) -> Seq<
    EntryModel,
>
    decreases rs.len(),
{
    if rs.len() == 0 {
        Seq::empty()
    } else {
        all_recursive_entries(rs.drop_last(), extra) + recursive_entries(rs.last(), extra)
    }
}

pub open spec fn all_supplemental_entries(ss: Seq<SupplementalReport>, extra: Seq<char>) -> Seq<
    EntryModel,
>
    decreases ss.len(),
{
    if ss.len() == 0 {
        Seq::empty()
    } else {
        all_supplemental_entries(ss.drop_last(), extra).push(supplemental_entry(ss.last(), extra))
    }
}

/// The export of a report: five entries per comparison, two per recursive
/// aggregation and one per supplemental row, in that order.
pub open spec fn spec_action_entries(r: BenchmarkReport) -> Result<Seq<EntryModel>, ReportError> {
    if r.comparisons@.len() == 0 && r.recursive_aggregations@.len() == 0
        && r.supplemental@.len() == 0 {
        Err(ReportError::EmptyReport)
    } else {
        let extra = report_extra(r);
        Ok(
            all_comparison_entries(r.comparisons@, extra) + all_recursive_entries(
                r.recursive_aggregations@,
                extra,
            ) + all_supplemental_entries(r.supplemental@, extra),
        )
    }
}

fn joined(prefix: &String, suffix: &str) -> (s: String)
    ensures
        s@ == prefix@ + suffix@,
{
    let mut s = prefix.clone();
    s.append(suffix);
    s
}

fn push_entry(
    entries: &mut Vec<ActionEntry>,
    prefix: &String,
    suffix: &str,
    unit: ActionUnit,
    value: ActionValue,
    extra: &String,
)
    ensures
        entries_view(final(entries)@) == entries_view(old(entries)@).push(
            (prefix@ + suffix@, unit, value, extra@),
        ),
{
    let name = joined(prefix, suffix);
    let ghost before = entries@;
    entries.push(ActionEntry { name, unit, value, extra: extra.clone() });
    assert(entries_view(entries@) =~= entries_view(before).push(
        (prefix@ + suffix@, unit, value, extra@),
    ));
}

impl BenchmarkReport {
    fn extra(&self) -> (s: String)
        ensures
            s@ == report_extra(*self),
    {
        let mut s = String::new();
        s.append("samples=");
        append_decimal(&mut s, self.samples as u64);
        s.append("; proof_warmup=");
        if self.proof_warmup {
            s.append("enabled");
        } else {
            s.append("disabled");
        }
        s.append("; lighthouse_revision=");
        s.append(self.lighthouse_revision.as_str());
        s
    }

    /// Exports the report as named entries (see `spec_action_entries`).
    pub fn to_action_benchmarks(&self) -> (res: Result<Vec<ActionEntry>, ReportError>)
        ensures
            match spec_action_entries(*self) {
                Ok(es) => res matches Ok(entries) && entries_view(entries@) == es,
                Err(e) => res matches Err(x) && x == e,
            },
    {
        if self.comparisons.len() == 0 && self.recursive_aggregations.len() == 0
            && self.supplemental.len() == 0 {
            return Err(ReportError::EmptyReport);
        }
        let extra = self.extra();
        let mut entries: Vec<ActionEntry> = Vec::new();
        let ghost cs = self.comparisons@;
        let mut i: usize = 0;
        assert(cs.take(0) =~= Seq::<ComparisonReport>::empty());
        assert(entries_view(entries@) =~= Seq::<EntryModel>::empty());
        while i < self.comparisons.len()
            invariant
                cs == self.comparisons@,
                i <= cs.len(),
                extra@ == report_extra(*self),
                entries_view(entries@) == all_comparison_entries(cs.take(i as int), extra@),
            decreases cs.len() - i,
        {
            let c = &self.comparisons[i];
            let ghost before = entries_view(entries@);
            let mut prefix = c.workload.clone();
            match c.claim_count {
                None => {
                    prefix.append("/size-");
                    append_decimal(&mut prefix, c.input_size as u64);
                },
                Some(k) => {
                    prefix.append("/signatures-");
                    append_decimal(&mut prefix, c.input_size as u64);
                    prefix.append("/claims-");
                    append_decimal(&mut prefix, k as u64);
                },
            }
            assert(prefix@ == comparison_prefix(*c));
            push_entry(&mut entries, &prefix, "/lean/median", ActionUnit::Nanoseconds,
                ActionValue::Count(c.lean.median_ns), &extra);
            push_entry(&mut entries, &prefix, "/lighthouse/median", ActionUnit::Nanoseconds,
                ActionValue::Count(c.lighthouse.median_ns), &extra);
            push_entry(&mut entries, &prefix, "/lean-over-lighthouse", ActionUnit::Ratio,
                ActionValue::Quotient(c.lean.median_ns, c.lighthouse.median_ns), &extra);
            push_entry(&mut entries, &prefix, "/lean/artifact", ActionUnit::Bytes,
                ActionValue::Count(c.lean_artifact_bytes as u64), &extra);
            push_entry(&mut entries, &prefix, "/lighthouse/artifact", ActionUnit::Bytes,
                ActionValue::Count(c.lighthouse_artifact_bytes as u64), &extra);
            proof {
                assert(cs.take(i + 1).drop_last() =~= cs.take(i as int));
                assert(cs.take(i + 1).last() == *c);
                assert(entries_view(entries@) =~= before + comparison_entries(*c, extra@));
            }
            i = i + 1;
        }
        assert(cs.take(i as int) =~= cs);
        let ghost after_comparisons = entries_view(entries@);
        let ghost rs = self.recursive_aggregations@;
        let mut j: usize = 0;
        assert(rs.take(0) =~= Seq::<RecursiveAggregationReport>::empty());
        assert(after_comparisons + all_recursive_entries(rs.take(0), extra@) =~= after_comparisons);
        while j < self.recursive_aggregations.len()
            invariant
                rs == self.recursive_aggregations@,
                j <= rs.len(),
                extra@ == report_extra(*self),
                entries_view(entries@) == after_comparisons + all_recursive_entries(
                    rs.take(j as int),
                    extra@,
                ),
            decreases rs.len() - j,
        {
            let r = &self.recursive_aggregations[j];
            let ghost before = entries_view(entries@);
            let mut prefix = r.workload.clone();
            prefix.append("/fan-in-");
            append_decimal(&mut prefix, r.fan_in as u64);
            prefix.append("/child-signers-");
            append_decimal(&mut prefix, r.signers_per_child as u64);
            assert(prefix@ == recursive_prefix(*r));
            push_entry(&mut entries, &prefix, "/lean/median", ActionUnit::Nanoseconds,
                ActionValue::Count(r.lean.median_ns), &extra);
            push_entry(&mut entries, &prefix, "/lean/artifact", ActionUnit::Bytes,
                ActionValue::Count(r.lean_artifact_bytes as u64), &extra);
            proof {
                assert(rs.take(j + 1).drop_last() =~= rs.take(j as int));
                assert(rs.take(j + 1).last() == *r);
                assert(entries_view(entries@) =~= before + recursive_entries(*r, extra@));
            }
            j = j + 1;
        }
        assert(rs.take(j as int) =~= rs);
        let ghost after_recursive = entries_view(entries@);
        let ghost ss = self.supplemental@;
        let mut k: usize = 0;
        assert(ss.take(0) =~= Seq::<SupplementalReport>::empty());
        assert(after_recursive + all_supplemental_entries(ss.take(0), extra@) =~= after_recursive);
        while k < self.supplemental.len()
            invariant
                ss == self.supplemental@,
                k <= ss.len(),
                extra@ == report_extra(*self),
                entries_view(entries@) == after_recursive + all_supplemental_entries(
                    ss.take(k as int),
                    extra@,
                ),
            decreases ss.len() - k,
        {
            let s = &self.supplemental[k];
            let ghost before = entries_view(entries@);
            let mut prefix = s.workload.clone();
            prefix.append("/size-");
            append_decimal(&mut prefix, s.input_size as u64);
            push_entry(&mut entries, &prefix, "/lighthouse/median", ActionUnit::Nanoseconds,
                ActionValue::Count(s.lighthouse.median_ns), &extra);
            proof {
                assert(ss.take(k + 1).drop_last() =~= ss.take(k as int));
                assert(ss.take(k + 1).last() == *s);
                assert(entries_view(entries@) =~= before.push(supplemental_entry(*s, extra@)));
            }
            k = k + 1;
        }
        assert(ss.take(k as int) =~= ss);
        Ok(entries)
    }
}

/// The unit a duration is shown in.
#[derive(Clone, Copy, Debug, PartialEq, Eq, Structural)]
pub enum DurationUnit {
    Nanoseconds,
    Microseconds,
    Milliseconds,
    Seconds,
}

/// Below a thousand of a unit, a duration is shown in that unit.
pub open spec fn spec_duration_unit(nanoseconds: u64) -> DurationUnit {
    if nanoseconds <= 999 {
        DurationUnit::Nanoseconds
    } else if nanoseconds <= 999_999 {
        DurationUnit::Microseconds
    } else if nanoseconds <= 999_999_999 {
        DurationUnit::Milliseconds
    } else {
        DurationUnit::Seconds
    }
}

/// The unit a duration is shown in (see `spec_duration_unit`).
pub fn duration_unit(nanoseconds: u64) -> (unit: DurationUnit)
    ensures
        unit == spec_duration_unit(nanoseconds),
{
    if nanoseconds <= 999 {
        DurationUnit::Nanoseconds
    } else if nanoseconds <= 999_999 {
        DurationUnit::Microseconds
    } else if nanoseconds <= 999_999_999 {
        DurationUnit::Milliseconds
    } else {
        DurationUnit::Seconds
    }
}


proof fn lemma_comparison_entry_count(cs: Seq<ComparisonReport>, extra: Seq<char>)
    ensures
        all_comparison_entries(cs, extra).len() == 5 * cs.len(),
    decreases cs.len(),
{
    if cs.len() > 0 {
        lemma_comparison_entry_count(cs.drop_last(), extra);
    }
}

proof fn lemma_recursive_entry_count(rs: Seq<RecursiveAggregationReport>, extra: Seq<char>)
    ensures
        all_recursive_entries(rs, extra).len() == 2 * rs.len(),
    decreases rs.len(),
{
    if rs.len() > 0 {
        lemma_recursive_entry_count(rs.drop_last(), extra);
    }
}

proof fn lemma_supplemental_entry_count(ss: Seq<SupplementalReport>, extra: Seq<char>)
    ensures
        all_supplemental_entries(ss, extra).len() == ss.len(),
    decreases ss.len(),
{
    if ss.len() > 0 {
        lemma_supplemental_entry_count(ss.drop_last(), extra);
    }
}

/// A non-empty report exports five entries per comparison, two per
/// recursive aggregation and one per supplemental row, all with the same
/// run context.
pub proof fn lemma_action_entry_count(r: BenchmarkReport)
    requires
        r.comparisons@.len() + r.recursive_aggregations@.len() + r.supplemental@.len() > 0,
    ensures
        spec_action_entries(r) is Ok,
        spec_action_entries(r)->Ok_0.len() == 5 * r.comparisons@.len() + 2
            * r.recursive_aggregations@.len() + r.supplemental@.len(),
{
    let extra = report_extra(r);
    lemma_comparison_entry_count(r.comparisons@, extra);
    lemma_recursive_entry_count(r.recursive_aggregations@, extra);
    lemma_supplemental_entry_count(r.supplemental@, extra);
}


proof fn lemma_comparison_entry_at(cs: Seq<ComparisonReport>, extra: Seq<char>, i: int, j: int)
    requires
        0 <= i < cs.len(),
        0 <= j < 5,
    ensures
        all_comparison_entries(cs, extra).len() == 5 * cs.len(),
        all_comparison_entries(cs, extra)[5 * i + j] == comparison_entries(cs[i], extra)[j],
    decreases cs.len(),
{
    lemma_comparison_entry_count(cs, extra);
    lemma_comparison_entry_count(cs.drop_last(), extra);
    if i < cs.len() - 1 {
        lemma_comparison_entry_at(cs.drop_last(), extra, i, j);
    }
}

/// In the export of a report, comparison `i` gives entries `5 * i` to
/// `5 * i + 4`: the Lean median and the Lighthouse median in nanoseconds,
/// the Lean median over the Lighthouse median as a ratio, then the Lean and
/// the Lighthouse artifact sizes in bytes, each named after the comparison
/// and carrying the report's run context, with or without a claim count.
pub proof fn lemma_comparison_export(r: BenchmarkReport, i: int)
    requires
        0 <= i < r.comparisons@.len(),
    ensures
        spec_action_entries(r) is Ok,
        ({
            let es = spec_action_entries(r)->Ok_0;
            let c = r.comparisons@[i];
            let p = comparison_prefix(c);
            let extra = report_extra(r);
            &&& es[5 * i] == (p + "/lean/median"@, ActionUnit::Nanoseconds, ActionValue::Count(
                c.lean.median_ns,
            ), extra)
            &&& es[5 * i + 1] == (p + "/lighthouse/median"@, ActionUnit::Nanoseconds,
                ActionValue::Count(c.lighthouse.median_ns), extra)
            &&& es[5 * i + 2] == (p + "/lean-over-lighthouse"@, ActionUnit::Ratio,
                ActionValue::Quotient(c.lean.median_ns, c.lighthouse.median_ns), extra)
            &&& es[5 * i + 3] == (p + "/lean/artifact"@, ActionUnit::Bytes, ActionValue::Count(
                c.lean_artifact_bytes as u64,
            ), extra)
            &&& es[5 * i + 4] == (p + "/lighthouse/artifact"@, ActionUnit::Bytes,
                ActionValue::Count(c.lighthouse_artifact_bytes as u64), extra)
        }),
{
    let extra = report_extra(r);
    let cs = r.comparisons@;
    let a = all_comparison_entries(cs, extra);
    let b = all_recursive_entries(r.recursive_aggregations@, extra);
    let c = all_supplemental_entries(r.supplemental@, extra);
    lemma_comparison_entry_at(cs, extra, i, 0);
    lemma_comparison_entry_at(cs, extra, i, 1);
    lemma_comparison_entry_at(cs, extra, i, 2);
    lemma_comparison_entry_at(cs, extra, i, 3);
    lemma_comparison_entry_at(cs, extra, i, 4);
    assert(spec_action_entries(r)->Ok_0 == a + b + c);
    assert((a + b + c)[5 * i] == a[5 * i + 0]);
    assert((a + b + c)[5 * i + 1] == a[5 * i + 1]);
    assert((a + b + c)[5 * i + 2] == a[5 * i + 2]);
    assert((a + b + c)[5 * i + 3] == a[5 * i + 3]);
    assert((a + b + c)[5 * i + 4] == a[5 * i + 4]);
}

proof fn lemma_recursive_entry_at(
    rs: Seq<RecursiveAggregationReport>,
    extra: Seq<char>,
    i: int,
    j: int,
)
    requires
        0 <= i < rs.len(),
        0 <= j < 2,
    ensures
        all_recursive_entries(rs, extra)[2 * i + j] == recursive_entries(rs[i], extra)[j],
    decreases rs.len(),
{
    lemma_recursive_entry_count(rs.drop_last(), extra);
    if i < rs.len() - 1 {
        lemma_recursive_entry_at(rs.drop_last(), extra, i, j);
    }
}

proof fn lemma_supplemental_entry_at(ss: Seq<SupplementalReport>, extra: Seq<char>, i: int)
    requires
        0 <= i < ss.len(),
    ensures
        all_supplemental_entries(ss, extra)[i] == supplemental_entry(ss[i], extra),
    decreases ss.len(),
{
    lemma_supplemental_entry_count(ss.drop_last(), extra);
    if i < ss.len() - 1 {
        lemma_supplemental_entry_at(ss.drop_last(), extra, i);
    }
}

/// In the export of a report, after the five entries of each comparison,
/// recursive aggregation `i` gives two entries: its Lean median in
/// nanoseconds and its proof size in bytes, each carrying the report's run
/// context.
pub proof fn lemma_recursive_export(r: BenchmarkReport, i: int)
    requires
        0 <= i < r.recursive_aggregations@.len(),
    ensures
        spec_action_entries(r) is Ok,
        ({
            let es = spec_action_entries(r)->Ok_0;
            let a = r.recursive_aggregations@[i];
            let p = recursive_prefix(a);
            let n = 5 * r.comparisons@.len();
            let extra = report_extra(r);
            &&& es[n + 2 * i] == (p + "/lean/median"@, ActionUnit::Nanoseconds,
                ActionValue::Count(a.lean.median_ns), extra)
            &&& es[n + 2 * i + 1] == (p + "/lean/artifact"@, ActionUnit::Bytes,
                ActionValue::Count(a.lean_artifact_bytes as u64), extra)
        }),
{
    let extra = report_extra(r);
    let a = all_comparison_entries(r.comparisons@, extra);
    let b = all_recursive_entries(r.recursive_aggregations@, extra);
    let c = all_supplemental_entries(r.supplemental@, extra);
    lemma_comparison_entry_count(r.comparisons@, extra);
    lemma_recursive_entry_count(r.recursive_aggregations@, extra);
    lemma_recursive_entry_at(r.recursive_aggregations@, extra, i, 0);
    lemma_recursive_entry_at(r.recursive_aggregations@, extra, i, 1);
    let n = a.len() as int;
    assert(spec_action_entries(r)->Ok_0 == a + b + c);
    assert((a + b)[n + 2 * i] == b[2 * i + 0]);
    assert((a + b)[n + 2 * i + 1] == b[2 * i + 1]);
    assert((a + b + c)[n + 2 * i] == (a + b)[n + 2 * i]);
    assert((a + b + c)[n + 2 * i + 1] == (a + b)[n + 2 * i + 1]);
}

/// In the export of a report, the entries of the supplemental rows come
/// last, one per row in order: its Lighthouse median in nanoseconds, named
/// after its workload and size, with the report's run context.
pub proof fn lemma_supplemental_export(r: BenchmarkReport, i: int)
    requires
        0 <= i < r.supplemental@.len(),
    ensures
        spec_action_entries(r) is Ok,
        ({
            let es = spec_action_entries(r)->Ok_0;
            let s = r.supplemental@[i];
            let n = 5 * r.comparisons@.len() + 2 * r.recursive_aggregations@.len();
            es[n + i] == (s.workload@ + "/size-"@ + decimal_chars(s.input_size as nat)
                + "/lighthouse/median"@, ActionUnit::Nanoseconds, ActionValue::Count(
                s.lighthouse.median_ns,
            ), report_extra(r))
        }),
{
    let extra = report_extra(r);
    let a = all_comparison_entries(r.comparisons@, extra);
    let b = all_recursive_entries(r.recursive_aggregations@, extra);
    let c = all_supplemental_entries(r.supplemental@, extra);
    lemma_comparison_entry_count(r.comparisons@, extra);
    lemma_recursive_entry_count(r.recursive_aggregations@, extra);
    lemma_supplemental_entry_count(r.supplemental@, extra);
    lemma_supplemental_entry_at(r.supplemental@, extra, i);
    let n = (a + b).len() as int;
    assert(spec_action_entries(r)->Ok_0 == (a + b) + c);
    assert(((a + b) + c)[n + i] == c[i]);
}

/// The text cells of a table row that are not measurements: the workload
/// and the input it was measured on.
#[derive(Clone, Debug)]
pub struct RowLabels {
    pub workload: String,
    pub input: String,
}

/// Row labels as plain values: workload, input.
pub type LabelModel = (Seq<char>, Seq<char>);

pub open spec fn labels_view(labels: Seq<RowLabels>) -> Seq<LabelModel> {
    labels.map_values(|l: RowLabels| (l.workload@, l.input@))
}

/// A comparison row: its workload, and its size, or its signatures and
/// claims for a mixed-claim row.
pub open spec fn comparison_label(c: ComparisonReport) -> LabelModel {
    (
        c.workload@,
        match c.claim_count {
            None => decimal_chars(c.input_size as nat),
            Some(k) => decimal_chars(c.input_size as nat) + " signatures / "@ + decimal_chars(
                k as nat,
            ) + " claims"@,
        },
    )
}

/// A supplemental row, marked as Lighthouse-only.
pub open spec fn supplemental_label(s: SupplementalReport) -> LabelModel {
    (s.workload@ + " (Lighthouse-only)"@, decimal_chars(s.input_size as nat))
}

/// A recursive aggregation row, marked as LeanVM-only, with its proofs,
/// signers per proof and total signers.
pub open spec fn recursive_label(r: RecursiveAggregationReport) -> LabelModel {
    (
        r.workload@ + " (LeanVM-only)"@,
        decimal_chars(r.fan_in as nat) + " proofs x "@ + decimal_chars(r.signers_per_child as nat)
            + " signers ("@ + decimal_chars(r.total_signers as nat) + " total)"@,
    )
}

/// The labels of the table's rows: the comparisons, then the supplemental
/// rows, then the recursive aggregations, each in report order.
pub open spec fn table_labels(r: BenchmarkReport) -> Seq<LabelModel> {
    r.comparisons@.map_values(|c: ComparisonReport| comparison_label(c))
        + r.supplemental@.map_values(|s: SupplementalReport| supplemental_label(s))
        + r.recursive_aggregations@.map_values(|x: RecursiveAggregationReport| recursive_label(x))
}

fn decimal_string(n: usize) -> (s: String)
    ensures
        s@ == decimal_chars(n as nat),
{
    let mut s = String::new();
    append_decimal(&mut s, n as u64);
    assert(s@ =~= decimal_chars(n as nat));
    s
}

impl BenchmarkReport {
    /// The labels of the table's rows (see `table_labels`); the measurement
    /// cells are formatted beside them.
    pub fn table_row_labels(&self) -> (labels: Vec<RowLabels>)
        ensures
            labels_view(labels@) == table_labels(*self),
    {
        let mut labels: Vec<RowLabels> = Vec::new();
        let ghost cl = |c: ComparisonReport| comparison_label(c);
        let ghost sl = |s: SupplementalReport| supplemental_label(s);
        let ghost rl = |x: RecursiveAggregationReport| recursive_label(x);
        let mut i: usize = 0;
        while i < self.comparisons.len()
            invariant
                i <= self.comparisons@.len(),
                cl == (|c: ComparisonReport| comparison_label(c)),
                labels_view(labels@) =~= self.comparisons@.take(i as int).map_values(cl),
            decreases self.comparisons@.len() - i,
        {
            let c = &self.comparisons[i];
            let input = match c.claim_count {
                None => decimal_string(c.input_size),
                Some(k) => {
                    let mut t = decimal_string(c.input_size);
                    t.append(" signatures / ");
                    let claims = decimal_string(k);
                    t.append(claims.as_str());
                    t.append(" claims");
                    t
                },
            };
            let ghost before = labels_view(labels@);
            labels.push(RowLabels { workload: c.workload.clone(), input });
            assert(labels_view(labels@) =~= before.push(comparison_label(*c)));
            assert(self.comparisons@.take(i + 1) =~= self.comparisons@.take(i as int).push(*c));
            assert(self.comparisons@.take(i + 1).map_values(cl) =~= self.comparisons@.take(
                i as int,
            ).map_values(cl).push(comparison_label(*c)));
            i = i + 1;
        }
        assert(self.comparisons@.take(i as int) =~= self.comparisons@);
        let ghost after_comparisons = labels_view(labels@);
        let mut j: usize = 0;
        while j < self.supplemental.len()
            invariant
                j <= self.supplemental@.len(),
                cl == (|c: ComparisonReport| comparison_label(c)),
                sl == (|s: SupplementalReport| supplemental_label(s)),
                after_comparisons == self.comparisons@.map_values(cl),
                labels_view(labels@) =~= after_comparisons + self.supplemental@.take(
                    j as int,
                ).map_values(sl),
            decreases self.supplemental@.len() - j,
        {
            let s = &self.supplemental[j];
            let mut workload = s.workload.clone();
            workload.append(" (Lighthouse-only)");
            let input = decimal_string(s.input_size);
            let ghost before = labels_view(labels@);
            labels.push(RowLabels { workload, input });
            assert(labels_view(labels@) =~= before.push(supplemental_label(*s)));
            assert(self.supplemental@.take(j + 1) =~= self.supplemental@.take(j as int).push(*s));
            assert(self.supplemental@.take(j + 1).map_values(sl) =~= self.supplemental@.take(
                j as int,
            ).map_values(sl).push(supplemental_label(*s)));
            j = j + 1;
        }
        assert(self.supplemental@.take(j as int) =~= self.supplemental@);
        let ghost after_supplemental = labels_view(labels@);
        let mut k: usize = 0;
        while k < self.recursive_aggregations.len()
            invariant
                k <= self.recursive_aggregations@.len(),
                cl == (|c: ComparisonReport| comparison_label(c)),
                sl == (|s: SupplementalReport| supplemental_label(s)),
                rl == (|x: RecursiveAggregationReport| recursive_label(x)),
                after_supplemental == self.comparisons@.map_values(cl)
                    + self.supplemental@.map_values(sl),
                labels_view(labels@) =~= after_supplemental + self.recursive_aggregations@.take(
                    k as int,
                ).map_values(rl),
            decreases self.recursive_aggregations@.len() - k,
        {
            let r = &self.recursive_aggregations[k];
            let mut workload = r.workload.clone();
            workload.append(" (LeanVM-only)");
            let mut input = decimal_string(r.fan_in);
            input.append(" proofs x ");
            let signers = decimal_string(r.signers_per_child);
            input.append(signers.as_str());
            input.append(" signers (");
            let total = decimal_string(r.total_signers);
            input.append(total.as_str());
            input.append(" total)");
            let ghost before = labels_view(labels@);
            labels.push(RowLabels { workload, input });
            assert(labels_view(labels@) =~= before.push(recursive_label(*r)));
            assert(self.recursive_aggregations@.take(k + 1) =~= self.recursive_aggregations@.take(
                k as int,
            ).push(*r));
            assert(self.recursive_aggregations@.take(k + 1).map_values(rl)
                =~= self.recursive_aggregations@.take(k as int).map_values(rl).push(
                recursive_label(*r),
            ));
            k = k + 1;
        }
        assert(self.recursive_aggregations@.take(k as int) =~= self.recursive_aggregations@);
        labels
    }
}

} // verus!

use lean_multisig_bindings::limits::{
    KEY_CREATION_SLOTS, LIGHTHOUSE_REVISION, MAX_SAME_CLAIM_SIGNERS, MIXED_CLAIM_COUNTS,
    MIXED_CLAIM_SIGNATURES, RECURSIVE_AGGREGATION_WORKLOAD, RECURSIVE_CHILD_SIGNERS,
};
use lean_multisig_bindings::report::{
    duration_unit, ActionUnit, ActionValue, BenchmarkReport, ComparisonReport, DurationUnit,
    RowLabels,
    RecursiveAggregationReport, ReportError, SupplementalReport,
};
use lean_multisig_bindings::summary::{sorted_copy, SampleSummary, SummaryError};

const MS: u128 = 1_000_000;
const US: u128 = 1_000;

fn summary(durations_ns: &[u128]) -> SampleSummary {
    SampleSummary::from_durations(durations_ns).unwrap()
}

fn comparison(workload: &str, size: usize, lean_ns: u128, lighthouse_ns: u128) -> ComparisonReport {
    ComparisonReport::new(
        workload.to_owned(),
        size,
        summary(&[lean_ns]),
        summary(&[lighthouse_ns]),
        1_024,
        96,
    )
    .unwrap()
}

#[test]
fn summary_reports_samples_median_and_throughput() {
    let summary = summary(&[30 * MS, 10 * MS, 20 * MS]);

    assert_eq!(summary.samples_ns, vec![30_000_000, 10_000_000, 20_000_000]);
    assert_eq!(summary.median_ns, 20_000_000);
}

#[test]
fn summary_rejects_empty_zero_and_oversized_durations() {
    assert!(SampleSummary::from_durations(&[]).is_err());
    assert!(SampleSummary::from_durations(&[0]).is_err());
    assert!(SampleSummary::from_durations(&[u128::MAX]).is_err());
}

#[test]
fn summary_errors_name_their_cause() {
    assert!(matches!(
        SampleSummary::from_durations(&[]),
        Err(SummaryError::NoSamples)
    ));
    assert!(matches!(
        SampleSummary::from_durations(&[5, 0]),
        Err(SummaryError::ZeroSample)
    ));
    assert!(matches!(
        SampleSummary::from_durations(&[u64::MAX as u128 + 1]),
        Err(SummaryError::DurationOutOfRange)
    ));
}

#[test]
fn summary_median_of_an_even_count_rounds_down_without_overflow() {
    assert_eq!(summary(&[1, 2]).median_ns, 1);
    assert_eq!(summary(&[40, 10, 30, 20]).median_ns, 25);
    let max = u64::MAX as u128;
    assert_eq!(summary(&[max, max]).median_ns, u64::MAX);
    assert_eq!(summary(&[max, max - 2]).median_ns, u64::MAX - 1);
}

#[test]
fn summary_median_ignores_sample_order() {
    let forward = summary(&[3, 9, 1, 7, 5]);
    let backward = summary(&[5, 7, 1, 9, 3]);
    assert_eq!(forward.median_ns, 5);
    assert_eq!(forward.median_ns, backward.median_ns);
}

#[test]
fn sorted_copy_orders_ascending() {
    assert_eq!(sorted_copy(&vec![3, 1, 2, 1]), vec![1, 1, 2, 3]);
}

#[test]
fn comparison_report_accepts_the_expanded_same_claim_limit() {
    let summary = summary(&[MS]);

    assert!(ComparisonReport::new(
        "same_claim_aggregate".to_owned(),
        MAX_SAME_CLAIM_SIGNERS,
        summary.clone(),
        summary,
        1,
        1,
    )
    .is_ok());
}

#[test]
fn comparison_report_accepts_only_the_realistic_key_creation_size() {
    let summary = summary(&[MS]);

    assert!(ComparisonReport::new(
        "key_creation".to_owned(),
        KEY_CREATION_SLOTS,
        summary.clone(),
        summary.clone(),
        1,
        1,
    )
    .is_ok());
    assert!(
        ComparisonReport::new("key_creation".to_owned(), 16, summary.clone(), summary, 1, 1)
            .is_err()
    );
}

#[test]
fn comparison_report_rejects_zero_lighthouse_median() {
    let lean = summary(&[30 * MS]);
    let lighthouse = SampleSummary {
        samples_ns: vec![0],
        median_ns: 0,
    };

    assert!(ComparisonReport::new(
        "same_claim_aggregate".to_owned(),
        8,
        lean,
        lighthouse,
        1_024,
        96
    )
    .is_err());
}

#[test]
fn comparison_report_rejects_zero_sizes() {
    let summary = summary(&[MS]);
    let new = |size: usize, lean_bytes: usize, lighthouse_bytes: usize| {
        ComparisonReport::new(
            "same_claim_aggregate".to_owned(),
            size,
            summary.clone(),
            summary.clone(),
            lean_bytes,
            lighthouse_bytes,
        )
    };

    assert!(new(0, 1, 1).is_err());
    assert!(new(MAX_SAME_CLAIM_SIGNERS + 1, 1, 1).is_err());
    assert!(new(1, 0, 1).is_err());
    assert!(new(1, 1, 0).is_err());
}

#[test]
fn comparison_report_errors_come_in_order() {
    let summary = summary(&[MS]);
    let zero = SampleSummary {
        samples_ns: vec![0],
        median_ns: 0,
    };
    let new = |workload: &str, size: usize, lean: &SampleSummary, lighthouse: &SampleSummary| {
        ComparisonReport::new(workload.to_owned(), size, lean.clone(), lighthouse.clone(), 1, 1)
    };

    assert_eq!(
        new("", 0, &zero, &zero).unwrap_err(),
        ReportError::EmptyWorkload
    );
    assert_eq!(
        new("w", 0, &zero, &zero).unwrap_err(),
        ReportError::ZeroInputSize
    );
    assert_eq!(
        new("w", 513, &zero, &zero).unwrap_err(),
        ReportError::InputSizeTooLarge(513)
    );
    assert_eq!(
        new("key_creation", 8, &zero, &zero).unwrap_err(),
        ReportError::KeyCreationSlots
    );
    assert_eq!(
        new("w", 8, &zero, &zero).unwrap_err(),
        ReportError::ZeroLeanMedian
    );
    assert_eq!(
        new("w", 8, &summary, &zero).unwrap_err(),
        ReportError::ZeroBaselineMedian
    );
    assert_eq!(
        ReportError::InputSizeTooLarge(513).message(),
        "input size 513 exceeds maximum 512"
    );
    assert_eq!(
        ReportError::ZeroBaselineMedian.message(),
        "baseline median must be greater than zero"
    );
}

#[test]
fn mixed_claim_rows_record_a_dividing_claim_count() {
    let row = comparison("mixed_claim_aggregate", MIXED_CLAIM_SIGNATURES, 30 * MS, 10 * MS);
    for claims in MIXED_CLAIM_COUNTS {
        let with = row.clone().with_claim_count(claims).unwrap();
        assert_eq!(with.claim_count, Some(claims));
    }
    assert_eq!(
        row.clone().with_claim_count(1).unwrap_err(),
        ReportError::ClaimCountTooSmall
    );
    assert_eq!(
        row.clone().with_claim_count(17).unwrap_err(),
        ReportError::ClaimCountTooLarge(17)
    );
    assert_eq!(
        row.with_claim_count(3).unwrap_err(),
        ReportError::ClaimCountNotDivisor
    );
    let small = comparison("mixed_claim_verify", 4, MS, MS);
    assert_eq!(
        small.with_claim_count(8).unwrap_err(),
        ReportError::ClaimCountExceedsSignatures
    );
    let same = comparison("same_claim_aggregate", 8, MS, MS);
    assert_eq!(
        same.with_claim_count(2).unwrap_err(),
        ReportError::ClaimCountWorkload
    );
}

#[test]
fn recursive_rows_need_a_supported_fan_in_of_full_children() {
    let lean = summary(&[MS]);
    let row = RecursiveAggregationReport::new(4, RECURSIVE_CHILD_SIGNERS, lean.clone(), 2_048)
        .unwrap();
    assert_eq!(row.workload, RECURSIVE_AGGREGATION_WORKLOAD);
    assert_eq!(row.total_signers, 4 * RECURSIVE_CHILD_SIGNERS);

    assert_eq!(
        RecursiveAggregationReport::new(1, RECURSIVE_CHILD_SIGNERS, lean.clone(), 1).unwrap_err(),
        ReportError::FanInTooSmall
    );
    assert_eq!(
        RecursiveAggregationReport::new(17, RECURSIVE_CHILD_SIGNERS, lean.clone(), 1).unwrap_err(),
        ReportError::FanInTooLarge(17)
    );
    assert_eq!(
        RecursiveAggregationReport::new(2, 511, lean.clone(), 1).unwrap_err(),
        ReportError::ChildSignerCount
    );
    assert_eq!(
        RecursiveAggregationReport::new(2, RECURSIVE_CHILD_SIGNERS, lean, 0).unwrap_err(),
        ReportError::ZeroLeanVmArtifact
    );
}

#[test]
fn action_benchmarks_include_exact_paired_and_supplemental_entries() {
    let report = BenchmarkReport {
        lighthouse_revision: LIGHTHOUSE_REVISION.to_owned(),
        samples: 3,
        proof_warmup: true,
        comparisons: vec![comparison("same_claim_aggregate", 8, 30 * MS, 10 * MS)],
        recursive_aggregations: vec![],
        supplemental: vec![SupplementalReport {
            workload: "lighthouse_signature_sets_verify".to_owned(),
            input_size: 8,
            lighthouse: summary(&[10 * MS]),
        }],
    };

    let entries = report.to_action_benchmarks().unwrap();
    let extra =
        format!("samples=3; proof_warmup=enabled; lighthouse_revision={LIGHTHOUSE_REVISION}");
    let expected = vec![
        (
            "same_claim_aggregate/size-8/lean/median",
            ActionUnit::Nanoseconds,
            ActionValue::Count(30_000_000),
        ),
        (
            "same_claim_aggregate/size-8/lighthouse/median",
            ActionUnit::Nanoseconds,
            ActionValue::Count(10_000_000),
        ),
        (
            "same_claim_aggregate/size-8/lean-over-lighthouse",
            ActionUnit::Ratio,
            ActionValue::Quotient(30_000_000, 10_000_000),
        ),
        (
            "same_claim_aggregate/size-8/lean/artifact",
            ActionUnit::Bytes,
            ActionValue::Count(1_024),
        ),
        (
            "same_claim_aggregate/size-8/lighthouse/artifact",
            ActionUnit::Bytes,
            ActionValue::Count(96),
        ),
        (
            "lighthouse_signature_sets_verify/size-8/lighthouse/median",
            ActionUnit::Nanoseconds,
            ActionValue::Count(10_000_000),
        ),
    ];

    assert_eq!(entries.len(), expected.len());
    for (entry, (name, unit, value)) in entries.iter().zip(expected) {
        assert_eq!(entry.name, name);
        assert_eq!(entry.unit, unit);
        assert_eq!(entry.value, value);
        assert_eq!(entry.extra, extra);
    }
}

#[test]
fn action_benchmark_context_records_disabled_proof_warmup() {
    let report = BenchmarkReport {
        lighthouse_revision: "revision".to_owned(),
        samples: 1,
        proof_warmup: false,
        comparisons: vec![],
        recursive_aggregations: vec![],
        supplemental: vec![SupplementalReport {
            workload: "lighthouse_signature_sets_verify".to_owned(),
            input_size: 1,
            lighthouse: summary(&[500 * US]),
        }],
    };

    let entries = report.to_action_benchmarks().unwrap();

    assert_eq!(
        entries[0].extra,
        "samples=1; proof_warmup=disabled; lighthouse_revision=revision"
    );
}

#[test]
fn action_benchmarks_reject_an_empty_report() {
    let report = BenchmarkReport {
        lighthouse_revision: LIGHTHOUSE_REVISION.to_owned(),
        samples: 3,
        proof_warmup: true,
        comparisons: vec![],
        recursive_aggregations: vec![],
        supplemental: vec![],
    };

    assert_eq!(
        report.to_action_benchmarks().unwrap_err().message(),
        "cannot export an empty benchmark report"
    );
}

#[test]
fn action_benchmarks_name_mixed_and_recursive_rows() {
    let mixed = comparison("mixed_claim_aggregate", 512, 2 * MS, MS)
        .with_claim_count(8)
        .unwrap();
    let recursive =
        RecursiveAggregationReport::new(2, RECURSIVE_CHILD_SIGNERS, summary(&[7 * MS]), 4_096)
            .unwrap();
    let report = BenchmarkReport {
        lighthouse_revision: "r".to_owned(),
        samples: 12,
        proof_warmup: false,
        comparisons: vec![mixed],
        recursive_aggregations: vec![recursive],
        supplemental: vec![],
    };

    let entries = report.to_action_benchmarks().unwrap();
    assert_eq!(entries.len(), 7);
    assert_eq!(
        entries[0].name,
        "mixed_claim_aggregate/signatures-512/claims-8/lean/median"
    );
    assert_eq!(
        entries[5].name,
        "recursive_same_claim_aggregate/fan-in-2/child-signers-512/lean/median"
    );
    assert_eq!(entries[5].value, ActionValue::Count(7_000_000));
    assert_eq!(
        entries[6].name,
        "recursive_same_claim_aggregate/fan-in-2/child-signers-512/lean/artifact"
    );
    assert_eq!(entries[6].unit, ActionUnit::Bytes);
    assert_eq!(entries[6].value, ActionValue::Count(4_096));
    assert_eq!(
        entries[6].extra,
        "samples=12; proof_warmup=disabled; lighthouse_revision=r"
    );
}

#[test]
fn summary_ratio_uses_integer_medians() {
    let lean = summary(&[30 * MS]);
    let lighthouse = summary(&[10 * MS]);

    assert_eq!(lean.median_ns, 3 * lighthouse.median_ns);
}

#[test]
fn comparison_report_calculates_ratio_from_medians() {
    let report = comparison("same_claim_aggregate", 8, 30 * MS, 10 * MS);
    let benchmark = BenchmarkReport {
        lighthouse_revision: "revision".to_owned(),
        samples: 1,
        proof_warmup: false,
        comparisons: vec![report],
        recursive_aggregations: vec![],
        supplemental: vec![],
    };

    let entries = benchmark.to_action_benchmarks().unwrap();
    assert_eq!(
        entries[2].value,
        ActionValue::Quotient(30_000_000, 10_000_000)
    );
}

#[test]
fn durations_are_shown_below_a_thousand_of_their_unit() {
    assert_eq!(duration_unit(0), DurationUnit::Nanoseconds);
    assert_eq!(duration_unit(999), DurationUnit::Nanoseconds);
    assert_eq!(duration_unit(1_000), DurationUnit::Microseconds);
    assert_eq!(duration_unit(500_000), DurationUnit::Microseconds);
    assert_eq!(duration_unit(2_000_000), DurationUnit::Milliseconds);
    assert_eq!(duration_unit(999_999_999), DurationUnit::Milliseconds);
    assert_eq!(duration_unit(1_000_000_000), DurationUnit::Seconds);
}

fn label_pairs(labels: &[RowLabels]) -> Vec<(String, String)> {
    labels
        .iter()
        .map(|label| (label.workload.clone(), label.input.clone()))
        .collect()
}

#[test]
fn table_visibly_labels_supplemental_rows_as_lighthouse_only() {
    let report = BenchmarkReport {
        lighthouse_revision: "revision".to_owned(),
        samples: 1,
        proof_warmup: false,
        comparisons: vec![],
        recursive_aggregations: vec![],
        supplemental: vec![SupplementalReport {
            workload: "lighthouse_signature_sets_verify".to_owned(),
            input_size: 8,
            lighthouse: summary(&[500 * US]),
        }],
    };

    assert_eq!(
        label_pairs(&report.table_row_labels()),
        vec![(
            "lighthouse_signature_sets_verify (Lighthouse-only)".to_owned(),
            "8".to_owned()
        )]
    );
}

#[test]
fn table_rows_come_in_report_order_with_their_inputs() {
    let mixed = comparison("mixed_claim_aggregate", 512, 2 * MS, MS)
        .with_claim_count(8)
        .unwrap();
    let plain = comparison("same_claim_aggregate", 8, 2 * MS, MS);
    let recursive =
        RecursiveAggregationReport::new(2, RECURSIVE_CHILD_SIGNERS, summary(&[7 * MS]), 4_096)
            .unwrap();
    let report = BenchmarkReport {
        lighthouse_revision: "r".to_owned(),
        samples: 3,
        proof_warmup: true,
        comparisons: vec![plain, mixed],
        recursive_aggregations: vec![recursive],
        supplemental: vec![SupplementalReport {
            workload: "verify_signature_sets".to_owned(),
            input_size: 16,
            lighthouse: summary(&[MS]),
        }],
    };

    assert_eq!(
        label_pairs(&report.table_row_labels()),
        vec![
            ("same_claim_aggregate".to_owned(), "8".to_owned()),
            (
                "mixed_claim_aggregate".to_owned(),
                "512 signatures / 8 claims".to_owned()
            ),
            (
                "verify_signature_sets (Lighthouse-only)".to_owned(),
                "16".to_owned()
            ),
            (
                "recursive_same_claim_aggregate (LeanVM-only)".to_owned(),
                "2 proofs x 512 signers (1024 total)".to_owned()
            ),
        ]
    );
}

#[test]
fn summary_errors_have_their_messages() {
    assert_eq!(
        SummaryError::NoSamples.message(),
        "at least one sample is required"
    );
    assert_eq!(
        SummaryError::DurationOutOfRange.message(),
        "sample duration exceeds the supported nanosecond range"
    );
}

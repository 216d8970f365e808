use lean_multisig_bindings::config::{CliOption, ConfigError, RunConfig, SizeListError};
use lean_multisig_bindings::paths::{
    ensure_distinct_output_paths, lexically_normalize_absolute, output_paths_collide, render_path,
    PathIdentity,
};

const WORKING_DIRECTORY: &[u8] = b"/work/lean-multisig";

fn arguments(list: &[&str]) -> Vec<Vec<u8>> {
    list.iter().map(|argument| argument.as_bytes().to_vec()).collect()
}

/// Parses as the runner does for report paths that do not exist yet.
fn parse(list: &[&str]) -> Result<RunConfig, ConfigError<Vec<u8>>> {
    RunConfig::parse_from(&arguments(list), Some(WORKING_DIRECTORY), PathIdentity::NotFound)
}

fn parse_with_identity(
    list: &[&str],
    identity: PathIdentity,
) -> Result<RunConfig, ConfigError<Vec<u8>>> {
    RunConfig::parse_from(&arguments(list), Some(WORKING_DIRECTORY), identity)
}

fn message(result: Result<RunConfig, ConfigError<Vec<u8>>>) -> String {
    match result {
        Ok(_) => panic!("the arguments must be rejected"),
        Err(error) => error.message(),
    }
}

#[test]
fn config_defaults_to_practical_sizes_and_three_samples() {
    let config = parse(&["slow-comparison"]).unwrap();

    assert_eq!(config.samples, 3);
    assert_eq!(config.same_sizes, vec![1, 8, 16]);
    assert_eq!(config.distinct_sizes, vec![1, 8, 16]);
    assert!(!config.warmup_proofs);
}

#[test]
fn config_accepts_samples_sizes_and_json_path() {
    let config = parse(&[
        "slow-comparison",
        "--samples",
        "2",
        "--sizes",
        "1,8",
        "--json",
        "/tmp/report.json",
        "--warmup-proofs",
    ])
    .unwrap();

    assert_eq!(config.samples, 2);
    assert_eq!(config.same_sizes, vec![1, 8]);
    assert_eq!(config.distinct_sizes, vec![1, 8]);
    assert_eq!(config.json_path.unwrap(), b"/tmp/report.json".to_vec());
    assert!(config.action_json_path.is_none());
    assert!(config.warmup_proofs);
}

#[test]
fn config_accepts_action_json_path() {
    let config = parse(&["slow-comparison", "--action-json", "/tmp/action-report.json"]).unwrap();

    assert_eq!(
        config.action_json_path.unwrap(),
        b"/tmp/action-report.json".to_vec()
    );
}

#[test]
fn config_rejects_repeated_missing_and_empty_action_json_paths() {
    for list in [
        vec![
            "slow-comparison",
            "--action-json",
            "/tmp/one.json",
            "--action-json",
            "/tmp/two.json",
        ],
        vec!["slow-comparison", "--action-json"],
        vec!["slow-comparison", "--action-json", ""],
    ] {
        assert!(parse(&list).is_err());
    }
}

#[test]
fn config_rejects_colliding_full_and_action_json_paths() {
    let error = message(parse(&[
        "slow-comparison",
        "--json",
        "/tmp/report.json",
        "--action-json",
        "/tmp/report.json",
    ]));

    assert_eq!(error, "--json and --action-json must write to different paths");
}

#[test]
fn config_rejects_lexically_equivalent_output_paths() {
    for (full, action) in [
        ("/dev/null", "/dev/../dev/null"),
        ("target/report.json", "target/../target/report.json"),
    ] {
        let error = message(parse(&["slow-comparison", "--json", full, "--action-json", action]));

        assert_eq!(error, "--json and --action-json must write to different paths");
    }
}

#[test]
fn config_accepts_distinct_nonexistent_output_paths() {
    let config = parse(&[
        "slow-comparison",
        "--json",
        "reports/full.json",
        "--action-json",
        "reports/action.json",
    ])
    .unwrap();

    assert_eq!(config.json_path.unwrap(), b"reports/full.json".to_vec());
    assert_eq!(config.action_json_path.unwrap(), b"reports/action.json".to_vec());
}

/// The file system reports that the two (lexically different) paths name
/// one file, as it does for a symbolic link to the other path.
#[test]
fn config_rejects_existing_symlink_output_aliases() {
    let result = parse_with_identity(
        &[
            "slow-comparison",
            "--json",
            "/tmp/symlink/full.json",
            "--action-json",
            "/tmp/symlink/action.json",
        ],
        PathIdentity::SameFile,
    );

    assert_eq!(
        message(result),
        "--json and --action-json must write to different paths"
    );
}

/// The file system reports that the two paths name one file, as it does
/// for a hard link.
#[test]
fn config_rejects_existing_hard_link_output_aliases() {
    let result = parse_with_identity(
        &[
            "slow-comparison",
            "--json",
            "/tmp/hard-link/full.json",
            "--action-json",
            "/tmp/hard-link/action.json",
        ],
        PathIdentity::SameFile,
    );

    assert_eq!(
        message(result),
        "--json and --action-json must write to different paths"
    );
}

#[test]
fn config_accepts_independent_same_and_distinct_sizes() {
    let config = parse(&[
        "slow-comparison",
        "--same-sizes",
        "32,64,128,256,512",
        "--distinct-sizes",
        "1,8,16",
    ])
    .unwrap();

    assert_eq!(config.same_sizes, vec![32, 64, 128, 256, 512]);
    assert_eq!(config.distinct_sizes, vec![1, 8, 16]);
}

#[test]
fn config_defaults_the_size_axis_that_is_not_overridden() {
    let same_only = parse(&["slow-comparison", "--same-sizes", "32,512"]).unwrap();
    assert_eq!(same_only.same_sizes, vec![32, 512]);
    assert_eq!(same_only.distinct_sizes, vec![1, 8, 16]);

    let distinct_only = parse(&["slow-comparison", "--distinct-sizes", "1,8"]).unwrap();
    assert_eq!(distinct_only.same_sizes, vec![1, 8, 16]);
    assert_eq!(distinct_only.distinct_sizes, vec![1, 8]);
}

#[test]
fn config_rejects_sizes_shorthand_with_specific_size_options() {
    let same_error = message(parse(&[
        "slow-comparison",
        "--sizes",
        "1,8",
        "--same-sizes",
        "32,64",
    ]));
    assert_eq!(same_error, "--sizes cannot be combined with --same-sizes");

    let distinct_error = message(parse(&[
        "slow-comparison",
        "--distinct-sizes",
        "1,8",
        "--sizes",
        "1,8",
    ]));
    assert_eq!(
        distinct_error,
        "--sizes cannot be combined with --distinct-sizes"
    );
}

#[test]
fn config_reports_the_exact_independent_size_limits() {
    let same_error = message(parse(&["slow-comparison", "--same-sizes", "513"]));
    assert_eq!(same_error, "--same-sizes entry 513 exceeds maximum 512");

    let distinct_error = message(parse(&["slow-comparison", "--distinct-sizes", "17"]));
    assert_eq!(distinct_error, "--distinct-sizes entry 17 exceeds maximum 16");
}

#[test]
fn config_rejects_zero_samples_and_out_of_range_sizes() {
    assert!(parse(&["slow-comparison", "--samples", "0"]).is_err());
    assert!(parse(&["slow-comparison", "--sizes", "0"]).is_err());
    assert!(parse(&["slow-comparison", "--sizes", "17"]).is_err());
}

#[test]
fn config_rejects_unknown_repeated_and_missing_options() {
    for list in [
        vec!["slow-comparison", "--unknown"],
        vec!["slow-comparison", "--samples", "2", "--samples", "3"],
        vec!["slow-comparison", "--sizes", "1", "--sizes", "8"],
        vec!["slow-comparison", "--same-sizes", "1", "--same-sizes", "8"],
        vec![
            "slow-comparison",
            "--distinct-sizes",
            "1",
            "--distinct-sizes",
            "8",
        ],
        vec![
            "slow-comparison",
            "--json",
            "/tmp/one.json",
            "--json",
            "/tmp/two.json",
        ],
        vec!["slow-comparison", "--samples"],
        vec!["slow-comparison", "--sizes"],
        vec!["slow-comparison", "--same-sizes"],
        vec!["slow-comparison", "--distinct-sizes"],
        vec!["slow-comparison", "--json"],
        vec!["slow-comparison", "--warmup-proofs", "--warmup-proofs"],
    ] {
        assert!(parse(&list).is_err());
    }
}

#[test]
fn unknown_option_error_lists_the_proof_warmup_flag() {
    let error = message(parse(&["slow-comparison", "--unknown"]));

    assert!(error.contains("--warmup-proofs"));
    assert!(error.contains("--action-json"));
}

#[test]
fn config_rejects_malformed_and_duplicate_sizes() {
    for sizes in ["", "1,", ",1", "1,,8", "one", "1,1"] {
        assert!(parse(&["slow-comparison", "--sizes", sizes]).is_err());
        assert!(parse(&["slow-comparison", "--same-sizes", sizes]).is_err());
        assert!(parse(&["slow-comparison", "--distinct-sizes", sizes]).is_err());
    }
}

#[test]
fn config_errors_name_the_rejected_option() {
    assert!(matches!(
        parse(&["slow-comparison", "--samples", "2", "--samples", "3"]),
        Err(ConfigError::Repeated(CliOption::Samples))
    ));
    assert!(matches!(
        parse(&["slow-comparison", "--json"]),
        Err(ConfigError::MissingValue(CliOption::Json))
    ));
    assert!(matches!(
        parse(&["slow-comparison", "--sizes", "--json"]),
        Err(ConfigError::MissingValue(CliOption::Sizes))
    ));
    assert!(matches!(
        parse(&["slow-comparison", "--samples", "0"]),
        Err(ConfigError::ZeroSamples)
    ));
    assert!(matches!(
        parse(&["slow-comparison", "--sizes", "1,,8"]),
        Err(ConfigError::SizeList(CliOption::Sizes, SizeListError::EmptyEntry))
    ));
    assert!(matches!(
        parse(&["slow-comparison", "--same-sizes", "1,1"]),
        Err(ConfigError::SizeList(CliOption::SameSizes, SizeListError::Duplicate(1)))
    ));
    assert!(matches!(
        parse(&["slow-comparison", "--json", ""]),
        Err(ConfigError::EmptyPath(CliOption::Json))
    ));
    assert!(matches!(parse(&[]), Err(ConfigError::MissingProgramName)));
}

#[test]
fn config_error_messages_spell_out_the_problem() {
    assert_eq!(
        message(parse(&["slow-comparison", "--samples", "two"])),
        "invalid --samples value `two`"
    );
    assert_eq!(
        message(parse(&["slow-comparison", "--sizes", "1,x"])),
        "invalid --sizes entry `x`"
    );
    assert_eq!(
        message(parse(&["slow-comparison", "--sizes", ""])),
        "--sizes requires a comma-separated list"
    );
    assert_eq!(
        message(parse(&["slow-comparison", "--distinct-sizes", "8,8"])),
        "--distinct-sizes contains duplicate entry 8"
    );
    assert_eq!(
        message(parse(&["slow-comparison", "--warmup-proofs", "--warmup-proofs"])),
        "--warmup-proofs may only be supplied once"
    );
    assert_eq!(
        message(parse(&["slow-comparison", "--unknown"])),
        "unknown argument `--unknown`; expected --samples, --sizes, --same-sizes, --distinct-sizes, --mixed-claim-counts, --recursive-fan-ins, --json, --action-json, or --warmup-proofs"
    );
    assert_eq!(
        message(parse(&["slow-comparison", "--mixed-claim-counts", "1"])),
        "--mixed-claim-counts entries must be greater than one"
    );
    assert_eq!(
        message(parse(&["slow-comparison", "--mixed-claim-counts", "3"])),
        "--mixed-claim-counts entries must divide 512 signatures evenly"
    );
    assert_eq!(
        message(parse(&["slow-comparison", "--recursive-fan-ins", "1"])),
        "--recursive-fan-ins entries must be at least two"
    );
}

#[test]
fn config_reads_mixed_claim_counts_and_fan_ins() {
    let config = parse(&[
        "slow-comparison",
        "--mixed-claim-counts",
        "8,16",
        "--recursive-fan-ins",
        "2,16",
    ])
    .unwrap();
    assert_eq!(config.mixed_claim_counts, vec![8, 16]);
    assert_eq!(config.recursive_fan_ins, vec![2, 16]);

    let defaults = parse(&["slow-comparison"]).unwrap();
    assert!(defaults.mixed_claim_counts.is_empty());
    assert!(defaults.recursive_fan_ins.is_empty());
}

#[test]
fn relative_report_paths_need_a_working_directory() {
    let result = RunConfig::parse_from(
        &arguments(&["slow-comparison", "--json", "a.json", "--action-json", "b.json"]),
        None,
        PathIdentity::NotFound,
    );
    assert!(matches!(result, Err(ConfigError::UnresolvablePath(_))));
}

#[test]
fn unknown_path_identity_is_an_error() {
    let result = parse_with_identity(
        &["slow-comparison", "--json", "/a.json", "--action-json", "/b.json"],
        PathIdentity::Failed,
    );
    assert_eq!(
        message(result),
        "failed to compare output path identity for /a.json and /b.json"
    );
}

#[test]
fn paths_normalize_lexically_against_the_working_directory() {
    let normalized =
        lexically_normalize_absolute(b"reports/./../reports/full.json", Some(WORKING_DIRECTORY))
            .unwrap();
    assert_eq!(
        render_path(&normalized),
        b"/work/lean-multisig/reports/full.json".to_vec()
    );

    let above_root = lexically_normalize_absolute(b"/../../etc/passwd", None).unwrap();
    assert_eq!(render_path(&above_root), b"/etc/passwd".to_vec());
}

#[test]
fn output_paths_collide_only_when_the_same_file() {
    assert!(matches!(
        output_paths_collide(b"/a/b", b"/a/./b", None, PathIdentity::DifferentFiles),
        Ok(true)
    ));
    assert!(matches!(
        output_paths_collide(b"/a/b", b"/a/c", None, PathIdentity::DifferentFiles),
        Ok(false)
    ));
    assert!(matches!(
        output_paths_collide(b"/a/b", b"/a/c", None, PathIdentity::SameFile),
        Ok(true)
    ));
    assert!(ensure_distinct_output_paths(Some(b"/a/b"), None, None, PathIdentity::SameFile).is_ok());
}

#[test]
fn option_values_must_be_utf8_text() {
    let arguments = vec![b"slow-comparison".to_vec(), b"--samples".to_vec(), vec![0xff, 0x32]];
    let result = RunConfig::parse_from(&arguments, Some(WORKING_DIRECTORY), PathIdentity::NotFound);
    assert!(matches!(result, Err(ConfigError::NotUtf8(CliOption::Samples))));
    assert_eq!(
        message(result),
        "--samples value must be valid UTF-8"
    );
}

#[test]
fn unknown_arguments_are_quoted_lossily() {
    let arguments = vec![b"slow-comparison".to_vec(), vec![b'-', 0xff, b'x']];
    let result = RunConfig::parse_from(&arguments, Some(WORKING_DIRECTORY), PathIdentity::NotFound);
    assert!(message(result).starts_with("unknown argument `-\u{fffd}x`;"));
}

#[test]
fn normalizing_a_normalized_path_changes_nothing() {
    for path in [&b"/dev/../dev/null"[..], b"/..", b"a/./b/../c", b"/"] {
        let once = render_path(&lexically_normalize_absolute(path, Some(WORKING_DIRECTORY)).unwrap());
        let twice = render_path(&lexically_normalize_absolute(&once, None).unwrap());
        assert_eq!(once, twice);
    }
    assert_eq!(
        render_path(&lexically_normalize_absolute(b"/..", None).unwrap()),
        b"/".to_vec()
    );
    assert!(lexically_normalize_absolute(b"", Some(WORKING_DIRECTORY)).is_err());
}

#[test]
fn the_sizes_shorthand_sets_both_axes() {
    let config = parse(&["slow-comparison", "--samples", "2", "--sizes", "1,16"]).unwrap();
    assert_eq!(config.same_sizes, vec![1, 16]);
    assert_eq!(config.distinct_sizes, config.same_sizes);
}

//! The messages that the runner prints for rejected command lines.

use vstd::prelude::*;
use vstd::utf8::{decode_utf8, valid_utf8};

use crate::batch::BatchError;
use crate::claim_context::{ContextError, ContextField};
use crate::config::{CliOption, ConfigError, SizeListError};
use crate::report::ReportError;
use crate::summary::SummaryError;
use crate::limits::{MAX_DISTINCT_CLAIMS, MAX_RECURSIVE_FAN_IN, MAX_SAME_CLAIM_SIGNERS};
use crate::text::{append_decimal, decimal_chars};

verus! {

/// The text that `String::from_utf8_lossy` makes of `bytes`.
pub uninterp spec fn lossy_utf8(bytes: Seq<u8>) -> Seq<char>;

/// `String::from_utf8_lossy`, as an owned string: the decoded text of
/// well-formed UTF-8, as std documents; ill-formed sequences become
/// replacement characters, which is left to the name `lossy_utf8`.
#[verifier::external_body]
fn utf8_lossy(bytes: &[u8]) -> (s: String)
    ensures
        s@ == lossy_utf8(bytes@),
        valid_utf8(bytes@) ==> s@ == decode_utf8(bytes@),
{
    String::from_utf8_lossy(bytes).into_owned()
}

/// An option's spelling as text.
pub open spec fn option_text(option: CliOption) -> Seq<char> {
    match option {
        CliOption::Samples => "--samples"@,
        CliOption::Sizes => "--sizes"@,
        CliOption::SameSizes => "--same-sizes"@,
        CliOption::DistinctSizes => "--distinct-sizes"@,
        CliOption::MixedClaimCounts => "--mixed-claim-counts"@,
        CliOption::RecursiveFanIns => "--recursive-fan-ins"@,
        CliOption::Json => "--json"@,
        CliOption::ActionJson => "--action-json"@,
        CliOption::WarmupProofs => "--warmup-proofs"@,
    }
}

/// An option's spelling as a string literal.
pub fn option_str(option: CliOption) -> (s: &'static str)
    ensures
        s@ == option_text(option),
{
    match option {
        CliOption::Samples => "--samples",
        CliOption::Sizes => "--sizes",
        CliOption::SameSizes => "--same-sizes",
        CliOption::DistinctSizes => "--distinct-sizes",
        CliOption::MixedClaimCounts => "--mixed-claim-counts",
        CliOption::RecursiveFanIns => "--recursive-fan-ins",
        CliOption::Json => "--json",
        CliOption::ActionJson => "--action-json",
        CliOption::WarmupProofs => "--warmup-proofs",
    }
}

/// The largest entry that a list option accepts.
pub open spec fn option_maximum(option: CliOption) -> usize {
    match option {
        CliOption::SameSizes => MAX_SAME_CLAIM_SIGNERS,
        CliOption::RecursiveFanIns => MAX_RECURSIVE_FAN_IN,
        _ => MAX_DISTINCT_CLAIMS,
    }
}

fn maximum_of(option: CliOption) -> (m: usize)
    ensures
        m == option_maximum(option),
{
    match option {
        CliOption::SameSizes => MAX_SAME_CLAIM_SIGNERS,
        CliOption::RecursiveFanIns => MAX_RECURSIVE_FAN_IN,
        _ => MAX_DISTINCT_CLAIMS,
    }
}

/// The message of a rejected size list given to `option`.
pub open spec fn size_list_message(option: CliOption, e: SizeListError<Seq<u8>>) -> Seq<char> {
    let o = option_text(option);
    match e {
        SizeListError::EmptyList => o + " requires a comma-separated list"@,
        SizeListError::EmptyEntry => o + " contains an empty list entry"@,
        SizeListError::InvalidEntry(b) => "invalid "@ + o + " entry `"@ + lossy_utf8(b) + "`"@,
        SizeListError::Zero => o + " entries must be greater than zero"@,
        SizeListError::ExceedsMaximum(v) => o + " entry "@ + decimal_chars(v as nat)
            + " exceeds maximum "@ + decimal_chars(option_maximum(option) as nat),
        SizeListError::Duplicate(v) => o + " contains duplicate entry "@ + decimal_chars(v as nat),
    }
}

/// The list of options that an unknown argument's message offers.
pub open spec fn expected_options() -> Seq<char> {
    "; expected --samples, --sizes, --same-sizes, --distinct-sizes, --mixed-claim-counts, --recursive-fan-ins, --json, --action-json, or --warmup-proofs"@
}

/// The message of a rejected command line.
pub open spec fn config_message(e: ConfigError<Seq<u8>>) -> Seq<char> {
    match e {
        ConfigError::MissingProgramName => "missing program name"@,
        ConfigError::Repeated(o) => option_text(o) + " may only be supplied once"@,
        ConfigError::MissingValue(o) => option_text(o) + " requires a value"@,
        ConfigError::NotUtf8(o) => option_text(o) + " value must be valid UTF-8"@,
        ConfigError::InvalidSamples(b) => "invalid --samples value `"@ + lossy_utf8(b) + "`"@,
        ConfigError::ZeroSamples => "--samples must be greater than zero"@,
        ConfigError::SizeList(o, l) => size_list_message(o, l),
        ConfigError::MixedClaimCountTooSmall => "--mixed-claim-counts entries must be greater than one"@,
        ConfigError::MixedClaimCountNotDivisor => "--mixed-claim-counts entries must divide 512 signatures evenly"@,
        ConfigError::FanInTooSmall => "--recursive-fan-ins entries must be at least two"@,
        ConfigError::EmptyPath(o) => option_text(o) + " path must not be empty"@,
        ConfigError::UnknownArgument(b) => "unknown argument `"@ + lossy_utf8(b) + "`"@
            + expected_options(),
        ConfigError::SizesWithSameSizes => "--sizes cannot be combined with --same-sizes"@,
        ConfigError::SizesWithDistinctSizes => "--sizes cannot be combined with --distinct-sizes"@,
        ConfigError::UnresolvablePath(b) => "failed to resolve output path "@ + lossy_utf8(b),
        ConfigError::OutputPathsCollide => "--json and --action-json must write to different paths"@,
        ConfigError::PathIdentityUnknown(l, r) => "failed to compare output path identity for "@
            + lossy_utf8(l) + " and "@ + lossy_utf8(r),
    }
}

fn size_list_text(option: CliOption, e: &SizeListError<Vec<u8>>) -> (s: String)
    ensures
        s@ == size_list_message(option, e@),
{
    let mut s = String::new();
    match e {
        SizeListError::EmptyList => {
            s.append(option_str(option));
            s.append(" requires a comma-separated list");
        },
        SizeListError::EmptyEntry => {
            s.append(option_str(option));
            s.append(" contains an empty list entry");
        },
        SizeListError::InvalidEntry(b) => {
            s.append("invalid ");
            s.append(option_str(option));
            s.append(" entry `");
            let text = utf8_lossy(b.as_slice());
            s.append(text.as_str());
            s.append("`");
        },
        SizeListError::Zero => {
            s.append(option_str(option));
            s.append(" entries must be greater than zero");
        },
        SizeListError::ExceedsMaximum(v) => {
            s.append(option_str(option));
            s.append(" entry ");
            append_decimal(&mut s, *v as u64);
            s.append(" exceeds maximum ");
            append_decimal(&mut s, maximum_of(option) as u64);
        },
        SizeListError::Duplicate(v) => {
            s.append(option_str(option));
            s.append(" contains duplicate entry ");
            append_decimal(&mut s, *v as u64);
        },
    }
    s
}

impl ConfigError<Vec<u8>> {
    /// The message the runner prints for this error (see `config_message`).
    pub fn message(&self) -> (s: String)
        ensures
            s@ == config_message(self@),
    {
        let mut s = String::new();
        match self {
            ConfigError::MissingProgramName => {
                s.append("missing program name");
            },
            ConfigError::Repeated(o) => {
                s.append(option_str(*o));
                s.append(" may only be supplied once");
            },
            ConfigError::MissingValue(o) => {
                s.append(option_str(*o));
                s.append(" requires a value");
            },
            ConfigError::NotUtf8(o) => {
                s.append(option_str(*o));
                s.append(" value must be valid UTF-8");
            },
            ConfigError::InvalidSamples(b) => {
                s.append("invalid --samples value `");
                let text = utf8_lossy(b.as_slice());
                s.append(text.as_str());
                s.append("`");
            },
            ConfigError::ZeroSamples => {
                s.append("--samples must be greater than zero");
            },
            ConfigError::SizeList(o, l) => {
                s = size_list_text(*o, l);
            },
            ConfigError::MixedClaimCountTooSmall => {
                s.append("--mixed-claim-counts entries must be greater than one");
            },
            ConfigError::MixedClaimCountNotDivisor => {
                s.append("--mixed-claim-counts entries must divide 512 signatures evenly");
            },
            ConfigError::FanInTooSmall => {
                s.append("--recursive-fan-ins entries must be at least two");
            },
            ConfigError::EmptyPath(o) => {
                s.append(option_str(*o));
                s.append(" path must not be empty");
            },
            ConfigError::UnknownArgument(b) => {
                s.append("unknown argument `");
                let text = utf8_lossy(b.as_slice());
                s.append(text.as_str());
                s.append("`");
                s.append(
                    "; expected --samples, --sizes, --same-sizes, --distinct-sizes, --mixed-claim-counts, --recursive-fan-ins, --json, --action-json, or --warmup-proofs",
                );
            },
            ConfigError::SizesWithSameSizes => {
                s.append("--sizes cannot be combined with --same-sizes");
            },
            ConfigError::SizesWithDistinctSizes => {
                s.append("--sizes cannot be combined with --distinct-sizes");
            },
            ConfigError::UnresolvablePath(b) => {
                s.append("failed to resolve output path ");
                let text = utf8_lossy(b.as_slice());
                s.append(text.as_str());
            },
            ConfigError::OutputPathsCollide => {
                s.append("--json and --action-json must write to different paths");
            },
            ConfigError::PathIdentityUnknown(l, r) => {
                s.append("failed to compare output path identity for ");
                let left = utf8_lossy(l.as_slice());
                s.append(left.as_str());
                s.append(" and ");
                let right = utf8_lossy(r.as_slice());
                s.append(right.as_str());
            },
        }
        s
    }
}


/// The message of a rejected report.
pub open spec fn report_message(e: ReportError) -> Seq<char> {
    match e {
        ReportError::EmptyWorkload => "workload must not be empty"@,
        ReportError::ZeroInputSize => "input size must be greater than zero"@,
        ReportError::KeyCreationSlots => "key_creation must measure exactly 1048576 slots"@,
        ReportError::InputSizeTooLarge(n) => "input size "@ + decimal_chars(n as nat)
            + " exceeds maximum 512"@,
        ReportError::ZeroLeanMedian => "lean median must be greater than zero"@,
        ReportError::ZeroLeanArtifact => "lean artifact size must be greater than zero"@,
        ReportError::ZeroLighthouseArtifact => "Lighthouse artifact size must be greater than zero"@,
        ReportError::ZeroBaselineMedian => "baseline median must be greater than zero"@,
        ReportError::ClaimCountWorkload => "claim count is only valid for mixed-claim workloads"@,
        ReportError::ClaimCountTooSmall => "claim count must be greater than one"@,
        ReportError::ClaimCountTooLarge(k) => "claim count "@ + decimal_chars(k as nat)
            + " exceeds maximum 16"@,
        ReportError::ClaimCountExceedsSignatures => "claim count must not exceed the signature count"@,
        ReportError::ClaimCountNotDivisor => "signature count must be divisible by claim count"@,
        ReportError::FanInTooSmall => "recursive fan-in must be at least two"@,
        ReportError::FanInTooLarge(f) => "recursive fan-in "@ + decimal_chars(f as nat)
            + " exceeds maximum 16"@,
        ReportError::ChildSignerCount => "recursive child signer count must be exactly 512"@,
        ReportError::TotalSignersOverflow => "recursive total signer count overflowed"@,
        ReportError::ZeroLeanVmMedian => "LeanVM median must be greater than zero"@,
        ReportError::ZeroLeanVmArtifact => "LeanVM artifact size must be greater than zero"@,
        ReportError::EmptyReport => "cannot export an empty benchmark report"@,
    }
}

impl ReportError {
    /// The message printed for this error (see `report_message`).
    pub fn message(&self) -> (s: String)
        ensures
            s@ == report_message(*self),
    {
        let mut s = String::new();
        match self {
            ReportError::EmptyWorkload => s.append("workload must not be empty"),
            ReportError::ZeroInputSize => s.append("input size must be greater than zero"),
            ReportError::KeyCreationSlots => s.append(
                "key_creation must measure exactly 1048576 slots",
            ),
            ReportError::InputSizeTooLarge(n) => {
                s.append("input size ");
                append_decimal(&mut s, *n as u64);
                s.append(" exceeds maximum 512");
            },
            ReportError::ZeroLeanMedian => s.append("lean median must be greater than zero"),
            ReportError::ZeroLeanArtifact => s.append(
                "lean artifact size must be greater than zero",
            ),
            ReportError::ZeroLighthouseArtifact => s.append(
                "Lighthouse artifact size must be greater than zero",
            ),
            ReportError::ZeroBaselineMedian => s.append(
                "baseline median must be greater than zero",
            ),
            ReportError::ClaimCountWorkload => s.append(
                "claim count is only valid for mixed-claim workloads",
            ),
            ReportError::ClaimCountTooSmall => s.append("claim count must be greater than one"),
            ReportError::ClaimCountTooLarge(k) => {
                s.append("claim count ");
                append_decimal(&mut s, *k as u64);
                s.append(" exceeds maximum 16");
            },
            ReportError::ClaimCountExceedsSignatures => s.append(
                "claim count must not exceed the signature count",
            ),
            ReportError::ClaimCountNotDivisor => s.append(
                "signature count must be divisible by claim count",
            ),
            ReportError::FanInTooSmall => s.append("recursive fan-in must be at least two"),
            ReportError::FanInTooLarge(f) => {
                s.append("recursive fan-in ");
                append_decimal(&mut s, *f as u64);
                s.append(" exceeds maximum 16");
            },
            ReportError::ChildSignerCount => s.append(
                "recursive child signer count must be exactly 512",
            ),
            ReportError::TotalSignersOverflow => s.append(
                "recursive total signer count overflowed",
            ),
            ReportError::ZeroLeanVmMedian => s.append("LeanVM median must be greater than zero"),
            ReportError::ZeroLeanVmArtifact => s.append(
                "LeanVM artifact size must be greater than zero",
            ),
            ReportError::EmptyReport => s.append("cannot export an empty benchmark report"),
        }
        s
    }
}


/// The message of a rejected batch.
pub open spec fn batch_message(e: BatchError) -> Seq<char> {
    match e {
        BatchError::ZeroTarget => "minimum batch duration must be greater than zero"@,
        BatchError::ZeroElapsed => "batch duration must be greater than zero"@,
        BatchError::ZeroCalibrationElapsed => "calibration batch duration must be greater than zero"@,
        BatchError::ZeroIterations => "batch iterations must be greater than zero"@,
        BatchError::EstimateOverflow => "calibration iteration estimate overflowed"@,
        BatchError::EstimateTooLarge => "calibration iteration estimate exceeds usize"@,
        BatchError::CountOverflow => "calibration iteration count overflowed"@,
        BatchError::NotCalibrated => "failed to calibrate a batch in 8 steps"@,
        BatchError::RoundedToZero => "normalized per-operation duration rounded to zero"@,
        BatchError::DurationTooLarge => "normalized duration exceeds u64 nanoseconds"@,
        BatchError::NoSamples => "at least one paired sample is required"@,
    }
}

impl BatchError {
    /// The message printed for this error (see `batch_message`).
    pub fn message(&self) -> (s: String)
        ensures
            s@ == batch_message(*self),
    {
        let mut s = String::new();
        match self {
            BatchError::ZeroTarget => s.append("minimum batch duration must be greater than zero"),
            BatchError::ZeroElapsed => s.append("batch duration must be greater than zero"),
            BatchError::ZeroCalibrationElapsed => s.append(
                "calibration batch duration must be greater than zero",
            ),
            BatchError::ZeroIterations => s.append("batch iterations must be greater than zero"),
            BatchError::EstimateOverflow => s.append("calibration iteration estimate overflowed"),
            BatchError::EstimateTooLarge => s.append(
                "calibration iteration estimate exceeds usize",
            ),
            BatchError::CountOverflow => s.append("calibration iteration count overflowed"),
            BatchError::NotCalibrated => s.append("failed to calibrate a batch in 8 steps"),
            BatchError::RoundedToZero => s.append(
                "normalized per-operation duration rounded to zero",
            ),
            BatchError::DurationTooLarge => s.append("normalized duration exceeds u64 nanoseconds"),
            BatchError::NoSamples => s.append("at least one paired sample is required"),
        }
        s
    }
}

/// The name of a claim-context field in messages.
pub open spec fn field_text(field: ContextField) -> Seq<char> {
    match field {
        ContextField::GroupCount => "group count"@,
        ContextField::Message => "message"@,
        ContextField::Slot => "slot"@,
        ContextField::SignerCount => "signer count"@,
        ContextField::Signers => "signers"@,
    }
}

fn field_str(field: ContextField) -> (s: &'static str)
    ensures
        s@ == field_text(field),
{
    match field {
        ContextField::GroupCount => "group count",
        ContextField::Message => "message",
        ContextField::Slot => "slot",
        ContextField::SignerCount => "signer count",
        ContextField::Signers => "signers",
    }
}

/// The message of a claim context that could not be encoded or decoded.
pub open spec fn context_message(e: ContextError) -> Seq<char> {
    match e {
        ContextError::TooManyGroupsToEncode => "too many claim groups"@,
        ContextError::TooManySigners => "too many signers"@,
        ContextError::Malformed => "malformed Java claim context"@,
        ContextError::LengthOverflow => "claim context length overflow"@,
        ContextError::Truncated(f) => "claim context ends while reading "@ + field_text(f),
        ContextError::TooManyGroups(n) => "too many claim groups: "@ + decimal_chars(n as nat),
        ContextError::SignerListOverflow => "signer list length overflow"@,
        ContextError::TrailingBytes => "trailing bytes in Java claim context"@,
    }
}

impl ContextError {
    /// The message printed for this error (see `context_message`).
    pub fn message(&self) -> (s: String)
        ensures
            s@ == context_message(*self),
    {
        let mut s = String::new();
        match self {
            ContextError::TooManyGroupsToEncode => s.append("too many claim groups"),
            ContextError::TooManySigners => s.append("too many signers"),
            ContextError::Malformed => s.append("malformed Java claim context"),
            ContextError::LengthOverflow => s.append("claim context length overflow"),
            ContextError::Truncated(f) => {
                s.append("claim context ends while reading ");
                s.append(field_str(*f));
            },
            ContextError::TooManyGroups(n) => {
                s.append("too many claim groups: ");
                append_decimal(&mut s, *n as u64);
            },
            ContextError::SignerListOverflow => s.append("signer list length overflow"),
            ContextError::TrailingBytes => s.append("trailing bytes in Java claim context"),
        }
        s
    }
}


/// The message of durations that could not be summarized.
pub open spec fn summary_message(e: SummaryError) -> Seq<char> {
    match e {
        SummaryError::DurationOutOfRange => "sample duration exceeds the supported nanosecond range"@,
        SummaryError::NoSamples => "at least one sample is required"@,
        SummaryError::ZeroSample => "sample durations must be greater than zero"@,
    }
}

impl SummaryError {
    /// The message printed for this error (see `summary_message`).
    pub fn message(&self) -> (s: String)
        ensures
            s@ == summary_message(*self),
    {
        let mut s = String::new();
        match self {
            SummaryError::DurationOutOfRange => s.append(
                "sample duration exceeds the supported nanosecond range",
            ),
            SummaryError::NoSamples => s.append("at least one sample is required"),
            SummaryError::ZeroSample => s.append("sample durations must be greater than zero"),
        }
        s
    }
}

} // verus!

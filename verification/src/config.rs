//! Command-line configuration of the slow comparison runner.

use vstd::prelude::*;
use vstd::utf8::valid_utf8;

use crate::limits::{
    MAX_DISTINCT_CLAIMS, MAX_RECURSIVE_FAN_IN, MAX_SAME_CLAIM_SIGNERS, MIXED_CLAIM_SIGNATURES,
};
use crate::paths::{
    ensure_distinct_output_paths, spec_ensure_distinct, spec_paths_collide, PathIdentity,
};
use crate::text::{
    bytes_equal, bytes_start_with_dashes, is_valid_utf8, opt_bytes, parse_usize, parse_usize_spec,
    split_bytes, split_on, starts_with_dashes,
};

verus! {

/// The options the runner understands.
#[derive(Clone, Copy, Debug, PartialEq, Eq, Structural)]
pub enum CliOption {
    Samples,
    Sizes,
    SameSizes,
    DistinctSizes,
    MixedClaimCounts,
    RecursiveFanIns,
    Json,
    ActionJson,
    WarmupProofs,
}

/// The spelling of an option on the command line.
pub open spec fn option_name(option: CliOption) -> Seq<u8> {
    match option {
        CliOption::Samples => seq![45u8, 45u8, 115u8, 97u8, 109u8, 112u8, 108u8, 101u8, 115u8],
        CliOption::Sizes => seq![45u8, 45u8, 115u8, 105u8, 122u8, 101u8, 115u8],
        CliOption::SameSizes => seq![45u8, 45u8, 115u8, 97u8, 109u8, 101u8, 45u8, 115u8, 105u8, 122u8, 101u8, 115u8],
        CliOption::DistinctSizes => seq![45u8, 45u8, 100u8, 105u8, 115u8, 116u8, 105u8, 110u8, 99u8, 116u8, 45u8, 115u8, 105u8, 122u8, 101u8, 115u8],
        CliOption::MixedClaimCounts => seq![45u8, 45u8, 109u8, 105u8, 120u8, 101u8, 100u8, 45u8, 99u8, 108u8, 97u8, 105u8, 109u8, 45u8, 99u8, 111u8, 117u8, 110u8, 116u8, 115u8],
        CliOption::RecursiveFanIns => seq![45u8, 45u8, 114u8, 101u8, 99u8, 117u8, 114u8, 115u8, 105u8, 118u8, 101u8, 45u8, 102u8, 97u8, 110u8, 45u8, 105u8, 110u8, 115u8],
        CliOption::Json => seq![45u8, 45u8, 106u8, 115u8, 111u8, 110u8],
        CliOption::ActionJson => seq![45u8, 45u8, 97u8, 99u8, 116u8, 105u8, 111u8, 110u8, 45u8, 106u8, 115u8, 111u8, 110u8],
        CliOption::WarmupProofs => seq![45u8, 45u8, 119u8, 97u8, 114u8, 109u8, 117u8, 112u8, 45u8, 112u8, 114u8, 111u8, 111u8, 102u8, 115u8],
    }
}

/// The spelling of an option, as bytes.
pub fn option_name_bytes(option: CliOption) -> (name: Vec<u8>)
    ensures
        name@ == option_name(option),
{
    match option {
        CliOption::Samples => {
            let name = vec![45u8, 45u8, 115u8, 97u8, 109u8, 112u8, 108u8, 101u8, 115u8];
            assert(name@ =~= option_name(option));
            name
        },
        CliOption::Sizes => {
            let name = vec![45u8, 45u8, 115u8, 105u8, 122u8, 101u8, 115u8];
            assert(name@ =~= option_name(option));
            name
        },
        CliOption::SameSizes => {
            let name = vec![45u8, 45u8, 115u8, 97u8, 109u8, 101u8, 45u8, 115u8, 105u8, 122u8, 101u8, 115u8];
            assert(name@ =~= option_name(option));
            name
        },
        CliOption::DistinctSizes => {
            let name = vec![45u8, 45u8, 100u8, 105u8, 115u8, 116u8, 105u8, 110u8, 99u8, 116u8, 45u8, 115u8, 105u8, 122u8, 101u8, 115u8];
            assert(name@ =~= option_name(option));
            name
        },
        CliOption::MixedClaimCounts => {
            let name = vec![45u8, 45u8, 109u8, 105u8, 120u8, 101u8, 100u8, 45u8, 99u8, 108u8, 97u8, 105u8, 109u8, 45u8, 99u8, 111u8, 117u8, 110u8, 116u8, 115u8];
            assert(name@ =~= option_name(option));
            name
        },
        CliOption::RecursiveFanIns => {
            let name = vec![45u8, 45u8, 114u8, 101u8, 99u8, 117u8, 114u8, 115u8, 105u8, 118u8, 101u8, 45u8, 102u8, 97u8, 110u8, 45u8, 105u8, 110u8, 115u8];
            assert(name@ =~= option_name(option));
            name
        },
        CliOption::Json => {
            let name = vec![45u8, 45u8, 106u8, 115u8, 111u8, 110u8];
            assert(name@ =~= option_name(option));
            name
        },
        CliOption::ActionJson => {
            let name = vec![45u8, 45u8, 97u8, 99u8, 116u8, 105u8, 111u8, 110u8, 45u8, 106u8, 115u8, 111u8, 110u8];
            assert(name@ =~= option_name(option));
            name
        },
        CliOption::WarmupProofs => {
            let name = vec![45u8, 45u8, 119u8, 97u8, 114u8, 109u8, 117u8, 112u8, 45u8, 112u8, 114u8, 111u8, 111u8, 102u8, 115u8];
            assert(name@ =~= option_name(option));
            name
        },
    }
}

/// The option an argument spells, if any.
pub open spec fn recognized_option(argument: Seq<u8>) -> Option<CliOption> {
    if argument == option_name(CliOption::Samples) {
        Some(CliOption::Samples)
    } else if argument == option_name(CliOption::Sizes) {
        Some(CliOption::Sizes)
    } else if argument == option_name(CliOption::SameSizes) {
        Some(CliOption::SameSizes)
    } else if argument == option_name(CliOption::DistinctSizes) {
        Some(CliOption::DistinctSizes)
    } else if argument == option_name(CliOption::MixedClaimCounts) {
        Some(CliOption::MixedClaimCounts)
    } else if argument == option_name(CliOption::RecursiveFanIns) {
        Some(CliOption::RecursiveFanIns)
    } else if argument == option_name(CliOption::Json) {
        Some(CliOption::Json)
    } else if argument == option_name(CliOption::ActionJson) {
        Some(CliOption::ActionJson)
    } else if argument == option_name(CliOption::WarmupProofs) {
        Some(CliOption::WarmupProofs)
    } else {
        None
    }
}

fn spells(argument: &[u8], option: CliOption) -> (res: bool)
    ensures
        res == (argument@ == option_name(option)),
{
    let name = option_name_bytes(option);
    bytes_equal(argument, name.as_slice())
}

/// Recognizes an option by its exact spelling.
pub fn recognize_option(argument: &[u8]) -> (option: Option<CliOption>)
    ensures
        option == recognized_option(argument@),
{
    if spells(argument, CliOption::Samples) {
        Some(CliOption::Samples)
    } else if spells(argument, CliOption::Sizes) {
        Some(CliOption::Sizes)
    } else if spells(argument, CliOption::SameSizes) {
        Some(CliOption::SameSizes)
    } else if spells(argument, CliOption::DistinctSizes) {
        Some(CliOption::DistinctSizes)
    } else if spells(argument, CliOption::MixedClaimCounts) {
        Some(CliOption::MixedClaimCounts)
    } else if spells(argument, CliOption::RecursiveFanIns) {
        Some(CliOption::RecursiveFanIns)
    } else if spells(argument, CliOption::Json) {
        Some(CliOption::Json)
    } else if spells(argument, CliOption::ActionJson) {
        Some(CliOption::ActionJson)
    } else if spells(argument, CliOption::WarmupProofs) {
        Some(CliOption::WarmupProofs)
    } else {
        None
    }
}

/// Why a comma-separated size list was rejected.
#[derive(Clone, Debug)]
pub enum SizeListError<B> {
    /// The list is empty.
    EmptyList,
    /// An entry between commas is empty.
    EmptyEntry,
    /// An entry is not an unsigned decimal.
    InvalidEntry(B),
    /// An entry is zero.
    Zero,
    /// An entry exceeds the option's maximum.
    ExceedsMaximum(usize),
    /// An entry occurs twice.
    Duplicate(usize),
}

impl View for SizeListError<Vec<u8>> {
    type V = SizeListError<Seq<u8>>;

    open spec fn view(&self) -> SizeListError<Seq<u8>> {
        match self {
            SizeListError::EmptyList => SizeListError::EmptyList,
            SizeListError::EmptyEntry => SizeListError::EmptyEntry,
            SizeListError::InvalidEntry(b) => SizeListError::InvalidEntry(b@),
            SizeListError::Zero => SizeListError::Zero,
            SizeListError::ExceedsMaximum(v) => SizeListError::ExceedsMaximum(*v),
            SizeListError::Duplicate(v) => SizeListError::Duplicate(*v),
        }
    }
}

/// The verdict on one list entry, given the entries accepted before it.
pub open spec fn check_size(piece: Seq<u8>, maximum: usize, earlier: Seq<usize>) -> Result<
    usize,
    SizeListError<Seq<u8>>,
> {
    if piece.len() == 0 {
        Err(SizeListError::EmptyEntry)
    } else {
        match parse_usize_spec(piece) {
            None => Err(SizeListError::InvalidEntry(piece)),
            Some(v) => if v == 0 {
                Err(SizeListError::Zero)
            } else if v > maximum {
                Err(SizeListError::ExceedsMaximum(v))
            } else if earlier.contains(v) {
                Err(SizeListError::Duplicate(v))
            } else {
                Ok(v)
            },
        }
    }
}

/// Checks the entries in order and stops at the first that is rejected.
pub open spec fn parse_size_pieces(pieces: Seq<Seq<u8>>, maximum: usize) -> Result<
    Seq<usize>,
    SizeListError<Seq<u8>>,
>
    decreases pieces.len(),
{
    if pieces.len() == 0 {
        Ok(Seq::empty())
    } else {
        match parse_size_pieces(pieces.drop_last(), maximum) {
            Err(e) => Err(e),
            Ok(earlier) => match check_size(pieces.last(), maximum, earlier) {
                Err(e) => Err(e),
                Ok(v) => Ok(earlier.push(v)),
            },
        }
    }
}

/// What a comma-separated size list parses to.
pub open spec fn spec_parse_sizes(value: Seq<u8>, maximum: usize) -> Result<
    Seq<usize>,
    SizeListError<Seq<u8>>,
> {
    if value.len() == 0 {
        Err(SizeListError::EmptyList)
    } else {
        parse_size_pieces(split_on(value, 0x2Cu8), maximum)
    }
}

pub open spec fn size_list_view(r: Result<Vec<usize>, SizeListError<Vec<u8>>>) -> Result<
    Seq<usize>,
    SizeListError<Seq<u8>>,
> {
    match r {
        Ok(v) => Ok(v@),
        Err(e) => Err(e@),
    }
}

proof fn lemma_size_pieces_error_prefix(pieces: Seq<Seq<u8>>, maximum: usize, j: int)
    requires
        0 <= j <= pieces.len(),
        parse_size_pieces(pieces.take(j), maximum) is Err,
    ensures
        parse_size_pieces(pieces, maximum) == parse_size_pieces(pieces.take(j), maximum),
    decreases pieces.len() - j,
{
    if j == pieces.len() {
        assert(pieces.take(j) =~= pieces);
    } else {
        assert(pieces.take(j + 1).drop_last() =~= pieces.take(j));
        lemma_size_pieces_error_prefix(pieces, maximum, j + 1);
    }
}

fn contains_size(sizes: &Vec<usize>, v: usize) -> (res: bool)
    ensures
        res == sizes@.contains(v),
{
    let mut i: usize = 0;
    while i < sizes.len()
        invariant
            i <= sizes@.len(),
            forall|j: int| 0 <= j < i ==> sizes@[j] != v,
        decreases sizes@.len() - i,
    {
        if sizes[i] == v {
            assert(sizes@[i as int] == v);
            return true;
        }
        i = i + 1;
    }
    false
}

/// Parses a comma-separated list of distinct sizes from 1 to `maximum`.
pub fn parse_sizes(value: &[u8], maximum: usize) -> (res: Result<Vec<usize>, SizeListError<Vec<u8>>>)
    ensures
        size_list_view(res) == spec_parse_sizes(value@, maximum),
{
    if value.len() == 0 {
        return Err(SizeListError::EmptyList);
    }
    let pieces = split_bytes(value, 0x2Cu8);
    let ghost pv = pieces@.map_values(|p: Vec<u8>| p@);
    let mut sizes: Vec<usize> = Vec::new();
    let mut k: usize = 0;
    assert(pv.take(0) =~= Seq::<Seq<u8>>::empty());
    while k < pieces.len()
        invariant
            pv == pieces@.map_values(|p: Vec<u8>| p@),
            pv == split_on(value@, 0x2Cu8),
            value@.len() > 0,
            k <= pieces@.len(),
            parse_size_pieces(pv.take(k as int), maximum) == Ok::<
                Seq<usize>,
                SizeListError<Seq<u8>>,
            >(sizes@),
        decreases pieces@.len() - k,
    {
        let piece = &pieces[k];
        assert(pv[k as int] == piece@);
        assert(pv.take(k + 1).drop_last() =~= pv.take(k as int));
        assert(pv.take(k + 1).last() == piece@);
        if piece.len() == 0 {
            proof { lemma_size_pieces_error_prefix(pv, maximum, k + 1); }
            return Err(SizeListError::EmptyEntry);
        }
        let size = match parse_usize(piece.as_slice()) {
            None => {
                proof { lemma_size_pieces_error_prefix(pv, maximum, k + 1); }
                return Err(SizeListError::InvalidEntry(piece.clone()));
            },
            Some(v) => v,
        };
        if size == 0 {
            proof { lemma_size_pieces_error_prefix(pv, maximum, k + 1); }
            return Err(SizeListError::Zero);
        }
        if size > maximum {
            proof { lemma_size_pieces_error_prefix(pv, maximum, k + 1); }
            return Err(SizeListError::ExceedsMaximum(size));
        }
        if contains_size(&sizes, size) {
            proof { lemma_size_pieces_error_prefix(pv, maximum, k + 1); }
            return Err(SizeListError::Duplicate(size));
        }
        sizes.push(size);
        k = k + 1;
    }
    assert(pv.take(k as int) =~= pv);
    Ok(sizes)
}

/// Why the runner's arguments were rejected.
#[derive(Clone, Debug)]
pub enum ConfigError<B> {
    /// Not even the program name was given.
    MissingProgramName,
    /// An option was given twice.
    Repeated(CliOption),
    /// An option that takes a value is last, or followed by another option.
    MissingValue(CliOption),
    /// An option's value is not UTF-8.
    NotUtf8(CliOption),
    /// The `--samples` value is not an unsigned decimal.
    InvalidSamples(B),
    /// The `--samples` value is zero.
    ZeroSamples,
    /// A size-list option's value was rejected.
    SizeList(CliOption, SizeListError<B>),
    /// A mixed-claim count is not greater than one.
    MixedClaimCountTooSmall,
    /// A mixed-claim count does not divide the mixed-claim signature count.
    MixedClaimCountNotDivisor,
    /// A recursive fan-in is smaller than two.
    FanInTooSmall,
    /// A report path is empty.
    EmptyPath(CliOption),
    /// An argument that is no known option.
    UnknownArgument(B),
    /// `--sizes` together with `--same-sizes`.
    SizesWithSameSizes,
    /// `--sizes` together with `--distinct-sizes`.
    SizesWithDistinctSizes,
    /// A report path could not be made absolute.
    UnresolvablePath(B),
    /// The two report paths name the same file.
    OutputPathsCollide,
    /// The file system could not tell whether the two normalized report
    /// paths name the same file.
    PathIdentityUnknown(B, B),
}

impl View for ConfigError<Vec<u8>> {
    type V = ConfigError<Seq<u8>>;

    open spec fn view(&self) -> ConfigError<Seq<u8>> {
        match self {
            ConfigError::MissingProgramName => ConfigError::MissingProgramName,
            ConfigError::Repeated(o) => ConfigError::Repeated(*o),
            ConfigError::MissingValue(o) => ConfigError::MissingValue(*o),
            ConfigError::NotUtf8(o) => ConfigError::NotUtf8(*o),
            ConfigError::InvalidSamples(b) => ConfigError::InvalidSamples(b@),
            ConfigError::ZeroSamples => ConfigError::ZeroSamples,
            ConfigError::SizeList(o, e) => ConfigError::SizeList(*o, e@),
            ConfigError::MixedClaimCountTooSmall => ConfigError::MixedClaimCountTooSmall,
            ConfigError::MixedClaimCountNotDivisor => ConfigError::MixedClaimCountNotDivisor,
            ConfigError::FanInTooSmall => ConfigError::FanInTooSmall,
            ConfigError::EmptyPath(o) => ConfigError::EmptyPath(*o),
            ConfigError::UnknownArgument(b) => ConfigError::UnknownArgument(b@),
            ConfigError::SizesWithSameSizes => ConfigError::SizesWithSameSizes,
            ConfigError::SizesWithDistinctSizes => ConfigError::SizesWithDistinctSizes,
            ConfigError::UnresolvablePath(b) => ConfigError::UnresolvablePath(b@),
            ConfigError::OutputPathsCollide => ConfigError::OutputPathsCollide,
            ConfigError::PathIdentityUnknown(l, r) => ConfigError::PathIdentityUnknown(l@, r@),
        }
    }
}

/// The arguments as byte strings.
pub open spec fn args_view(args: Seq<Vec<u8>>) -> Seq<Seq<u8>> {
    args.map_values(|a: Vec<u8>| a@)
}

pub open spec fn opt_seq<T>(o: Option<Vec<T>>) -> Option<Seq<T>> {
    match o {
        Some(v) => Some(v@),
        None => None,
    }
}

/// Options gathered while reading the arguments.
#[derive(Clone, Debug)]
pub struct ParsedOptions<B, L> {
    pub samples: Option<usize>,
    pub sizes: Option<L>,
    pub same_sizes: Option<L>,
    pub distinct_sizes: Option<L>,
    pub mixed_claim_counts: Option<L>,
    pub recursive_fan_ins: Option<L>,
    pub json_path: Option<B>,
    pub action_json_path: Option<B>,
    pub warmup_proofs: bool,
}

pub type OptionsModel = ParsedOptions<Seq<u8>, Seq<usize>>;

impl View for ParsedOptions<Vec<u8>, Vec<usize>> {
    type V = OptionsModel;

    open spec fn view(&self) -> OptionsModel {
        ParsedOptions {
            samples: self.samples,
            sizes: opt_seq(self.sizes),
            same_sizes: opt_seq(self.same_sizes),
            distinct_sizes: opt_seq(self.distinct_sizes),
            mixed_claim_counts: opt_seq(self.mixed_claim_counts),
            recursive_fan_ins: opt_seq(self.recursive_fan_ins),
            json_path: opt_seq(self.json_path),
            action_json_path: opt_seq(self.action_json_path),
            warmup_proofs: self.warmup_proofs,
        }
    }
}

pub open spec fn no_options() -> OptionsModel {
    ParsedOptions {
        samples: None,
        sizes: None,
        same_sizes: None,
        distinct_sizes: None,
        mixed_claim_counts: None,
        recursive_fan_ins: None,
        json_path: None,
        action_json_path: None,
        warmup_proofs: false,
    }
}

/// The value that follows the option at `i`: missing when there is no next
/// argument or it starts with `--`.
pub open spec fn spec_option_value(args: Seq<Seq<u8>>, i: int, option: CliOption) -> Result<
    Seq<u8>,
    ConfigError<Seq<u8>>,
> {
    if i + 1 >= args.len() || starts_with_dashes(args[i + 1]) {
        Err(ConfigError::MissingValue(option))
    } else {
        Ok(args[i + 1])
    }
}

/// A value that must be text.
pub open spec fn spec_text_value(args: Seq<Seq<u8>>, i: int, option: CliOption) -> Result<
    Seq<u8>,
    ConfigError<Seq<u8>>,
> {
    match spec_option_value(args, i, option) {
        Err(e) => Err(e),
        Ok(v) => if valid_utf8(v) {
            Ok(v)
        } else {
            Err(ConfigError::NotUtf8(option))
        },
    }
}

/// A size-list value.
pub open spec fn spec_size_value(
    args: Seq<Seq<u8>>,
    i: int,
    option: CliOption,
    maximum: usize,
) -> Result<Seq<usize>, ConfigError<Seq<u8>>> {
    match spec_text_value(args, i, option) {
        Err(e) => Err(e),
        Ok(v) => match spec_parse_sizes(v, maximum) {
            Err(e) => Err(ConfigError::SizeList(option, e)),
            Ok(l) => Ok(l),
        },
    }
}

/// The `--samples` value.
pub open spec fn spec_samples_value(args: Seq<Seq<u8>>, i: int) -> Result<usize, ConfigError<Seq<u8>>> {
    match spec_text_value(args, i, CliOption::Samples) {
        Err(e) => Err(e),
        Ok(v) => match parse_usize_spec(v) {
            None => Err(ConfigError::InvalidSamples(v)),
            Some(n) => if n == 0 {
                Err(ConfigError::ZeroSamples)
            } else {
                Ok(n)
            },
        },
    }
}

/// The `--mixed-claim-counts` value.
pub open spec fn spec_mixed_value(args: Seq<Seq<u8>>, i: int) -> Result<Seq<usize>, ConfigError<Seq<u8>>> {
    match spec_size_value(args, i, CliOption::MixedClaimCounts, MAX_DISTINCT_CLAIMS) {
        Err(e) => Err(e),
        Ok(l) => if !(forall|k: int| 0 <= k < l.len() ==> #[trigger] l[k] > 1) {
            Err(ConfigError::MixedClaimCountTooSmall)
        } else if !(forall|k: int| 0 <= k < l.len() ==> MIXED_CLAIM_SIGNATURES % #[trigger] l[k] == 0) {
            Err(ConfigError::MixedClaimCountNotDivisor)
        } else {
            Ok(l)
        },
    }
}

/// The `--recursive-fan-ins` value.
pub open spec fn spec_fan_in_value(args: Seq<Seq<u8>>, i: int) -> Result<Seq<usize>, ConfigError<Seq<u8>>> {
    match spec_size_value(args, i, CliOption::RecursiveFanIns, MAX_RECURSIVE_FAN_IN) {
        Err(e) => Err(e),
        Ok(l) => if !(forall|k: int| 0 <= k < l.len() ==> #[trigger] l[k] >= 2) {
            Err(ConfigError::FanInTooSmall)
        } else {
            Ok(l)
        },
    }
}

/// A report-path value.
pub open spec fn spec_path_value(args: Seq<Seq<u8>>, i: int, option: CliOption) -> Result<
    Seq<u8>,
    ConfigError<Seq<u8>>,
> {
    match spec_option_value(args, i, option) {
        Err(e) => Err(e),
        Ok(v) => if v.len() == 0 {
            Err(ConfigError::EmptyPath(option))
        } else {
            Ok(v)
        },
    }
}

/// Reading the argument at `i`: the options afterwards, and whether the
/// argument consumed the next one as its value.
pub open spec fn spec_step(args: Seq<Seq<u8>>, i: int, st: OptionsModel) -> Result<
    (OptionsModel, bool),
    ConfigError<Seq<u8>>,
> {
    match recognized_option(args[i]) {
        None => Err(ConfigError::UnknownArgument(args[i])),
        Some(CliOption::Samples) => if st.samples is Some {
            Err(ConfigError::Repeated(CliOption::Samples))
        } else {
            match spec_samples_value(args, i) {
                Err(e) => Err(e),
                Ok(n) => Ok((ParsedOptions { samples: Some(n), ..st }, true)),
            }
        },
        Some(CliOption::Sizes) => if st.sizes is Some {
            Err(ConfigError::Repeated(CliOption::Sizes))
        } else {
            match spec_size_value(args, i, CliOption::Sizes, MAX_DISTINCT_CLAIMS) {
                Err(e) => Err(e),
                Ok(l) => Ok((ParsedOptions { sizes: Some(l), ..st }, true)),
            }
        },
        Some(CliOption::SameSizes) => if st.same_sizes is Some {
            Err(ConfigError::Repeated(CliOption::SameSizes))
        } else {
            match spec_size_value(args, i, CliOption::SameSizes, MAX_SAME_CLAIM_SIGNERS) {
                Err(e) => Err(e),
                Ok(l) => Ok((ParsedOptions { same_sizes: Some(l), ..st }, true)),
            }
        },
        Some(CliOption::DistinctSizes) => if st.distinct_sizes is Some {
            Err(ConfigError::Repeated(CliOption::DistinctSizes))
        } else {
            match spec_size_value(args, i, CliOption::DistinctSizes, MAX_DISTINCT_CLAIMS) {
                Err(e) => Err(e),
                Ok(l) => Ok((ParsedOptions { distinct_sizes: Some(l), ..st }, true)),
            }
        },
        Some(CliOption::MixedClaimCounts) => if st.mixed_claim_counts is Some {
            Err(ConfigError::Repeated(CliOption::MixedClaimCounts))
        } else {
            match spec_mixed_value(args, i) {
                Err(e) => Err(e),
                Ok(l) => Ok((ParsedOptions { mixed_claim_counts: Some(l), ..st }, true)),
            }
        },
        Some(CliOption::RecursiveFanIns) => if st.recursive_fan_ins is Some {
            Err(ConfigError::Repeated(CliOption::RecursiveFanIns))
        } else {
            match spec_fan_in_value(args, i) {
                Err(e) => Err(e),
                Ok(l) => Ok((ParsedOptions { recursive_fan_ins: Some(l), ..st }, true)),
            }
        },
        Some(CliOption::Json) => if st.json_path is Some {
            Err(ConfigError::Repeated(CliOption::Json))
        } else {
            match spec_path_value(args, i, CliOption::Json) {
                Err(e) => Err(e),
                Ok(p) => Ok((ParsedOptions { json_path: Some(p), ..st }, true)),
            }
        },
        Some(CliOption::ActionJson) => if st.action_json_path is Some {
            Err(ConfigError::Repeated(CliOption::ActionJson))
        } else {
            match spec_path_value(args, i, CliOption::ActionJson) {
                Err(e) => Err(e),
                Ok(p) => Ok((ParsedOptions { action_json_path: Some(p), ..st }, true)),
            }
        },
        Some(CliOption::WarmupProofs) => if st.warmup_proofs {
            Err(ConfigError::Repeated(CliOption::WarmupProofs))
        } else {
            Ok((ParsedOptions { warmup_proofs: true, ..st }, false))
        },
    }
}

/// Reads the arguments from position `i` on.
pub open spec fn spec_parse_loop(args: Seq<Seq<u8>>, i: nat, st: OptionsModel) -> Result<
    OptionsModel,
    ConfigError<Seq<u8>>,
>
    decreases args.len() - i,
{
    if i >= args.len() {
        Ok(st)
    } else {
        match spec_step(args, i as int, st) {
            Err(e) => Err(e),
            Ok((next, consumed)) => spec_parse_loop(
                args,
                if consumed {
                    i + 2
                } else {
                    i + 1
                },
                next,
            ),
        }
    }
}

/// The outcome of an executable step matches the specified one.
pub open spec fn same_outcome<T, M>(
    res: Result<T, ConfigError<Vec<u8>>>,
    spec: Result<M, ConfigError<Seq<u8>>>,
    view: spec_fn(T) -> M,
) -> bool {
    match spec {
        Ok(m) => res matches Ok(t) && view(t) == m,
        Err(e) => res matches Err(x) && x@ == e,
    }
}

fn option_value(args: &[Vec<u8>], i: usize, option: CliOption) -> (res: Result<
    Vec<u8>,
    ConfigError<Vec<u8>>,
>)
    requires
        i < args@.len(),
    ensures
        same_outcome(res, spec_option_value(args_view(args@), i as int, option), |v: Vec<u8>| v@),
{
    let ghost av = args_view(args@);
    if args.len() - i <= 1 {
        return Err(ConfigError::MissingValue(option));
    }
    let value = &args[i + 1];
    assert(av[i + 1] == value@);
    if bytes_start_with_dashes(value.as_slice()) {
        return Err(ConfigError::MissingValue(option));
    }
    Ok(value.clone())
}

fn text_value(args: &[Vec<u8>], i: usize, option: CliOption) -> (res: Result<
    Vec<u8>,
    ConfigError<Vec<u8>>,
>)
    requires
        i < args@.len(),
    ensures
        same_outcome(res, spec_text_value(args_view(args@), i as int, option), |v: Vec<u8>| v@),
{
    let value = option_value(args, i, option)?;
    if !is_valid_utf8(value.as_slice()) {
        return Err(ConfigError::NotUtf8(option));
    }
    Ok(value)
}

fn size_value(args: &[Vec<u8>], i: usize, option: CliOption, maximum: usize) -> (res: Result<
    Vec<usize>,
    ConfigError<Vec<u8>>,
>)
    requires
        i < args@.len(),
    ensures
        same_outcome(
            res,
            spec_size_value(args_view(args@), i as int, option, maximum),
            |v: Vec<usize>| v@,
        ),
{
    let value = text_value(args, i, option)?;
    match parse_sizes(value.as_slice(), maximum) {
        Err(e) => Err(ConfigError::SizeList(option, e)),
        Ok(l) => Ok(l),
    }
}

fn samples_value(args: &[Vec<u8>], i: usize) -> (res: Result<usize, ConfigError<Vec<u8>>>)
    requires
        i < args@.len(),
    ensures
        same_outcome(res, spec_samples_value(args_view(args@), i as int), |n: usize| n),
{
    let value = text_value(args, i, CliOption::Samples)?;
    match parse_usize(value.as_slice()) {
        None => Err(ConfigError::InvalidSamples(value)),
        Some(n) => if n == 0 {
            Err(ConfigError::ZeroSamples)
        } else {
            Ok(n)
        },
    }
}

fn mixed_value(args: &[Vec<u8>], i: usize) -> (res: Result<Vec<usize>, ConfigError<Vec<u8>>>)
    requires
        i < args@.len(),
    ensures
        same_outcome(res, spec_mixed_value(args_view(args@), i as int), |v: Vec<usize>| v@),
{
    let counts = size_value(args, i, CliOption::MixedClaimCounts, MAX_DISTINCT_CLAIMS)?;
    let mut k: usize = 0;
    while k < counts.len()
        invariant
            k <= counts@.len(),
            spec_size_value(args_view(args@), i as int, CliOption::MixedClaimCounts, MAX_DISTINCT_CLAIMS)
                == Ok::<Seq<usize>, ConfigError<Seq<u8>>>(counts@),
            forall|j: int| 0 <= j < k ==> #[trigger] counts@[j] > 1,
        decreases counts@.len() - k,
    {
        if counts[k] <= 1 {
            assert(counts@[k as int] <= 1);
            return Err(ConfigError::MixedClaimCountTooSmall);
        }
        k = k + 1;
    }
    let mut k: usize = 0;
    while k < counts.len()
        invariant
            k <= counts@.len(),
            spec_size_value(args_view(args@), i as int, CliOption::MixedClaimCounts, MAX_DISTINCT_CLAIMS)
                == Ok::<Seq<usize>, ConfigError<Seq<u8>>>(counts@),
            forall|j: int| 0 <= j < counts@.len() ==> #[trigger] counts@[j] > 1,
            forall|j: int| 0 <= j < k ==> MIXED_CLAIM_SIGNATURES % #[trigger] counts@[j] == 0,
        decreases counts@.len() - k,
    {
        if MIXED_CLAIM_SIGNATURES % counts[k] != 0 {
            assert(MIXED_CLAIM_SIGNATURES % counts@[k as int] != 0);
            return Err(ConfigError::MixedClaimCountNotDivisor);
        }
        k = k + 1;
    }
    Ok(counts)
}

fn fan_in_value(args: &[Vec<u8>], i: usize) -> (res: Result<Vec<usize>, ConfigError<Vec<u8>>>)
    requires
        i < args@.len(),
    ensures
        same_outcome(res, spec_fan_in_value(args_view(args@), i as int), |v: Vec<usize>| v@),
{
    let fan_ins = size_value(args, i, CliOption::RecursiveFanIns, MAX_RECURSIVE_FAN_IN)?;
    let mut k: usize = 0;
    while k < fan_ins.len()
        invariant
            k <= fan_ins@.len(),
            spec_size_value(args_view(args@), i as int, CliOption::RecursiveFanIns, MAX_RECURSIVE_FAN_IN)
                == Ok::<Seq<usize>, ConfigError<Seq<u8>>>(fan_ins@),
            forall|j: int| 0 <= j < k ==> #[trigger] fan_ins@[j] >= 2,
        decreases fan_ins@.len() - k,
    {
        if fan_ins[k] < 2 {
            assert(fan_ins@[k as int] < 2);
            return Err(ConfigError::FanInTooSmall);
        }
        k = k + 1;
    }
    Ok(fan_ins)
}

fn path_value(args: &[Vec<u8>], i: usize, option: CliOption) -> (res: Result<
    Vec<u8>,
    ConfigError<Vec<u8>>,
>)
    requires
        i < args@.len(),
    ensures
        same_outcome(res, spec_path_value(args_view(args@), i as int, option), |v: Vec<u8>| v@),
{
    let value = option_value(args, i, option)?;
    if value.len() == 0 {
        return Err(ConfigError::EmptyPath(option));
    }
    Ok(value)
}

/// Reads the argument at `i` into the options; gives whether it consumed
/// the next argument as its value.
pub fn apply_argument(
    args: &[Vec<u8>],
    i: usize,
    st: &mut ParsedOptions<Vec<u8>, Vec<usize>>,
) -> (res: Result<bool, ConfigError<Vec<u8>>>)
    requires
        i < args@.len(),
    ensures
        match spec_step(args_view(args@), i as int, old(st)@) {
            Ok((next, consumed)) => res == Ok::<bool, ConfigError<Vec<u8>>>(consumed)
                && final(st)@ == next,
            Err(e) => res matches Err(x) && x@ == e,
        },
{
    let ghost av = args_view(args@);
    let argument = &args[i];
    assert(av[i as int] == argument@);
    match recognize_option(argument.as_slice()) {
        None => Err(ConfigError::UnknownArgument(argument.clone())),
        Some(CliOption::Samples) => {
            if st.samples.is_some() {
                return Err(ConfigError::Repeated(CliOption::Samples));
            }
            let n = samples_value(args, i)?;
            st.samples = Some(n);
            Ok(true)
        },
        Some(CliOption::Sizes) => {
            if st.sizes.is_some() {
                return Err(ConfigError::Repeated(CliOption::Sizes));
            }
            let l = size_value(args, i, CliOption::Sizes, MAX_DISTINCT_CLAIMS)?;
            st.sizes = Some(l);
            Ok(true)
        },
        Some(CliOption::SameSizes) => {
            if st.same_sizes.is_some() {
                return Err(ConfigError::Repeated(CliOption::SameSizes));
            }
            let l = size_value(args, i, CliOption::SameSizes, MAX_SAME_CLAIM_SIGNERS)?;
            st.same_sizes = Some(l);
            Ok(true)
        },
        Some(CliOption::DistinctSizes) => {
            if st.distinct_sizes.is_some() {
                return Err(ConfigError::Repeated(CliOption::DistinctSizes));
            }
            let l = size_value(args, i, CliOption::DistinctSizes, MAX_DISTINCT_CLAIMS)?;
            st.distinct_sizes = Some(l);
            Ok(true)
        },
        Some(CliOption::MixedClaimCounts) => {
            if st.mixed_claim_counts.is_some() {
                return Err(ConfigError::Repeated(CliOption::MixedClaimCounts));
            }
            let l = mixed_value(args, i)?;
            st.mixed_claim_counts = Some(l);
            Ok(true)
        },
        Some(CliOption::RecursiveFanIns) => {
            if st.recursive_fan_ins.is_some() {
                return Err(ConfigError::Repeated(CliOption::RecursiveFanIns));
            }
            let l = fan_in_value(args, i)?;
            st.recursive_fan_ins = Some(l);
            Ok(true)
        },
        Some(CliOption::Json) => {
            if st.json_path.is_some() {
                return Err(ConfigError::Repeated(CliOption::Json));
            }
            let p = path_value(args, i, CliOption::Json)?;
            st.json_path = Some(p);
            Ok(true)
        },
        Some(CliOption::ActionJson) => {
            if st.action_json_path.is_some() {
                return Err(ConfigError::Repeated(CliOption::ActionJson));
            }
            let p = path_value(args, i, CliOption::ActionJson)?;
            st.action_json_path = Some(p);
            Ok(true)
        },
        Some(CliOption::WarmupProofs) => {
            if st.warmup_proofs {
                return Err(ConfigError::Repeated(CliOption::WarmupProofs));
            }
            st.warmup_proofs = true;
            Ok(false)
        },
    }
}

/// Settings of one slow comparison run.
#[derive(Clone, Debug)]
pub struct RunConfig {
    pub samples: usize,
    pub same_sizes: Vec<usize>,
    pub distinct_sizes: Vec<usize>,
    pub mixed_claim_counts: Vec<usize>,
    pub recursive_fan_ins: Vec<usize>,
    pub json_path: Option<Vec<u8>>,
    pub action_json_path: Option<Vec<u8>>,
    pub warmup_proofs: bool,
}

/// A run configuration as plain values.
pub struct RunConfigModel {
    pub samples: usize,
    pub same_sizes: Seq<usize>,
    pub distinct_sizes: Seq<usize>,
    pub mixed_claim_counts: Seq<usize>,
    pub recursive_fan_ins: Seq<usize>,
    pub json_path: Option<Seq<u8>>,
    pub action_json_path: Option<Seq<u8>>,
    pub warmup_proofs: bool,
}

impl View for RunConfig {
    type V = RunConfigModel;

    open spec fn view(&self) -> RunConfigModel {
        RunConfigModel {
            samples: self.samples,
            same_sizes: self.same_sizes@,
            distinct_sizes: self.distinct_sizes@,
            mixed_claim_counts: self.mixed_claim_counts@,
            recursive_fan_ins: self.recursive_fan_ins@,
            json_path: opt_seq(self.json_path),
            action_json_path: opt_seq(self.action_json_path),
            warmup_proofs: self.warmup_proofs,
        }
    }
}

/// The sizes used on an axis that no option sets.
pub open spec fn default_sizes() -> Seq<usize> {
    seq![1usize, 8usize, 16usize]
}

/// The samples used when `--samples` is absent.
pub const DEFAULT_SAMPLES: usize = 3;

pub open spec fn size_axis(shorthand: Option<Seq<usize>>, specific: Option<Seq<usize>>) -> Seq<usize> {
    match shorthand {
        Some(l) => l,
        None => match specific {
            Some(l) => l,
            None => default_sizes(),
        },
    }
}

pub open spec fn list_or_empty(l: Option<Seq<usize>>) -> Seq<usize> {
    match l {
        Some(l) => l,
        None => Seq::empty(),
    }
}

/// The configuration that the gathered options describe.
pub open spec fn spec_finish(st: OptionsModel) -> Result<RunConfigModel, ConfigError<Seq<u8>>> {
    if st.sizes is Some && st.same_sizes is Some {
        Err(ConfigError::SizesWithSameSizes)
    } else if st.sizes is Some && st.distinct_sizes is Some {
        Err(ConfigError::SizesWithDistinctSizes)
    } else {
        Ok(
            RunConfigModel {
                samples: match st.samples {
                    Some(n) => n,
                    None => DEFAULT_SAMPLES,
                },
                same_sizes: size_axis(st.sizes, st.same_sizes),
                distinct_sizes: size_axis(st.sizes, st.distinct_sizes),
                mixed_claim_counts: list_or_empty(st.mixed_claim_counts),
                recursive_fan_ins: list_or_empty(st.recursive_fan_ins),
                json_path: st.json_path,
                action_json_path: st.action_json_path,
                warmup_proofs: st.warmup_proofs,
            },
        )
    }
}

/// What the arguments (the program name first) configure, before the
/// report paths are compared.
pub open spec fn spec_parse_arguments(args: Seq<Seq<u8>>) -> Result<
    RunConfigModel,
    ConfigError<Seq<u8>>,
> {
    if args.len() == 0 {
        Err(ConfigError::MissingProgramName)
    } else {
        match spec_parse_loop(args, 1, no_options()) {
            Err(e) => Err(e),
            Ok(st) => spec_finish(st),
        }
    }
}

/// What the arguments configure, given the current directory and what the
/// file system says of the two normalized report paths.
pub open spec fn spec_parse_from(
    args: Seq<Seq<u8>>,
    current_dir: Option<Seq<u8>>,
    identity: PathIdentity,
) -> Result<RunConfigModel, ConfigError<Seq<u8>>> {
    match spec_parse_arguments(args) {
        Err(e) => Err(e),
        Ok(config) => match spec_ensure_distinct(
            config.json_path,
            config.action_json_path,
            current_dir,
            identity,
        ) {
            Err(e) => Err(e),
            Ok(()) => Ok(config),
        },
    }
}

fn size_list_or(shorthand: &Option<Vec<usize>>, specific: &Option<Vec<usize>>) -> (l: Vec<usize>)
    ensures
        l@ == size_axis(opt_seq(*shorthand), opt_seq(*specific)),
{
    match shorthand {
        Some(l) => l.clone(),
        None => match specific {
            Some(l) => l.clone(),
            None => {
                let l = vec![1usize, 8usize, 16usize];
                assert(l@ =~= default_sizes());
                l
            },
        },
    }
}

fn list_or_new(l: &Option<Vec<usize>>) -> (res: Vec<usize>)
    ensures
        res@ == list_or_empty(opt_seq(*l)),
{
    match l {
        Some(l) => l.clone(),
        None => Vec::new(),
    }
}

impl RunConfig {
    /// Reads the arguments (the program name first) without comparing the
    /// two report paths.
    pub fn parse_arguments(args: &[Vec<u8>]) -> (res: Result<RunConfig, ConfigError<Vec<u8>>>)
        ensures
            same_outcome(res, spec_parse_arguments(args_view(args@)), |c: RunConfig| c@),
    {
        let ghost av = args_view(args@);
        if args.len() == 0 {
            return Err(ConfigError::MissingProgramName);
        }
        let mut st: ParsedOptions<Vec<u8>, Vec<usize>> = ParsedOptions {
            samples: None,
            sizes: None,
            same_sizes: None,
            distinct_sizes: None,
            mixed_claim_counts: None,
            recursive_fan_ins: None,
            json_path: None,
            action_json_path: None,
            warmup_proofs: false,
        };
        let mut i: usize = 1;
        while i < args.len()
            invariant
                av == args_view(args@),
                1 <= i <= args@.len() + 1,
                spec_parse_loop(av, 1, no_options()) == spec_parse_loop(av, i as nat, st@),
            decreases args@.len() + 1 - i,
        {
            let consumed = apply_argument(args, i, &mut st)?;
            if consumed {
                i = i + 2;
            } else {
                i = i + 1;
            }
        }
        if st.sizes.is_some() && st.same_sizes.is_some() {
            return Err(ConfigError::SizesWithSameSizes);
        }
        if st.sizes.is_some() && st.distinct_sizes.is_some() {
            return Err(ConfigError::SizesWithDistinctSizes);
        }
        let same_sizes = size_list_or(&st.sizes, &st.same_sizes);
        let distinct_sizes = size_list_or(&st.sizes, &st.distinct_sizes);
        let mixed_claim_counts = list_or_new(&st.mixed_claim_counts);
        let recursive_fan_ins = list_or_new(&st.recursive_fan_ins);
        let samples = match st.samples {
            Some(n) => n,
            None => DEFAULT_SAMPLES,
        };
        Ok(RunConfig {
            samples,
            same_sizes,
            distinct_sizes,
            mixed_claim_counts,
            recursive_fan_ins,
            json_path: st.json_path,
            action_json_path: st.action_json_path,
            warmup_proofs: st.warmup_proofs,
        })
    }

    /// Reads the arguments (the program name first). `current_dir` is the
    /// directory that relative report paths are resolved against (`None`
    /// when it is unknown), and `identity` what the file system says of
    /// the two normalized report paths.
    pub fn parse_from(
        args: &[Vec<u8>],
        current_dir: Option<&[u8]>,
        identity: PathIdentity,
    ) -> (res: Result<RunConfig, ConfigError<Vec<u8>>>)
        ensures
            same_outcome(
                res,
                spec_parse_from(args_view(args@), opt_bytes(current_dir), identity),
                |c: RunConfig| c@,
            ),
    {
        let config = RunConfig::parse_arguments(args)?;
        let json = match &config.json_path {
            Some(p) => Some(p.as_slice()),
            None => None,
        };
        let action = match &config.action_json_path {
            Some(p) => Some(p.as_slice()),
            None => None,
        };
        ensure_distinct_output_paths(json, action, current_dir, identity)?;
        Ok(config)
    }
}


/// `l` lists distinct entries, each from `lo` to `hi`.
pub open spec fn valid_list(l: Seq<usize>, lo: int, hi: int) -> bool {
    &&& forall|k: int| 0 <= k < l.len() ==> lo <= #[trigger] l[k] <= hi
    &&& forall|i: int, j: int| 0 <= i < j < l.len() ==> l[i] != l[j]
}

proof fn lemma_size_pieces_valid(pieces: Seq<Seq<u8>>, maximum: usize)
    requires
        parse_size_pieces(pieces, maximum) is Ok,
    ensures
        valid_list(parse_size_pieces(pieces, maximum)->Ok_0, 1, maximum as int),
    decreases pieces.len(),
{
    if pieces.len() > 0 {
        lemma_size_pieces_valid(pieces.drop_last(), maximum);
        let earlier = parse_size_pieces(pieces.drop_last(), maximum)->Ok_0;
        let v = check_size(pieces.last(), maximum, earlier)->Ok_0;
        let l = earlier.push(v);
        assert forall|i: int, j: int| 0 <= i < j < l.len() implies l[i] != l[j] by {
            if j == l.len() - 1 {
                assert(earlier.contains(earlier[i]));
            }
        }
    }
}

/// Every size list that is accepted holds distinct entries from one up to
/// its maximum.
pub proof fn lemma_parsed_sizes_valid(value: Seq<u8>, maximum: usize)
    requires
        spec_parse_sizes(value, maximum) is Ok,
    ensures
        valid_list(spec_parse_sizes(value, maximum)->Ok_0, 1, maximum as int),
{
    lemma_size_pieces_valid(split_on(value, 0x2Cu8), maximum);
}

/// Gathered options keep the documented limits.
pub open spec fn options_within_limits(st: OptionsModel) -> bool {
    &&& st.samples matches Some(n) ==> n > 0
    &&& st.sizes matches Some(l) ==> valid_list(l, 1, MAX_DISTINCT_CLAIMS as int)
    &&& st.same_sizes matches Some(l) ==> valid_list(l, 1, MAX_SAME_CLAIM_SIGNERS as int)
    &&& st.distinct_sizes matches Some(l) ==> valid_list(l, 1, MAX_DISTINCT_CLAIMS as int)
    &&& st.mixed_claim_counts matches Some(l) ==> valid_list(l, 2, MAX_DISTINCT_CLAIMS as int)
        && forall|k: int| 0 <= k < l.len() ==> MIXED_CLAIM_SIGNATURES % #[trigger] l[k] == 0
    &&& st.recursive_fan_ins matches Some(l) ==> valid_list(l, 2, MAX_RECURSIVE_FAN_IN as int)
    &&& st.json_path matches Some(p) ==> p.len() > 0
    &&& st.action_json_path matches Some(p) ==> p.len() > 0
}

proof fn lemma_size_value_valid(args: Seq<Seq<u8>>, i: int, option: CliOption, maximum: usize)
    requires
        spec_size_value(args, i, option, maximum) is Ok,
    ensures
        valid_list(spec_size_value(args, i, option, maximum)->Ok_0, 1, maximum as int),
{
    let v = spec_text_value(args, i, option)->Ok_0;
    lemma_parsed_sizes_valid(v, maximum);
}

proof fn lemma_step_within_limits(args: Seq<Seq<u8>>, i: int, st: OptionsModel)
    requires
        0 <= i < args.len(),
        options_within_limits(st),
        spec_step(args, i, st) is Ok,
    ensures
        options_within_limits(spec_step(args, i, st)->Ok_0.0),
{
    match recognized_option(args[i]) {
        Some(CliOption::Sizes) => {
            lemma_size_value_valid(args, i, CliOption::Sizes, MAX_DISTINCT_CLAIMS);
        },
        Some(CliOption::SameSizes) => {
            lemma_size_value_valid(args, i, CliOption::SameSizes, MAX_SAME_CLAIM_SIGNERS);
        },
        Some(CliOption::DistinctSizes) => {
            lemma_size_value_valid(args, i, CliOption::DistinctSizes, MAX_DISTINCT_CLAIMS);
        },
        Some(CliOption::MixedClaimCounts) => {
            lemma_size_value_valid(args, i, CliOption::MixedClaimCounts, MAX_DISTINCT_CLAIMS);
            let l = spec_mixed_value(args, i)->Ok_0;
            assert(valid_list(l, 2, MAX_DISTINCT_CLAIMS as int)) by {
                assert forall|k: int| 0 <= k < l.len() implies 2 <= #[trigger] l[k]
                    <= MAX_DISTINCT_CLAIMS by {
                    assert(l[k] > 1);
                }
            }
        },
        Some(CliOption::RecursiveFanIns) => {
            lemma_size_value_valid(args, i, CliOption::RecursiveFanIns, MAX_RECURSIVE_FAN_IN);
        },
        _ => {},
    }
}

proof fn lemma_loop_within_limits(args: Seq<Seq<u8>>, i: nat, st: OptionsModel)
    requires
        options_within_limits(st),
        spec_parse_loop(args, i, st) is Ok,
    ensures
        options_within_limits(spec_parse_loop(args, i, st)->Ok_0),
    decreases args.len() - i,
{
    if i < args.len() {
        lemma_step_within_limits(args, i as int, st);
        let (next, consumed) = spec_step(args, i as int, st)->Ok_0;
        lemma_loop_within_limits(args, if consumed { i + 2 } else { i + 1 }, next);
    }
}

/// Every configuration that the runner accepts keeps the documented limits:
/// at least one sample; same-claim sizes distinct from 1 to 512; distinct-
/// claim sizes distinct from 1 to 16; mixed-claim counts distinct from 2 to
/// 16 and dividing the 512 mixed signatures; recursive fan-ins distinct
/// from 2 to 16; non-empty report paths; and, when both report paths are
/// given, paths that do not name the same file.
pub proof fn lemma_accepted_config_within_limits(
    args: Seq<Seq<u8>>,
    current_dir: Option<Seq<u8>>,
    identity: PathIdentity,
)
    requires
        spec_parse_from(args, current_dir, identity) is Ok,
    ensures
        ({
            let c = spec_parse_from(args, current_dir, identity)->Ok_0;
            &&& c.samples > 0
            &&& valid_list(c.same_sizes, 1, MAX_SAME_CLAIM_SIGNERS as int)
            &&& valid_list(c.distinct_sizes, 1, MAX_DISTINCT_CLAIMS as int)
            &&& valid_list(c.mixed_claim_counts, 2, MAX_DISTINCT_CLAIMS as int)
            &&& forall|k: int|
                0 <= k < c.mixed_claim_counts.len() ==> MIXED_CLAIM_SIGNATURES
                    % #[trigger] c.mixed_claim_counts[k] == 0
            &&& valid_list(c.recursive_fan_ins, 2, MAX_RECURSIVE_FAN_IN as int)
            &&& c.json_path matches Some(p) ==> p.len() > 0
            &&& c.action_json_path matches Some(p) ==> p.len() > 0
            &&& (c.json_path is Some && c.action_json_path is Some) ==> spec_paths_collide(
                c.json_path->Some_0,
                c.action_json_path->Some_0,
                current_dir,
                identity,
            ) == Ok::<bool, ConfigError<Seq<u8>>>(false)
        }),
{
    let st = spec_parse_loop(args, 1, no_options())->Ok_0;
    lemma_loop_within_limits(args, 1, no_options());
    let c = spec_parse_from(args, current_dir, identity)->Ok_0;
    assert(valid_list(default_sizes(), 1, MAX_DISTINCT_CLAIMS as int));
    assert(valid_list(Seq::<usize>::empty(), 2, MAX_DISTINCT_CLAIMS as int));
    if st.sizes is Some {
        assert(valid_list(st.sizes->Some_0, 1, MAX_SAME_CLAIM_SIGNERS as int));
    } else if st.same_sizes is None {
        assert(valid_list(default_sizes(), 1, MAX_SAME_CLAIM_SIGNERS as int));
    }
}


/// The argument at `j` is the shorthand option `--sizes`.
pub open spec fn sizes_option_at(args: Seq<Seq<u8>>, j: int) -> bool {
    1 <= j < args.len() && args[j] == option_name(CliOption::Sizes)
}

proof fn lemma_sizes_name_has_dashes()
    ensures
        starts_with_dashes(option_name(CliOption::Sizes)),
{
}

/// A step that consumes the next argument as a value never consumes one
/// that starts with `--`.
proof fn lemma_step_value_has_no_dashes(args: Seq<Seq<u8>>, i: int, st: OptionsModel)
    requires
        0 <= i < args.len(),
        spec_step(args, i, st) is Ok,
        spec_step(args, i, st)->Ok_0.1,
    ensures
        i + 1 < args.len(),
        !starts_with_dashes(args[i + 1]),
{
    let o = recognized_option(args[i])->Some_0;
    assert(spec_option_value(args, i, o) is Ok);
}

proof fn lemma_loop_keeps_sizes(args: Seq<Seq<u8>>, i: nat, st: OptionsModel)
    requires
        spec_parse_loop(args, i, st) is Ok,
        st.sizes is Some || exists|j: int| i <= j && #[trigger] sizes_option_at(args, j),
    ensures
        spec_parse_loop(args, i, st)->Ok_0.sizes is Some,
    decreases args.len() - i,
{
    if i < args.len() {
        let (next, consumed) = spec_step(args, i as int, st)->Ok_0;
        let k: nat = if consumed { i + 2 } else { i + 1 };
        if st.sizes is Some {
            assert(next.sizes is Some);
        } else {
            let j = choose|j: int| i <= j && #[trigger] sizes_option_at(args, j);
            if j == i {
                assert(recognized_option(args[i as int]) == Some(CliOption::Sizes));
                assert(next.sizes is Some);
            } else if consumed && j == i + 1 {
                lemma_step_value_has_no_dashes(args, i as int, st);
                lemma_sizes_name_has_dashes();
                assert(false);
            } else {
                assert(k <= j && sizes_option_at(args, j));
            }
        }
        lemma_loop_keeps_sizes(args, k, next);
    } else {
        if st.sizes is None {
            let j = choose|j: int| i <= j && #[trigger] sizes_option_at(args, j);
            assert(false);
        }
    }
}

/// Given `--sizes`, an accepted configuration uses the same sizes on both
/// axes.
pub proof fn lemma_sizes_shorthand_sets_both_axes(
    args: Seq<Seq<u8>>,
    current_dir: Option<Seq<u8>>,
    identity: PathIdentity,
    j: int,
)
    requires
        spec_parse_from(args, current_dir, identity) is Ok,
        sizes_option_at(args, j),
    ensures
        spec_parse_from(args, current_dir, identity)->Ok_0.same_sizes == spec_parse_from(
            args,
            current_dir,
            identity,
        )->Ok_0.distinct_sizes,
{
    lemma_loop_keeps_sizes(args, 1, no_options());
}

} // verus!

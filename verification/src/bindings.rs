//! The checks and conversions that the language bindings perform around the
//! signature library: fixed 32-byte arguments, public-key lists, key
//! generation requests, asynchronous task descriptions, the C status codes
//! with their last-error message, short hexadecimal renderings and the
//! classification of aggregation errors.

use vstd::prelude::*;
use crate::claim_context::PUBLIC_KEY_LEN;

verus! {

/// A byte string that should have held exactly 32 bytes, and its length.
#[derive(Clone, Copy, Debug, PartialEq, Eq, Structural)]
pub struct LengthError {
    pub got: usize,
}

/// The 32-byte array holding `bytes`, which must be exactly 32 bytes long.
pub fn bytes32(bytes: &[u8]) -> (res: Result<[u8; 32], LengthError>)
    ensures
        bytes@.len() == 32 <==> res is Ok,
        res matches Ok(array) ==> array@ == bytes@,
        res matches Err(e) ==> e.got == bytes@.len(),
{
    if bytes.len() != PUBLIC_KEY_LEN {
        return Err(LengthError { got: bytes.len() });
    }
    let mut array = [0u8; 32];
    let mut i: usize = 0;
    while i < 32
        invariant
            bytes@.len() == 32,
            i <= 32,
            forall|j: int| 0 <= j < i ==> array@[j] == bytes@[j],
        decreases 32 - i,
    {
        array[i] = bytes[i];
        i = i + 1;
    }
    assert(array@ =~= bytes@);
    Ok(array)
}

/// A signing message: exactly 32 bytes, any value.
pub fn message_array(bytes: &[u8]) -> (res: Result<[u8; 32], LengthError>)
    ensures
        bytes@.len() == 32 <==> res is Ok,
        res matches Ok(array) ==> array@ == bytes@,
        res matches Err(e) ==> e.got == bytes@.len(),
{
    bytes32(bytes)
}

/// Every signer has the 32-byte length of a public key.
pub open spec fn all_key_sized(signers: Seq<Vec<u8>>) -> bool {
    forall|i: int| 0 <= i < signers.len() ==> (#[trigger] signers[i])@.len() == 32
}

/// Converts signer byte strings to public keys, failing at the first one
/// that is not exactly 32 bytes long.
pub fn public_keys(signers: &[Vec<u8>]) -> (res: Result<Vec<[u8; 32]>, LengthError>)
    ensures
        all_key_sized(signers@) <==> res is Ok,
        res matches Ok(keys) ==> keys@.len() == signers@.len() && forall|i: int|
            0 <= i < keys@.len() ==> (#[trigger] keys@[i])@ == signers@[i]@,
        res matches Err(e) ==> exists|i: int|
            0 <= i < signers@.len() && all_key_sized(signers@.take(i)) && (#[trigger] signers@[i])@.len()
                != 32 && e.got == signers@[i]@.len(),
{
    let mut keys: Vec<[u8; 32]> = Vec::new();
    let mut i: usize = 0;
    while i < signers.len()
        invariant
            i <= signers@.len(),
            keys@.len() == i,
            all_key_sized(signers@.take(i as int)),
            forall|j: int| 0 <= j < i ==> (#[trigger] keys@[j])@ == signers@[j]@,
        decreases signers@.len() - i,
    {
        match bytes32(signers[i].as_slice()) {
            Ok(key) => {
                keys.push(key);
            },
            Err(e) => {
                assert(!all_key_sized(signers@)) by {
                    assert(signers@[i as int]@.len() != 32);
                }
                return Err(e);
            },
        }
        assert(all_key_sized(signers@.take(i + 1))) by {
            assert forall|j: int| 0 <= j < i + 1 implies (#[trigger] signers@.take(i + 1)[j])@.len()
                == 32 by {
                if j < i {
                    assert(signers@.take(i + 1)[j] == signers@.take(i as int)[j]);
                }
            }
        }
        i = i + 1;
    }
    assert(signers@.take(i as int) =~= signers@);
    Ok(keys)
}

/// Byte length of `count` consecutive public keys, when it fits in `usize`.
pub fn key_list_len(count: usize) -> (len: Option<usize>)
    ensures
        count * 32 <= usize::MAX ==> len == Some((count * 32) as usize),
        count * 32 > usize::MAX ==> len is None,
{
    count.checked_mul(PUBLIC_KEY_LEN)
}

/// What the Python `keygen` hands to key generation: the seed, the first
/// slot and the number of active slots.
#[derive(Clone, Copy, Debug)]
pub struct KeygenRequest {
    pub seed: [u8; 32],
    pub first_slot: u64,
    pub active_slots: u64,
}

/// Slots `slot_start..=slot_end` counted as `slot_end + 1 - slot_start`,
/// and zero for an empty range (which key generation rejects).
pub open spec fn active_slot_count(slot_start: u32, slot_end: u32) -> int {
    if slot_end + 1 >= slot_start {
        slot_end + 1 - slot_start
    } else {
        0
    }
}

/// The key-generation request for a 32-byte seed and the slots
/// `slot_start..=slot_end`.
pub fn keygen_request(seed: &[u8], slot_start: u32, slot_end: u32) -> (res: Result<
    KeygenRequest,
    LengthError,
>)
    ensures
        seed@.len() == 32 <==> res is Ok,
        res matches Err(e) ==> e.got == seed@.len(),
        res matches Ok(r) ==> {
            &&& r.seed@ == seed@
            &&& r.first_slot == slot_start
            &&& r.active_slots == active_slot_count(slot_start, slot_end)
        },
{
    let seed = match bytes32(seed) {
        Ok(s) => s,
        Err(e) => {
            return Err(e);
        },
    };
    let active_slots = (slot_end as u64 + 1).saturating_sub(slot_start as u64);
    Ok(KeygenRequest { seed, first_slot: slot_start as u64, active_slots })
}

/// A pending key generation over `slot_start..=slot_end`.
#[derive(Clone, Copy, Debug)]
pub struct GenerateKeyTask {
    pub slot_start: u32,
    pub slot_end: u32,
}

/// A pending key derivation from a seed over `slot_start..=slot_end`.
#[derive(Clone, Copy, Debug)]
pub struct SeedKeyTask {
    pub seed: [u8; 32],
    pub slot_start: u32,
    pub slot_end: u32,
}

/// A pending key decoding from its serialized bytes.
#[derive(Clone, Debug)]
pub struct BytesKeyTask {
    pub data: Vec<u8>,
}

/// A pending one-time setup of the prover.
#[derive(Clone, Copy, Debug)]
pub struct SetupTask;

/// The task that generates a key for `slot_start..=slot_end`.
pub fn generate_secret_key(slot_start: u32, slot_end: u32) -> (task: GenerateKeyTask)
    ensures
        task.slot_start == slot_start,
        task.slot_end == slot_end,
{
    GenerateKeyTask { slot_start, slot_end }
}

/// The task that derives a key from a 32-byte seed.
pub fn secret_key_from_seed(seed: &[u8], slot_start: u32, slot_end: u32) -> (res: Result<
    SeedKeyTask,
    LengthError,
>)
    ensures
        seed@.len() == 32 <==> res is Ok,
        res matches Err(e) ==> e.got == seed@.len(),
        res matches Ok(task) ==> task.seed@ == seed@ && task.slot_start == slot_start
            && task.slot_end == slot_end,
{
    match bytes32(seed) {
        Ok(seed) => Ok(SeedKeyTask { seed, slot_start, slot_end }),
        Err(e) => Err(e),
    }
}

/// The task that decodes a key from a copy of `data`.
pub fn secret_key_from_bytes(data: &[u8]) -> (task: BytesKeyTask)
    ensures
        task.data@ == data@,
{
    BytesKeyTask { data: vstd::slice::slice_to_vec(data) }
}

/// The one-time setup task.
pub fn setup() -> (task: SetupTask) {
    SetupTask
}

/// Status code of an operation that succeeded.
pub const LMS_OK: i32 = 0;

/// Status code of an operation that failed with an error message.
pub const LMS_ERROR: i32 = 1;

/// Status code of an operation that panicked.
pub const LMS_PANIC: i32 = 2;

/// How a native operation ended.
#[derive(Clone, Debug)]
pub enum Outcome {
    Succeeded,
    Failed(String),
    Panicked,
}

/// The message of the most recent native operation; empty after a success.
pub struct LastError {
    message: String,
}

impl View for LastError {
    type V = Seq<char>;

    closed spec fn view(&self) -> Seq<char> {
        self.message@
    }
}

impl LastError {
    /// No error yet.
    pub fn new() -> (last: LastError)
        ensures
            last@ == Seq::<char>::empty(),
    {
        LastError { message: String::new() }
    }

    /// The recorded message.
    pub fn message(&self) -> (message: &str)
        ensures
            message@ == self@,
    {
        self.message.as_str()
    }
}

/// Records `message` as the last error.
pub fn set_error(last: &mut LastError, message: String)
    ensures
        final(last)@ == message@,
{
    last.message = message;
}

/// The message recorded when an operation panicked.
pub open spec fn panic_message() -> Seq<char> {
    "native lean-multisig operation panicked"@
}

/// The status code of an operation's outcome; records its error message,
/// or clears it after a success.
pub fn ffi_status(outcome: Outcome, last: &mut LastError) -> (code: i32)
    ensures
        outcome is Succeeded ==> code == LMS_OK && final(last)@ == Seq::<char>::empty(),
        outcome matches Outcome::Failed(message) ==> code == LMS_ERROR && final(last)@
            == message@,
        outcome is Panicked ==> code == LMS_PANIC && final(last)@ == panic_message(),
{
    match outcome {
        Outcome::Succeeded => {
            set_error(last, String::new());
            LMS_OK
        },
        Outcome::Failed(message) => {
            set_error(last, message);
            LMS_ERROR
        },
        Outcome::Panicked => {
            let message = String::from_str("native lean-multisig operation panicked");
            set_error(last, message);
            LMS_PANIC
        },
    }
}

/// The lowercase hexadecimal digit of `n < 16`.
pub open spec fn hex_digit(n: int) -> char {
    if n < 10 {
        (('0' as int) + n) as char
    } else {
        (('a' as int) + n - 10) as char
    }
}

/// Two lowercase hexadecimal digits per byte, high nibble first.
pub open spec fn hex_lower(bytes: Seq<u8>) -> Seq<char>
    decreases bytes.len(),
{
    if bytes.len() == 0 {
        Seq::empty()
    } else {
        hex_lower(bytes.drop_last()) + seq![
            hex_digit(bytes.last() as int / 16),
            hex_digit(bytes.last() as int % 16),
        ]
    }
}

/// `hex::encode`: the lowercase hexadecimal spelling of `bytes`, two digits
/// per byte with the high nibble first, as the crate documents it.
#[verifier::external_body]
fn hex_encode(bytes: &[u8]) -> (s: String)
    ensures
        s@ == hex_lower(bytes@),
{
    hex::encode(bytes)
}

/// A short rendering of `bytes`: `0x` and all of it in hexadecimal up to
/// eight bytes; beyond that the first four and the last four bytes around
/// an ellipsis.
pub open spec fn spec_short_hex(bytes: Seq<u8>) -> Seq<char> {
    if bytes.len() <= 8 {
        "0x"@ + hex_lower(bytes)
    } else {
        "0x"@ + hex_lower(bytes.subrange(0, 4)) + "\u{2026}"@ + hex_lower(
            bytes.subrange(bytes.len() - 4, bytes.len() as int),
        )
    }
}

/// A short hexadecimal rendering of `bytes` (see `spec_short_hex`).
pub fn short_hex(bytes: &[u8]) -> (s: String)
    ensures
        s@ == spec_short_hex(bytes@),
{
    let mut s = String::from_str("0x");
    if bytes.len() <= 8 {
        let digits = hex_encode(bytes);
        s.append(digits.as_str());
    } else {
        let head = hex_encode(vstd::slice::slice_subrange(bytes, 0, 4));
        let tail = hex_encode(vstd::slice::slice_subrange(bytes, bytes.len() - 4, bytes.len()));
        s.append(head.as_str());
        s.append("\u{2026}");
        s.append(tail.as_str());
    }
    s
}

/// The kinds of error that aggregation reports.
#[derive(Clone, Copy, Debug, PartialEq, Eq, Structural)]
pub enum AggregationErrorKind {
    EmptyAggregation,
    LimitExceeded,
    InvalidSplitIndex,
    InconsistentChildren,
    UnknownMessage,
    MultipleMessages,
    Prover,
    InvalidChildProof,
}

/// The Python exception an aggregation error becomes.
#[derive(Clone, Copy, Debug, PartialEq, Eq, Structural)]
pub enum PyErrorClass {
    /// The arguments were wrong: sizes, indices or inconsistent inputs.
    ValueError,
    /// Proving or verifying failed.
    AggregationError,
}

/// Argument-shaped aggregation errors are value errors; prover and
/// child-proof failures are aggregation errors.
pub open spec fn spec_error_class(kind: AggregationErrorKind) -> PyErrorClass {
    match kind {
        AggregationErrorKind::Prover => PyErrorClass::AggregationError,
        AggregationErrorKind::InvalidChildProof => PyErrorClass::AggregationError,
        _ => PyErrorClass::ValueError,
    }
}

/// The Python exception class of an aggregation error (see
/// `spec_error_class`).
pub fn aggregation_error_class(kind: AggregationErrorKind) -> (class: PyErrorClass)
    ensures
        class == spec_error_class(kind),
{
    match kind {
        AggregationErrorKind::EmptyAggregation
        | AggregationErrorKind::LimitExceeded
        | AggregationErrorKind::InvalidSplitIndex
        | AggregationErrorKind::InconsistentChildren
        | AggregationErrorKind::UnknownMessage
        | AggregationErrorKind::MultipleMessages => PyErrorClass::ValueError,
        AggregationErrorKind::Prover | AggregationErrorKind::InvalidChildProof => {
            PyErrorClass::AggregationError
        },
    }
}

} // verus!

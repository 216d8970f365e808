//! Batched timing for the slow comparison runner: calibrating how many
//! operations a batch needs, normalizing a batch's duration to one
//! operation, and running operations in batches and paired samples.
//! Durations are nanosecond counts.

use vstd::prelude::*;

verus! {

/// Why a batch could not be calibrated, run or normalized.
#[derive(Clone, Copy, Debug, PartialEq, Eq, Structural)]
pub enum BatchError {
    /// The minimum batch duration is zero.
    ZeroTarget,
    /// A batch took no measurable time.
    ZeroElapsed,
    /// A calibration batch took no measurable time.
    ZeroCalibrationElapsed,
    /// A batch of zero operations was asked for.
    ZeroIterations,
    /// The iteration estimate does not fit in `u128`.
    EstimateOverflow,
    /// The iteration estimate does not fit in `usize`.
    EstimateTooLarge,
    /// The next iteration count does not fit in `usize`.
    CountOverflow,
    /// No batch reached the minimum duration within `MAX_CALIBRATION_STEPS`.
    NotCalibrated,
    /// The per-operation duration rounds down to zero.
    RoundedToZero,
    /// The per-operation duration does not fit in `u64` nanoseconds.
    DurationTooLarge,
    /// No paired sample was asked for.
    NoSamples,
}

/// What to do after a calibration batch.
#[derive(Clone, Copy, Debug, PartialEq, Eq, Structural)]
pub enum CalibrationStep {
    /// The batch was long enough: use this many iterations.
    Done(usize),
    /// Measure again with this many iterations.
    Retry(usize),
}

/// Most calibration batches measured before giving up.
pub const MAX_CALIBRATION_STEPS: usize = 8;

/// The decision after a batch of `iterations` operations took `elapsed_ns`:
/// done when it reached `minimum_ns`; otherwise retry with the iteration
/// count scaled up to the target (rounded up), but at least one more.
pub open spec fn spec_calibration_next(minimum_ns: u128, iterations: usize, elapsed_ns: u128) -> Result<
    CalibrationStep,
    BatchError,
> {
    if elapsed_ns == 0 {
        Err(BatchError::ZeroCalibrationElapsed)
    } else if elapsed_ns >= minimum_ns {
        Ok(CalibrationStep::Done(iterations))
    } else if minimum_ns * iterations > u128::MAX {
        Err(BatchError::EstimateOverflow)
    } else if minimum_ns * iterations + (elapsed_ns - 1) > u128::MAX {
        Err(BatchError::EstimateOverflow)
    } else {
        let estimated = (minimum_ns * iterations + (elapsed_ns - 1)) / (elapsed_ns as int);
        if estimated > usize::MAX {
            Err(BatchError::EstimateTooLarge)
        } else if iterations + 1 > usize::MAX {
            Err(BatchError::CountOverflow)
        } else if estimated >= iterations + 1 {
            Ok(CalibrationStep::Retry(estimated as usize))
        } else {
            Ok(CalibrationStep::Retry((iterations + 1) as usize))
        }
    }
}

/// The decision after one calibration batch (see `spec_calibration_next`).
pub fn calibration_next(minimum_ns: u128, iterations: usize, elapsed_ns: u128) -> (res: Result<
    CalibrationStep,
    BatchError,
>)
    ensures
        res == spec_calibration_next(minimum_ns, iterations, elapsed_ns),
{
    if elapsed_ns == 0 {
        return Err(BatchError::ZeroCalibrationElapsed);
    }
    if elapsed_ns >= minimum_ns {
        return Ok(CalibrationStep::Done(iterations));
    }
    let numerator = match minimum_ns.checked_mul(iterations as u128) {
        None => {
            return Err(BatchError::EstimateOverflow);
        },
        Some(n) => n,
    };
    let rounded = match numerator.checked_add(elapsed_ns - 1) {
        None => {
            return Err(BatchError::EstimateOverflow);
        },
        Some(n) => n,
    };
    let estimated = rounded / elapsed_ns;
    if estimated > usize::MAX as u128 {
        return Err(BatchError::EstimateTooLarge);
    }
    let estimated = estimated as usize;
    let next = match iterations.checked_add(1) {
        None => {
            return Err(BatchError::CountOverflow);
        },
        Some(n) => n,
    };
    if estimated >= next {
        Ok(CalibrationStep::Retry(estimated))
    } else {
        Ok(CalibrationStep::Retry(next))
    }
}

/// Why calibration stopped: a batch measurement failed, or a calibration
/// check did.
#[derive(Clone, Debug)]
pub enum CalibrationError<E> {
    Measure(E),
    Batch(BatchError),
}

/// `its` and `elapsed` record the calibration batches of a run that asked
/// `measure` (in its successive states `states`) for each iteration count
/// and got each duration back, every step retrying with the next count.
pub open spec fn calibration_trace<F: FnMut(usize) -> Result<u128, E>, E>(
    minimum_ns: u128,
    measure: F,
    states: Seq<F>,
    its: Seq<usize>,
    elapsed: Seq<u128>,
) -> bool {
    &&& its.len() == elapsed.len()
    &&& states.len() == its.len()
    &&& its.len() > 0 ==> its[0] == 1 && states[0] == measure
    &&& forall|k: int|
        0 <= k < its.len() ==> call_ensures(
            #[trigger] states[k],
            (its[k],),
            Ok::<u128, E>(elapsed[k]),
        )
    &&& forall|k: int|
        0 <= k < its.len() - 1 ==> #[trigger] spec_calibration_next(minimum_ns, its[k], elapsed[k])
            == Ok::<CalibrationStep, BatchError>(CalibrationStep::Retry(its[k + 1]))
}

/// Finds an iteration count whose batch lasts at least `minimum_ns`,
/// starting from one iteration and taking at most `MAX_CALIBRATION_STEPS`
/// measurements.
pub fn calibrate_batch_iterations<F: FnMut(usize) -> Result<u128, E>, E>(
    minimum_ns: u128,
    measure_batch: F,
) -> (res: Result<usize, CalibrationError<E>>)
    requires
        forall|f: F, n: usize| call_requires(f, (n,)),
    ensures
        minimum_ns == 0 <==> res matches Err(CalibrationError::Batch(BatchError::ZeroTarget)),
        res matches Ok(n) ==> exists|states: Seq<F>, its: Seq<usize>, elapsed: Seq<u128>|
            {
                &&& calibration_trace(minimum_ns, measure_batch, states, its, elapsed)
                &&& 0 < its.len() <= MAX_CALIBRATION_STEPS
                &&& spec_calibration_next(minimum_ns, its.last(), elapsed.last()) == Ok::<
                    CalibrationStep,
                    BatchError,
                >(CalibrationStep::Done(n))
            },
        res matches Err(CalibrationError::Measure(x)) ==> exists|
            states: Seq<F>,
            its: Seq<usize>,
            elapsed: Seq<u128>,
            last: F,
            iterations: usize,
        |
            {
                &&& calibration_trace(minimum_ns, measure_batch, states, its, elapsed)
                &&& its.len() < MAX_CALIBRATION_STEPS
                &&& its.len() == 0 ==> iterations == 1 && last == measure_batch
                &&& its.len() > 0 ==> spec_calibration_next(minimum_ns, its.last(), elapsed.last())
                    == Ok::<CalibrationStep, BatchError>(CalibrationStep::Retry(iterations))
                &&& call_ensures(last, (iterations,), Err::<u128, E>(x))
            },
        minimum_ns > 0 ==> (res matches Err(CalibrationError::Batch(e)) ==> exists|
            states: Seq<F>,
            its: Seq<usize>,
            elapsed: Seq<u128>,
        |
            {
                &&& calibration_trace(minimum_ns, measure_batch, states, its, elapsed)
                &&& 0 < its.len() <= MAX_CALIBRATION_STEPS
                &&& {
                    ||| spec_calibration_next(minimum_ns, its.last(), elapsed.last()) == Err::<
                        CalibrationStep,
                        BatchError,
                    >(e)
                    ||| e == BatchError::NotCalibrated && its.len() == MAX_CALIBRATION_STEPS
                        && spec_calibration_next(minimum_ns, its.last(), elapsed.last()) is Ok
                }
            }),
{
    if minimum_ns == 0 {
        return Err(CalibrationError::Batch(BatchError::ZeroTarget));
    }
    let mut measure = measure_batch;
    let ghost first = measure_batch;
    let ghost mut states: Seq<F> = Seq::empty();
    let ghost mut its: Seq<usize> = Seq::empty();
    let ghost mut elapsed_seen: Seq<u128> = Seq::empty();
    let mut iterations: usize = 1;
    let mut step: usize = 0;
    while step < MAX_CALIBRATION_STEPS
        invariant
            forall|f: F, n: usize| call_requires(f, (n,)),
            minimum_ns > 0,
            step <= MAX_CALIBRATION_STEPS,
            its.len() == step,
            calibration_trace(minimum_ns, first, states, its, elapsed_seen),
            first == measure_batch,
            step == 0 ==> iterations == 1 && measure == first,
            step > 0 ==> spec_calibration_next(minimum_ns, its.last(), elapsed_seen.last()) == Ok::<
                CalibrationStep,
                BatchError,
            >(CalibrationStep::Retry(iterations)),
        decreases MAX_CALIBRATION_STEPS - step,
    {
        let ghost before = measure;
        let measured = measure(iterations);
        let elapsed = match measured {
            Ok(e) => e,
            Err(e) => {
                assert(call_ensures(before, (iterations,), Err::<u128, E>(e)));
                assert(calibration_trace(minimum_ns, measure_batch, states, its, elapsed_seen));
                assert(its.len() == 0 ==> iterations == 1 && before == measure_batch);
                let res: Result<usize, CalibrationError<E>> = Err(CalibrationError::Measure(e));
                assert(res->Err_0->Measure_0 == e);
                return res;
            },
        };
        proof {
            let old_its = its;
            let old_elapsed = elapsed_seen;
            states = states.push(before);
            its = its.push(iterations);
            elapsed_seen = elapsed_seen.push(elapsed);
            assert forall|k: int| 0 <= k < its.len() implies call_ensures(
                #[trigger] states[k],
                (its[k],),
                Ok::<u128, E>(elapsed_seen[k]),
            ) by {
                if k < old_its.len() {
                    assert(states[k] == states.drop_last()[k]);
                }
            }
            assert forall|k: int| 0 <= k < its.len() - 1 implies #[trigger] spec_calibration_next(
                minimum_ns,
                its[k],
                elapsed_seen[k],
            ) == Ok::<CalibrationStep, BatchError>(CalibrationStep::Retry(its[k + 1])) by {
                if k < old_its.len() - 1 {
                    assert(its[k] == old_its[k] && its[k + 1] == old_its[k + 1]);
                    assert(elapsed_seen[k] == old_elapsed[k]);
                } else {
                    assert(its[k] == old_its.last() && elapsed_seen[k] == old_elapsed.last());
                }
            }
        }
        match calibration_next(minimum_ns, iterations, elapsed) {
            Err(e) => {
                assert(its.last() == iterations && elapsed_seen.last() == elapsed);
                assert(calibration_trace(minimum_ns, measure_batch, states, its, elapsed_seen));
                return Err(CalibrationError::Batch(e));
            },
            Ok(CalibrationStep::Done(n)) => {
                assert(its.last() == iterations && elapsed_seen.last() == elapsed);
                assert(calibration_trace(minimum_ns, measure_batch, states, its, elapsed_seen));
                return Ok(n);
            },
            Ok(CalibrationStep::Retry(n)) => {
                iterations = n;
            },
        }
        step = step + 1;
    }
    assert(calibration_trace(minimum_ns, measure_batch, states, its, elapsed_seen));
    Err(CalibrationError::Batch(BatchError::NotCalibrated))
}

/// The duration of one operation of a batch: the batch's duration divided
/// by its iterations, rounded down.
pub open spec fn spec_normalize(elapsed_ns: u128, iterations: usize) -> Result<u64, BatchError> {
    if iterations == 0 {
        Err(BatchError::ZeroIterations)
    } else if elapsed_ns == 0 {
        Err(BatchError::ZeroElapsed)
    } else if elapsed_ns / (iterations as u128) == 0 {
        Err(BatchError::RoundedToZero)
    } else if elapsed_ns / (iterations as u128) > u64::MAX {
        Err(BatchError::DurationTooLarge)
    } else {
        Ok((elapsed_ns / (iterations as u128)) as u64)
    }
}

/// The duration of one operation of a batch (see `spec_normalize`).
pub fn normalize_batch_duration(elapsed_ns: u128, iterations: usize) -> (res: Result<u64, BatchError>)
    ensures
        res == spec_normalize(elapsed_ns, iterations),
{
    if iterations == 0 {
        return Err(BatchError::ZeroIterations);
    }
    if elapsed_ns == 0 {
        return Err(BatchError::ZeroElapsed);
    }
    let nanoseconds = elapsed_ns / (iterations as u128);
    if nanoseconds == 0 {
        return Err(BatchError::RoundedToZero);
    }
    if nanoseconds > 0xffff_ffff_ffff_ffffu128 {
        return Err(BatchError::DurationTooLarge);
    }
    Ok(nanoseconds as u64)
}

/// Why a batched sample was not recorded.
#[derive(Clone, Debug)]
pub enum SampleError<E> {
    /// Running or validating the batch failed.
    Operation(E),
    /// The batch's duration could not be normalized.
    Batch(BatchError),
}

/// Runs one batch, validates its result, and records the per-operation
/// duration; nothing is recorded unless all three succeed.
pub fn record_batched_sample<T, E, R, V>(
    durations: &mut Vec<u64>,
    iterations: usize,
    run_batch: R,
    validate: V,
) -> (res: Result<T, SampleError<E>>) where
    R: FnOnce(usize) -> Result<(u128, T), E>,
    V: FnOnce(&T) -> Result<(), E>,

    requires
        call_requires(run_batch, (iterations,)),
        forall|t: &T| call_requires(validate, (t,)),
    ensures
        res is Ok ==> exists|elapsed: u128, checked: Result<(), E>, d: u64|
            {
                &&& call_ensures(run_batch, (iterations,), Ok::<(u128, T), E>((elapsed, res->Ok_0)))
                &&& checked is Ok && call_ensures(validate, (&res->Ok_0,), checked)
                &&& spec_normalize(elapsed, iterations) == Ok::<u64, BatchError>(d)
                &&& final(durations)@ == old(durations)@.push(d)
            },
        res is Err ==> final(durations)@ == old(durations)@,
        res matches Err(SampleError::Operation(x)) ==> call_ensures(
            run_batch,
            (iterations,),
            Err::<(u128, T), E>(x),
        ) || exists|elapsed: u128, v: T|
            call_ensures(run_batch, (iterations,), Ok::<(u128, T), E>((elapsed, v)))
                && call_ensures(validate, (&v,), Err::<(), E>(x)),
        res matches Err(SampleError::Batch(b)) ==> exists|
            elapsed: u128,
            v: T,
            checked: Result<(), E>,
        |
            {
                &&& call_ensures(run_batch, (iterations,), Ok::<(u128, T), E>((elapsed, v)))
                &&& checked is Ok && call_ensures(validate, (&v,), checked)
                &&& spec_normalize(elapsed, iterations) == Err::<u64, BatchError>(b)
            },
{
    let ran = run_batch(iterations);
    let (elapsed, value) = match ran {
        Ok(r) => r,
        Err(e) => {
            let res: Result<T, SampleError<E>> = Err(SampleError::Operation(e));
            assert(res->Err_0->Operation_0 == e);
            return res;
        },
    };
    let checked = validate(&value);
    match checked {
        Ok(()) => {},
        Err(e) => {
            assert(call_ensures(run_batch, (iterations,), Ok::<(u128, T), E>((elapsed, value))));
            assert(call_ensures(validate, (&value,), Err::<(), E>(e)));
            let res: Result<T, SampleError<E>> = Err(SampleError::Operation(e));
            assert(res->Err_0->Operation_0 == e);
            return res;
        },
    }
    let duration = match normalize_batch_duration(elapsed, iterations) {
        Ok(d) => d,
        Err(e) => {
            assert(call_ensures(run_batch, (iterations,), Ok::<(u128, T), E>((elapsed, value))));
            assert(checked is Ok && call_ensures(validate, (&value,), checked));
            return Err(SampleError::Batch(e));
        },
    };
    durations.push(duration);
    assert(call_ensures(run_batch, (iterations,), Ok::<(u128, T), E>((elapsed, value))));
    assert(checked is Ok && call_ensures(validate, (&value,), checked));
    let res: Result<T, SampleError<E>> = Ok(value);
    assert(durations@ == old(durations)@.push(duration));
    assert(spec_normalize(elapsed, iterations) == Ok::<u64, BatchError>(duration));
    assert(res->Ok_0 == value);
    res
}

/// `outs` records the results of successive calls of an operation (in its
/// successive states `states`), the first in state `first`.
pub open spec fn call_trace<F: FnMut() -> T, T>(first: F, states: Seq<F>, outs: Seq<T>) -> bool {
    &&& states.len() == outs.len()
    &&& states.len() > 0 ==> states[0] == first
    &&& forall|k: int| 0 <= k < outs.len() ==> call_ensures(#[trigger] states[k], (), outs[k])
}

pub open spec fn all_true(outs: Seq<bool>) -> bool {
    forall|k: int| 0 <= k < outs.len() ==> #[trigger] outs[k]
}

/// A wall-clock start time.
#[verifier::external_type_specification]
#[verifier::external_body]
pub struct ExInstant(std::time::Instant);

/// Reads the monotonic clock (`std::time::Instant::now`); nothing is known
/// of the reading.
#[verifier::external_body]
fn start_clock() -> std::time::Instant {
    std::time::Instant::now()
}

/// The time since `start` (`std::time::Instant::elapsed`); nothing is known
/// of the reading.
#[verifier::external_body]
fn elapsed_since(start: &std::time::Instant) -> std::time::Duration {
    start.elapsed()
}

/// The whole nanoseconds of a duration (`std::time::Duration::as_nanos`);
/// durations are opaque here, so nothing is stated of the count.
#[verifier::external_body]
fn duration_nanos(duration: std::time::Duration) -> u128 {
    duration.as_nanos()
}

/// Nanoseconds since `start`.
fn elapsed_nanos(start: &std::time::Instant) -> u128 {
    let elapsed = elapsed_since(start);
    duration_nanos(elapsed)
}

/// Runs `operation` `iterations` times; gives the elapsed nanoseconds and
/// whether every call returned `true`.
pub fn time_bool_batch<F: FnMut() -> bool>(iterations: usize, mut operation: F) -> (res: Result<
    (u128, bool),
    BatchError,
>)
    requires
        forall|f: F| call_requires(f, ()),
    ensures
        iterations == 0 <==> res == Err::<(u128, bool), BatchError>(BatchError::ZeroIterations),
        iterations > 0 ==> (res matches Ok(r) && exists|states: Seq<F>, outs: Seq<bool>|
            {
                &&& call_trace(operation, states, outs)
                &&& outs.len() == iterations
                &&& r.1 == all_true(outs)
            }),
{
    if iterations == 0 {
        return Err(BatchError::ZeroIterations);
    }
    let start = start_clock();
    let ghost first = operation;
    let ghost mut states: Seq<F> = Seq::empty();
    let ghost mut outs: Seq<bool> = Seq::empty();
    let mut all_valid = true;
    let mut k: usize = 0;
    while k < iterations
        invariant
            forall|f: F| call_requires(f, ()),
            k <= iterations,
            outs.len() == k,
            call_trace(first, states, outs),
            k == 0 ==> operation == first,
            all_valid == all_true(outs),
        decreases iterations - k,
    {
        let ghost before = operation;
        let ghost prev = outs;
        let r = operation();
        proof {
            states = states.push(before);
            outs = outs.push(r);
            assert forall|j: int| 0 <= j < outs.len() implies call_ensures(
                #[trigger] states[j],
                (),
                outs[j],
            ) by {
                if j < prev.len() {
                    assert(states[j] == states.drop_last()[j]);
                }
            }
        }
        all_valid = all_valid && r;
        proof {
            if all_valid {
                assert forall|j: int| 0 <= j < outs.len() implies #[trigger] outs[j] by {
                    if j < prev.len() {
                        assert(outs[j] == prev[j]);
                    }
                }
            } else if r {
                let j = choose|j: int| 0 <= j < prev.len() && !prev[j];
                assert(outs[j] == prev[j]);
            } else {
                assert(!outs[outs.len() - 1]);
            }
        }
        k = k + 1;
    }
    let elapsed = elapsed_nanos(&start);
    Ok((elapsed, all_valid))
}

/// Runs `operation` `iterations` times; gives the elapsed nanoseconds and
/// the last call's result.
pub fn time_last_value_batch<F: FnMut() -> T, T>(iterations: usize, mut operation: F) -> (res:
    Result<(u128, T), BatchError>)
    requires
        forall|f: F| call_requires(f, ()),
    ensures
        iterations == 0 ==> res matches Err(BatchError::ZeroIterations),
        iterations > 0 ==> (res matches Ok(r) && exists|states: Seq<F>, outs: Seq<T>|
            {
                &&& call_trace(operation, states, outs)
                &&& outs.len() == iterations
                &&& r.1 == outs.last()
            }),
{
    if iterations == 0 {
        return Err(BatchError::ZeroIterations);
    }
    let start = start_clock();
    let ghost first = operation;
    let ghost mut states: Seq<F> = Seq::empty();
    let ghost mut outs: Seq<T> = Seq::empty();
    let mut retained = operation();
    proof {
        states = states.push(first);
        outs = outs.push(retained);
    }
    let mut k: usize = 1;
    while k < iterations
        invariant
            forall|f: F| call_requires(f, ()),
            1 <= k <= iterations,
            outs.len() == k,
            call_trace(first, states, outs),
            retained == outs.last(),
        decreases iterations - k,
    {
        let ghost before = operation;
        let ghost prev = outs;
        let r = operation();
        proof {
            states = states.push(before);
            outs = outs.push(r);
            assert forall|j: int| 0 <= j < outs.len() implies call_ensures(
                #[trigger] states[j],
                (),
                outs[j],
            ) by {
                if j < prev.len() {
                    assert(states[j] == states.drop_last()[j]);
                }
            }
        }
        retained = r;
        k = k + 1;
    }
    let elapsed = elapsed_nanos(&start);
    Ok((elapsed, retained))
}

/// Why paired sampling stopped.
#[derive(Clone, Debug)]
pub enum PairedError<E> {
    /// Zero samples were asked for.
    NoSamples,
    /// A step failed.
    Step(E),
}

/// The implementation a paired-sample step runs.
#[derive(Clone, Copy, Debug, PartialEq, Eq, Structural)]
pub enum Implementation {
    Lighthouse,
    Lean,
}

/// Step `k` of the paired schedule: sample `k / 2`, Lighthouse first on even
/// samples and Lean first on odd ones, so that neither implementation
/// always runs second.
pub open spec fn paired_step(k: int) -> (Implementation, usize) {
    let sample = k / 2;
    let first = k % 2 == 0;
    let side = if (sample % 2 == 0) == first {
        Implementation::Lighthouse
    } else {
        Implementation::Lean
    };
    (side, sample as usize)
}

/// The steps of `samples` paired samples, two per sample.
pub open spec fn paired_schedule(samples: nat) -> Seq<(Implementation, usize)> {
    Seq::new(2 * samples, |k: int| paired_step(k))
}

/// `outs` are the results of running the first `outs.len()` steps of the
/// schedule of `samples` samples, `step` (in its successive states
/// `states`) making every call, all but the last one succeeding.
pub open spec fn paired_trace<F: FnMut(Implementation, usize) -> Result<(), E>, E>(
    step: F,
    samples: nat,
    states: Seq<F>,
    outs: Seq<Result<(), E>>,
) -> bool {
    &&& states.len() == outs.len()
    &&& outs.len() <= 2 * samples
    &&& outs.len() > 0 ==> states[0] == step
    &&& forall|j: int|
        0 <= j < outs.len() ==> call_ensures(
            #[trigger] states[j],
            paired_schedule(samples)[j],
            outs[j],
        )
    &&& forall|j: int| 0 <= j < outs.len() - 1 ==> (#[trigger] outs[j]) is Ok
}

/// Runs `samples` paired samples: for each sample in order, Lighthouse then
/// Lean on even samples and Lean then Lighthouse on odd ones, stopping right
/// after the first failing step.
pub fn for_each_paired_sample<F, E>(samples: usize, step: F) -> (res: Result<
    (),
    PairedError<E>,
>) where F: FnMut(Implementation, usize) -> Result<(), E>,
    requires
        forall|f: F, side: Implementation, s: usize| call_requires(f, (side, s)),
    ensures
        samples == 0 <==> res matches Err(PairedError::NoSamples),
        samples > 0 ==> exists|states: Seq<F>, outs: Seq<Result<(), E>>|
            {
                &&& paired_trace(step, samples as nat, states, outs)
                &&& res is Ok <==> outs.len() == 2 * samples && outs.last() is Ok
                &&& res matches Err(PairedError::Step(e)) ==> outs.len() > 0 && outs.last()
                    == Err::<(), E>(e)
                &&& res is Err ==> outs.len() > 0 && outs.last() is Err
            },
{
    if samples == 0 {
        return Err(PairedError::NoSamples);
    }
    let mut run = step;
    let ghost first = step;
    let ghost mut states: Seq<F> = Seq::empty();
    let ghost mut outs: Seq<Result<(), E>> = Seq::empty();
    let mut sample: usize = 0;
    while sample < samples
        invariant
            forall|f: F, side: Implementation, s: usize| call_requires(f, (side, s)),
            0 < samples,
            sample <= samples,
            outs.len() == 2 * sample,
            paired_trace(first, samples as nat, states, outs),
            outs.len() > 0 ==> outs.last() is Ok,
            first == step,
            sample == 0 ==> run == first,
        decreases samples - sample,
    {
        let (first_side, second_side) = if sample % 2 == 0 {
            (Implementation::Lighthouse, Implementation::Lean)
        } else {
            (Implementation::Lean, Implementation::Lighthouse)
        };
        assert(paired_schedule(samples as nat)[2 * sample as int] == (first_side, sample));
        assert(paired_schedule(samples as nat)[2 * sample + 1] == (second_side, sample));
        let ghost before_first = run;
        let ghost prev = outs;
        let ghost prev_states = states;
        let out_first = run(first_side, sample);
        proof {
            states = states.push(before_first);
            outs = outs.push(out_first);
            assert forall|j: int| 0 <= j < outs.len() implies call_ensures(
                #[trigger] states[j],
                paired_schedule(samples as nat)[j],
                outs[j],
            ) by {
                if j < prev.len() {
                    assert(states[j] == prev_states[j] && outs[j] == prev[j]);
                }
            }
            assert forall|j: int| 0 <= j < outs.len() - 1 implies (#[trigger] outs[j]) is Ok by {
                assert(outs[j] == prev[j]);
            }
        }
        if let Err(e) = out_first {
            let res: Result<(), PairedError<E>> = Err(PairedError::Step(e));
            assert(res->Err_0->Step_0 == e);
            assert(outs.last() == Err::<(), E>(e));
            assert(paired_trace(step, samples as nat, states, outs));
            assert(res is Err);
            assert(outs.len() > 0 && outs.last() is Err);
            return res;
        }
        let ghost before_second = run;
        let ghost prev = outs;
        let ghost prev_states = states;
        let out_second = run(second_side, sample);
        proof {
            states = states.push(before_second);
            outs = outs.push(out_second);
            assert forall|j: int| 0 <= j < outs.len() implies call_ensures(
                #[trigger] states[j],
                paired_schedule(samples as nat)[j],
                outs[j],
            ) by {
                if j < prev.len() {
                    assert(states[j] == prev_states[j] && outs[j] == prev[j]);
                }
            }
            assert forall|j: int| 0 <= j < outs.len() - 1 implies (#[trigger] outs[j]) is Ok by {
                assert(outs[j] == prev[j]);
            }
        }
        if let Err(e) = out_second {
            let res: Result<(), PairedError<E>> = Err(PairedError::Step(e));
            assert(res->Err_0->Step_0 == e);
            assert(outs.last() == Err::<(), E>(e));
            assert(paired_trace(step, samples as nat, states, outs));
            assert(res is Err);
            assert(outs.len() > 0 && outs.last() is Err);
            return res;
        }
        sample = sample + 1;
    }
    Ok(())
}

/// Runs the warm-up exactly once when enabled, and not at all otherwise.
pub fn run_optional_warmup<T, E, W: FnOnce() -> Result<T, E>>(enabled: bool, warmup: W) -> (res:
    Result<Option<T>, E>)
    requires
        enabled ==> call_requires(warmup, ()),
    ensures
        !enabled ==> res matches Ok(None),
        enabled ==> exists|r: Result<T, E>|
            call_ensures(warmup, (), r) && (match r {
                Ok(v) => res matches Ok(Some(w)) && w == v,
                Err(e) => res matches Err(x) && x == e,
            }),
{
    if enabled {
        match warmup() {
            Ok(v) => Ok(Some(v)),
            Err(e) => Err(e),
        }
    } else {
        Ok(None)
    }
}


/// A calibration step stops exactly when the batch reached the target, with
/// the iterations it measured; otherwise it retries with more iterations,
/// at least enough to reach the target at the measured rate.
pub proof fn lemma_calibration_step(minimum_ns: u128, iterations: usize, elapsed_ns: u128)
    requires
        elapsed_ns > 0,
    ensures
        spec_calibration_next(minimum_ns, iterations, elapsed_ns) matches Ok(CalibrationStep::Done(n))
            ==> n == iterations && elapsed_ns >= minimum_ns,
        spec_calibration_next(minimum_ns, iterations, elapsed_ns) matches Ok(
            CalibrationStep::Retry(n),
        ) ==> n > iterations && n * elapsed_ns >= minimum_ns * iterations && elapsed_ns
            < minimum_ns,
        elapsed_ns >= minimum_ns ==> spec_calibration_next(minimum_ns, iterations, elapsed_ns)
            == Ok::<CalibrationStep, BatchError>(CalibrationStep::Done(iterations)),
{
    if elapsed_ns < minimum_ns && minimum_ns * iterations <= u128::MAX && minimum_ns * iterations
        + (elapsed_ns - 1) <= u128::MAX {
        let num = minimum_ns * iterations;
        let e = elapsed_ns as int;
        let estimated = (num + (e - 1)) / e;
        assert(estimated * e >= num) by (nonlinear_arith)
            requires
                e > 0,
                num >= 0,
                estimated == (num + (e - 1)) / e,
        ;
        if estimated <= usize::MAX && iterations + 1 <= usize::MAX && estimated < iterations + 1 {
            let n = iterations + 1;
            assert(n * e >= estimated * e) by (nonlinear_arith)
                requires
                    n >= estimated,
                    e > 0,
            ;
        }
    }
}


/// Every sample runs both implementations once, Lighthouse first exactly on
/// even samples, and the samples come in order.
pub proof fn lemma_paired_schedule_alternates(samples: nat, s: int)
    requires
        0 <= s < samples,
    ensures
        paired_schedule(samples).len() == 2 * samples,
        paired_schedule(samples)[2 * s] == (if s % 2 == 0 {
            Implementation::Lighthouse
        } else {
            Implementation::Lean
        }, s as usize),
        paired_schedule(samples)[2 * s + 1] == (if s % 2 == 0 {
            Implementation::Lean
        } else {
            Implementation::Lighthouse
        }, s as usize),
{
}

} // verus!

use std::cell::RefCell;
use std::rc::Rc;

use lean_multisig_bindings::batch::{
    calibrate_batch_iterations, calibration_next, for_each_paired_sample, Implementation, normalize_batch_duration,
    record_batched_sample, run_optional_warmup, time_bool_batch, time_last_value_batch, BatchError,
    CalibrationError, CalibrationStep, PairedError, SampleError, MAX_CALIBRATION_STEPS,
};

const MS: u128 = 1_000_000;

#[test]
fn calibration_scales_batch_and_counts_invocations() {
    let observed = RefCell::new(Vec::new());

    let iterations = calibrate_batch_iterations(10 * MS, |iterations: usize| -> Result<u128, String> {
        observed.borrow_mut().push(iterations);
        Ok(iterations as u128 * MS)
    })
    .unwrap();

    assert_eq!(iterations, 10);
    assert_eq!(*observed.borrow(), vec![1, 10]);
}

#[test]
fn calibration_rejects_zero_target_and_zero_elapsed() {
    assert!(calibrate_batch_iterations(0, |_: usize| -> Result<u128, String> { Ok(1) }).is_err());
    assert!(
        calibrate_batch_iterations(10 * MS, |_: usize| -> Result<u128, String> { Ok(0) }).is_err()
    );
}

#[test]
fn calibration_reports_each_rejection() {
    assert!(matches!(
        calibrate_batch_iterations(0, |_: usize| -> Result<u128, String> { Ok(1) }),
        Err(CalibrationError::Batch(BatchError::ZeroTarget))
    ));
    assert!(matches!(
        calibrate_batch_iterations(10 * MS, |_: usize| -> Result<u128, String> { Ok(0) }),
        Err(CalibrationError::Batch(BatchError::ZeroCalibrationElapsed))
    ));
    match calibrate_batch_iterations(10 * MS, |_: usize| -> Result<u128, String> {
        Err("clock failed".to_owned())
    }) {
        Err(CalibrationError::Measure(message)) => assert_eq!(message, "clock failed"),
        _ => panic!("the measurement error must be passed on"),
    }
}

#[test]
fn calibration_gives_up_after_the_step_limit() {
    let calls = RefCell::new(Vec::new());
    // Every batch takes one nanosecond whatever its size, so each step
    // doubles the estimate and none reaches the two-nanosecond target.
    let result = calibrate_batch_iterations(2, |iterations: usize| -> Result<u128, String> {
        calls.borrow_mut().push(iterations);
        Ok(1)
    });
    assert!(matches!(
        result,
        Err(CalibrationError::Batch(BatchError::NotCalibrated))
    ));
    assert_eq!(calls.borrow().len(), MAX_CALIBRATION_STEPS);
    assert_eq!(*calls.borrow(), vec![1, 2, 4, 8, 16, 32, 64, 128]);
}

#[test]
fn calibration_step_rounds_the_estimate_up() {
    // 10 ms wanted, 3 iterations took 4 ms: 30 / 4 rounds up to 8.
    assert_eq!(
        calibration_next(10 * MS, 3, 4 * MS),
        Ok(CalibrationStep::Retry(8))
    );
    // An estimate below the next count still grows by one iteration.
    assert_eq!(
        calibration_next(10, 5, 9),
        Ok(CalibrationStep::Retry(6))
    );
    assert_eq!(calibration_next(10, 5, 10), Ok(CalibrationStep::Done(5)));
    assert_eq!(calibration_next(10, 5, 0), Err(BatchError::ZeroCalibrationElapsed));
    assert_eq!(
        calibration_next(u128::MAX, 2, 1),
        Err(BatchError::EstimateOverflow)
    );
}

#[test]
fn batch_duration_is_normalized_per_operation() {
    assert_eq!(normalize_batch_duration(12 * MS, 4).unwrap(), (3 * MS) as u64);
    assert!(normalize_batch_duration(0, 1).is_err());
    assert!(normalize_batch_duration(1, 0).is_err());
    assert!(normalize_batch_duration(1, 2).is_err());
}

#[test]
fn batch_duration_errors_name_their_cause() {
    assert_eq!(normalize_batch_duration(0, 1), Err(BatchError::ZeroElapsed));
    assert_eq!(normalize_batch_duration(1, 0), Err(BatchError::ZeroIterations));
    assert_eq!(normalize_batch_duration(1, 2), Err(BatchError::RoundedToZero));
    assert_eq!(
        normalize_batch_duration(u128::MAX, 1),
        Err(BatchError::DurationTooLarge)
    );
    assert_eq!(normalize_batch_duration(7, 2), Ok(3));
}

#[test]
fn batch_recording_counts_invocations_and_excludes_invalid_result() {
    let mut durations = Vec::new();
    let mut invocations = 0;
    let value = record_batched_sample(
        &mut durations,
        4,
        |iterations: usize| -> Result<(u128, bool), String> {
            invocations += iterations;
            Ok((12 * MS, true))
        },
        |valid: &bool| -> Result<(), String> {
            if *valid {
                Ok(())
            } else {
                Err("invalid batch".to_owned())
            }
        },
    )
    .unwrap();

    assert!(value);
    assert_eq!(invocations, 4);
    assert_eq!(durations, vec![(3 * MS) as u64]);

    let error = record_batched_sample(
        &mut durations,
        4,
        |_: usize| -> Result<(u128, bool), String> { Ok((12 * MS, false)) },
        |valid: &bool| -> Result<(), String> {
            if *valid {
                Ok(())
            } else {
                Err("invalid batch".to_owned())
            }
        },
    )
    .unwrap_err();
    match error {
        SampleError::Operation(message) => assert!(message.contains("invalid batch")),
        SampleError::Batch(_) => panic!("the validation error must be passed on"),
    }
    assert_eq!(durations, vec![(3 * MS) as u64]);
}

#[test]
fn batch_recording_keeps_nothing_from_an_unnormalizable_batch() {
    let mut durations = vec![5u64];
    let result = record_batched_sample(
        &mut durations,
        4,
        |_: usize| -> Result<(u128, ()), String> { Ok((3, ())) },
        |_: &()| -> Result<(), String> { Ok(()) },
    );
    assert!(matches!(result, Err(SampleError::Batch(BatchError::RoundedToZero))));
    assert_eq!(durations, vec![5]);
}

#[test]
fn timed_bool_batch_invokes_every_operation_and_tracks_any_failure() {
    let mut invocations = 0;
    let (_, all_valid) = time_bool_batch(5, || {
        invocations += 1;
        invocations != 3
    })
    .unwrap();

    assert_eq!(invocations, 5);
    assert!(!all_valid);
}

#[test]
fn timed_bool_batch_reports_all_valid_and_rejects_empty_batches() {
    let mut invocations = 0;
    let (_, all_valid) = time_bool_batch(3, || {
        invocations += 1;
        true
    })
    .unwrap();
    assert!(all_valid);
    assert_eq!(invocations, 3);
    assert_eq!(time_bool_batch(0, || true), Err(BatchError::ZeroIterations));
}

#[test]
fn timed_last_value_batch_invokes_every_operation_and_retains_last() {
    let mut invocations = 0;
    let (_, retained) = time_last_value_batch(4, || {
        invocations += 1;
        invocations
    })
    .unwrap();

    assert_eq!(invocations, 4);
    assert_eq!(retained, 4);
}

#[test]
fn timed_last_value_batch_rejects_empty_batches() {
    let mut invocations = 0;
    let result = time_last_value_batch(0, || {
        invocations += 1;
        invocations
    });
    assert!(matches!(result, Err(BatchError::ZeroIterations)));
    assert_eq!(invocations, 0);
}

#[test]
fn paired_samples_alternate_bls_and_lean_order() {
    let order = Rc::new(RefCell::new(Vec::new()));
    let steps = Rc::clone(&order);

    for_each_paired_sample(3, |side: Implementation, sample: usize| -> Result<(), String> {
        let name = match side {
            Implementation::Lean => "lean",
            Implementation::Lighthouse => "lighthouse",
        };
        steps.borrow_mut().push(format!("{name}-{sample}"));
        Ok(())
    })
    .unwrap();

    assert_eq!(
        *order.borrow(),
        vec![
            "lighthouse-0",
            "lean-0",
            "lean-1",
            "lighthouse-1",
            "lighthouse-2",
            "lean-2",
        ]
    );
}

#[test]
fn paired_samples_stop_at_the_first_failure_and_need_a_sample() {
    let calls = RefCell::new(Vec::new());
    let result = for_each_paired_sample(4, |side: Implementation, sample: usize| -> Result<(), String> {
        calls.borrow_mut().push((side, sample));
        if side == Implementation::Lean && sample == 1 {
            Err("lean failed".to_owned())
        } else {
            Ok(())
        }
    });
    match result {
        Err(PairedError::Step(message)) => assert_eq!(message, "lean failed"),
        _ => panic!("the failing step must stop the run"),
    }
    assert_eq!(
        *calls.borrow(),
        vec![
            (Implementation::Lighthouse, 0),
            (Implementation::Lean, 0),
            (Implementation::Lean, 1),
        ]
    );

    let mut called = false;
    let none = for_each_paired_sample(0, |_: Implementation, _: usize| -> Result<(), String> {
        called = true;
        Ok(())
    });
    assert!(matches!(none, Err(PairedError::NoSamples)));
    assert!(!called);
}

#[test]
fn optional_proof_warmup_runs_exactly_once_only_when_enabled() {
    let mut invocations = 0;
    let disabled = run_optional_warmup(false, || -> Result<i32, String> {
        invocations += 1;
        Ok(1)
    })
    .unwrap();
    assert!(disabled.is_none());
    assert_eq!(invocations, 0);

    let enabled = run_optional_warmup(true, || -> Result<i32, String> {
        invocations += 1;
        Ok(2)
    })
    .unwrap();
    assert_eq!(enabled, Some(2));
    assert_eq!(invocations, 1);
}

#[test]
fn optional_warmup_passes_on_its_failure() {
    let result = run_optional_warmup(true, || -> Result<i32, String> { Err("no proof".to_owned()) });
    assert_eq!(result, Err("no proof".to_owned()));
}

#[test]
fn batch_errors_have_their_messages() {
    assert_eq!(
        BatchError::ZeroCalibrationElapsed.message(),
        "calibration batch duration must be greater than zero"
    );
    assert_eq!(
        BatchError::NotCalibrated.message(),
        "failed to calibrate a batch in 8 steps"
    );
    assert_eq!(
        BatchError::NoSamples.message(),
        "at least one paired sample is required"
    );
}

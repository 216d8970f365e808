use lean_multisig_bindings::bindings::{
    aggregation_error_class, bytes32, ffi_status, generate_secret_key, key_list_len,
    keygen_request, message_array, public_keys, secret_key_from_bytes, secret_key_from_seed,
    set_error, setup, short_hex, AggregationErrorKind, LastError, LengthError, Outcome,
    PyErrorClass, LMS_ERROR, LMS_OK, LMS_PANIC,
};

#[test]
fn bytes32_accepts_exactly_32_bytes() {
    let bytes: Vec<u8> = (0..32).collect();
    let array = bytes32(&bytes).unwrap();
    assert_eq!(array.to_vec(), bytes);
    assert_eq!(bytes32(&[0u8; 31]), Err(LengthError { got: 31 }));
    assert_eq!(bytes32(&[0u8; 33]), Err(LengthError { got: 33 }));
    assert_eq!(message_array(&[]), Err(LengthError { got: 0 }));
    assert_eq!(message_array(&[42u8; 32]), Ok([42u8; 32]));
}

#[test]
fn public_keys_stop_at_the_first_bad_length() {
    let good = vec![vec![1u8; 32], vec![2u8; 32]];
    assert_eq!(public_keys(&good), Ok(vec![[1u8; 32], [2u8; 32]]));

    let bad = vec![vec![1u8; 32], vec![2u8; 5], vec![3u8; 7]];
    assert_eq!(public_keys(&bad), Err(LengthError { got: 5 }));
    assert_eq!(public_keys(&[]), Ok(vec![]));
}

#[test]
fn key_list_length_is_checked() {
    assert_eq!(key_list_len(3), Some(96));
    assert_eq!(key_list_len(usize::MAX), None);
}

#[test]
fn keygen_counts_the_active_slots() {
    let request = keygen_request(&[7u8; 32], 100, 115).unwrap();
    assert_eq!(request.seed, [7u8; 32]);
    assert_eq!(request.first_slot, 100);
    assert_eq!(request.active_slots, 16);

    assert_eq!(keygen_request(&[7u8; 32], 5, 5).unwrap().active_slots, 1);
    assert_eq!(keygen_request(&[7u8; 32], 6, 5).unwrap().active_slots, 0);
    assert_eq!(keygen_request(&[7u8; 32], 9, 5).unwrap().active_slots, 0);
    assert_eq!(
        keygen_request(&[7u8; 32], 0, u32::MAX).unwrap().active_slots,
        u32::MAX as u64 + 1
    );
    assert!(matches!(
        keygen_request(&[7u8; 16], 0, 1),
        Err(LengthError { got: 16 })
    ));
}

#[test]
fn node_tasks_carry_their_arguments() {
    let task = generate_secret_key(100, 115);
    assert_eq!((task.slot_start, task.slot_end), (100, 115));

    let seeded = secret_key_from_seed(&[7u8; 32], 1, 2).unwrap();
    assert_eq!(seeded.seed, [7u8; 32]);
    assert_eq!((seeded.slot_start, seeded.slot_end), (1, 2));
    assert!(matches!(
        secret_key_from_seed(&[7u8; 3], 1, 2),
        Err(LengthError { got: 3 })
    ));

    assert_eq!(secret_key_from_bytes(&[1, 2, 3]).data, vec![1, 2, 3]);
    let _ = setup();
}

#[test]
fn ffi_status_codes_and_last_error() {
    let mut last = LastError::new();
    assert_eq!(last.message(), "");

    assert_eq!(
        ffi_status(Outcome::Failed("bad seed".to_owned()), &mut last),
        LMS_ERROR
    );
    assert_eq!(last.message(), "bad seed");

    assert_eq!(ffi_status(Outcome::Panicked, &mut last), LMS_PANIC);
    assert_eq!(last.message(), "native lean-multisig operation panicked");

    assert_eq!(ffi_status(Outcome::Succeeded, &mut last), LMS_OK);
    assert_eq!(last.message(), "");

    set_error(&mut last, "explicit".to_owned());
    assert_eq!(last.message(), "explicit");
    assert_eq!((LMS_OK, LMS_ERROR, LMS_PANIC), (0, 1, 2));
}

#[test]
fn short_hex_abbreviates_long_byte_strings() {
    assert_eq!(short_hex(&[]), "0x");
    assert_eq!(short_hex(&[0x01, 0xab]), "0x01ab");
    assert_eq!(short_hex(&[0xff; 8]), "0xffffffffffffffff");
    let long: Vec<u8> = (0..10).collect();
    assert_eq!(short_hex(&long), "0x00010203\u{2026}06070809");
}

#[test]
fn aggregation_errors_split_into_argument_and_proof_failures() {
    for kind in [
        AggregationErrorKind::EmptyAggregation,
        AggregationErrorKind::LimitExceeded,
        AggregationErrorKind::InvalidSplitIndex,
        AggregationErrorKind::InconsistentChildren,
        AggregationErrorKind::UnknownMessage,
        AggregationErrorKind::MultipleMessages,
    ] {
        assert_eq!(aggregation_error_class(kind), PyErrorClass::ValueError);
    }
    assert_eq!(
        aggregation_error_class(AggregationErrorKind::Prover),
        PyErrorClass::AggregationError
    );
    assert_eq!(
        aggregation_error_class(AggregationErrorKind::InvalidChildProof),
        PyErrorClass::AggregationError
    );
}

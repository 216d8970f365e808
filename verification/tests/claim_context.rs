use lean_multisig_bindings::claim_context::{
    decode_groups, encode_groups, split_keys, take_bytes, take_u32, Claim, ClaimSigners,
    ContextError, ContextField, MAX_CLAIMS,
};

fn group(message: u8, slot: u32, signers: &[u8]) -> ClaimSigners {
    ClaimSigners {
        claim: Claim::new([message; 32], slot),
        signers: signers.iter().map(|s| [*s; 32]).collect(),
    }
}

fn header(count: u32) -> Vec<u8> {
    let mut bytes = b"LMCG".to_vec();
    bytes.push(1);
    bytes.extend_from_slice(&count.to_le_bytes());
    bytes
}

fn same_groups(left: &[ClaimSigners], right: &[ClaimSigners]) -> bool {
    left.len() == right.len()
        && left.iter().zip(right).all(|(l, r)| {
            l.claim.message() == r.claim.message()
                && l.claim.slot() == r.claim.slot()
                && l.signers == r.signers
        })
}

#[test]
fn encoding_has_the_documented_layout() {
    let bytes = encode_groups(&[group(7, 0x0102_0304, &[9, 10])]).unwrap();

    let mut expected = header(1);
    expected.extend_from_slice(&[7; 32]);
    expected.extend_from_slice(&[0x04, 0x03, 0x02, 0x01]);
    expected.extend_from_slice(&[2, 0, 0, 0]);
    expected.extend_from_slice(&[9; 32]);
    expected.extend_from_slice(&[10; 32]);
    assert_eq!(bytes, expected);
    assert_eq!(encode_groups(&[]).unwrap(), header(0));
}

#[test]
fn decoding_gives_back_what_was_encoded() {
    let groups = vec![group(1, 5, &[2, 3, 4]), group(5, 6, &[]), group(9, 0, &[8])];
    let bytes = encode_groups(&groups).unwrap();
    let decoded = decode_groups(&bytes).unwrap();

    assert!(same_groups(&decoded, &groups));
    assert_eq!(encode_groups(&decoded).unwrap(), bytes);
}

#[test]
fn decoding_rejects_bad_headers() {
    assert_eq!(decode_groups(b"LMCG\x01\x00\x00\x00").unwrap_err(), ContextError::Malformed);
    assert_eq!(
        decode_groups(b"LMCX\x01\x00\x00\x00\x00").unwrap_err(),
        ContextError::Malformed
    );
    assert_eq!(
        decode_groups(b"LMCG\x02\x00\x00\x00\x00").unwrap_err(),
        ContextError::Malformed
    );
    assert!(decode_groups(&header(0)).unwrap().is_empty());
}

#[test]
fn decoding_rejects_too_many_groups() {
    assert_eq!(
        decode_groups(&header(MAX_CLAIMS as u32 + 1)).unwrap_err(),
        ContextError::TooManyGroups(MAX_CLAIMS as u32 + 1)
    );
}

#[test]
fn decoding_names_the_truncated_field() {
    let bytes = encode_groups(&[group(1, 2, &[3])]).unwrap();

    assert_eq!(
        decode_groups(&bytes[..9 + 31]).unwrap_err(),
        ContextError::Truncated(ContextField::Message)
    );
    assert_eq!(
        decode_groups(&bytes[..9 + 32 + 3]).unwrap_err(),
        ContextError::Truncated(ContextField::Slot)
    );
    assert_eq!(
        decode_groups(&bytes[..9 + 32 + 4 + 1]).unwrap_err(),
        ContextError::Truncated(ContextField::SignerCount)
    );
    assert_eq!(
        decode_groups(&bytes[..bytes.len() - 1]).unwrap_err(),
        ContextError::Truncated(ContextField::Signers)
    );
}

#[test]
fn decoding_rejects_trailing_bytes() {
    let mut bytes = encode_groups(&[group(1, 2, &[3])]).unwrap();
    bytes.push(0);
    assert_eq!(decode_groups(&bytes).unwrap_err(), ContextError::TrailingBytes);
}

#[test]
fn cursor_reads_advance_only_on_success() {
    let bytes = [1u8, 2, 3, 4, 5, 6];
    let mut cursor = 1;
    assert_eq!(
        take_u32(&bytes, &mut cursor, ContextField::Slot),
        Ok(u32::from_le_bytes([2, 3, 4, 5]))
    );
    assert_eq!(cursor, 5);
    assert_eq!(
        take_u32(&bytes, &mut cursor, ContextField::Slot),
        Err(ContextError::Truncated(ContextField::Slot))
    );
    assert_eq!(cursor, 5);

    let mut cursor = 2;
    assert_eq!(
        take_bytes(&bytes, &mut cursor, 3, ContextField::Signers),
        Ok(&bytes[2..5])
    );
    assert_eq!(cursor, 5);
    assert_eq!(
        take_bytes(&bytes, &mut cursor, usize::MAX, ContextField::Signers),
        Err(ContextError::LengthOverflow)
    );
    assert_eq!(cursor, 5);
}

#[test]
fn keys_are_split_into_32_byte_chunks() {
    let mut data = vec![1u8; 32];
    data.extend_from_slice(&[2u8; 32]);
    assert_eq!(split_keys(&data, 2), vec![[1u8; 32], [2u8; 32]]);
}

#[test]
fn context_errors_have_their_messages() {
    assert_eq!(
        ContextError::Truncated(ContextField::SignerCount).message(),
        "claim context ends while reading signer count"
    );
    assert_eq!(
        ContextError::TooManyGroups(17).message(),
        "too many claim groups: 17"
    );
    assert_eq!(
        ContextError::TrailingBytes.message(),
        "trailing bytes in Java claim context"
    );
}

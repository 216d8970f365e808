use lean_multisig_bindings::claim_context::Claim;
use lean_multisig_bindings::fixtures::{
    check_fixture_shape, claim_slot, deterministic_key_material, indexed_bytes, last_fixture_slot,
    FixtureError, FixturePlan,
};
use lean_multisig_bindings::limits::{
    MAX_DISTINCT_CLAIMS, MAX_SAME_CLAIM_SIGNERS, MIXED_CLAIM_COUNTS, MIXED_CLAIM_SIGNATURES,
};

fn key(index: u64) -> [u8; 32] {
    let mut bytes = [0u8; 32];
    bytes[24..].copy_from_slice(&(index + 1).to_be_bytes());
    bytes
}

#[test]
fn deterministic_key_material_is_stable_unique_and_nonzero() {
    let first = deterministic_key_material(0).unwrap();
    let second = deterministic_key_material(1).unwrap();

    assert_eq!(first, deterministic_key_material(0).unwrap());
    assert_ne!(first, second);
    assert_ne!(first, [0; 32]);
}

#[test]
fn key_material_is_the_big_endian_successor_of_the_index() {
    let mut expected = [0u8; 32];
    expected[31] = 1;
    assert_eq!(indexed_bytes(0).unwrap(), expected);

    let mut expected = [0u8; 32];
    expected[30] = 0x01;
    expected[31] = 0x00;
    assert_eq!(indexed_bytes(255).unwrap(), expected);

    assert_eq!(indexed_bytes(0x0102_0304).unwrap(), key(0x0102_0304));
    assert_eq!(
        indexed_bytes(usize::MAX),
        Err(FixtureError::IndexNotEncodable(usize::MAX))
    );
}

#[test]
fn fixtures_have_the_requested_unique_signers() {
    let fixtures = FixturePlan::same_claim(3).unwrap();

    assert_eq!(fixtures.len(), 3);
    assert_eq!(fixtures.signers.len(), 3);
    assert_ne!(fixtures.signers[0].seed, fixtures.signers[1].seed);
    assert_ne!(fixtures.signers[1].seed, fixtures.signers[2].seed);
    assert_eq!(fixtures.signers[2].seed, key(2));
}

#[test]
fn bls_only_same_claim_fixtures_scale_to_512_signers() {
    let fixtures = FixturePlan::bls_same_claim(MAX_SAME_CLAIM_SIGNERS).unwrap();

    assert_eq!(fixtures.len(), MAX_SAME_CLAIM_SIGNERS);
    assert_eq!(fixtures.claim_count(), 1);
    assert!(fixtures
        .signers
        .iter()
        .all(|signer| signer.message == key(0) && signer.message_index == 0));
}

#[test]
fn bls_only_distinct_claim_fixtures_use_and_verify_distinct_messages() {
    let fixtures = FixturePlan::bls_distinct_claims(3).unwrap();

    assert_ne!(fixtures.signers[0].message, fixtures.signers[1].message);
    assert_eq!(fixtures.signers[2].message, key(2));
}

#[test]
fn distinct_fixtures_use_distinct_messages_and_slots() {
    let fixtures = FixturePlan::distinct_claims(3).unwrap();
    let claims = fixtures.lean_claims().unwrap();

    assert_eq!(claims[0].slot(), 0);
    assert_eq!(claims[1].slot(), 1);
    assert_ne!(claims[0].message(), claims[1].message());
    assert_ne!(fixtures.signers[0].message, fixtures.signers[1].message);
}

#[test]
fn mixed_claim_fixtures_distribute_signers_evenly() {
    let fixtures = FixturePlan::mixed_claims(8, 2).unwrap();
    let groups = fixtures.claim_groups();

    assert_eq!(fixtures.claim_count(), 2);
    assert_eq!(groups.len(), 2);
    assert!(groups.iter().all(|group| group.len() == 4));
    assert_eq!(groups[0], vec![0, 2, 4, 6]);
    assert_eq!(groups[1], vec![1, 3, 5, 7]);
    assert_eq!(fixtures.signers[0].message, fixtures.signers[2].message);
    assert_ne!(fixtures.signers[0].message, fixtures.signers[1].message);
}

#[test]
fn mixed_claim_fixtures_validate_the_requested_shape() {
    assert!(FixturePlan::mixed_claims(8, 0).is_err());
    assert!(FixturePlan::mixed_claims(8, 3).is_err());
    assert!(FixturePlan::mixed_claims(8, 9).is_err());
    assert!(FixturePlan::mixed_claims(8, MAX_DISTINCT_CLAIMS + 1).is_err());
    assert!(FixturePlan::mixed_claims(MAX_SAME_CLAIM_SIGNERS + 1, 1).is_err());
    assert_eq!(MIXED_CLAIM_COUNTS, [8, 16]);
    assert_eq!(MIXED_CLAIM_SIGNATURES / MIXED_CLAIM_COUNTS[0], 64);
    assert_eq!(MIXED_CLAIM_SIGNATURES / MIXED_CLAIM_COUNTS[1], 32);
}

#[test]
fn mixed_claim_shape_errors_name_their_cause() {
    assert_eq!(
        FixturePlan::mixed_claims(8, 0).unwrap_err(),
        FixtureError::ZeroClaimCount
    );
    assert_eq!(
        FixturePlan::mixed_claims(8, 3).unwrap_err(),
        FixtureError::NotDivisible
    );
    assert_eq!(
        FixturePlan::mixed_claims(8, 9).unwrap_err(),
        FixtureError::ClaimCountExceedsCount
    );
    assert_eq!(
        FixturePlan::mixed_claims(8, 17).unwrap_err(),
        FixtureError::TooManyMixedClaims(17)
    );
    assert_eq!(
        FixturePlan::mixed_claims(513, 1).unwrap_err(),
        FixtureError::TooManyMixedSignatures(513)
    );
    assert_eq!(check_fixture_shape(0, 0), Err(FixtureError::ZeroCount));
    assert_eq!(check_fixture_shape(6, 3), Ok(()));
}

#[test]
fn configured_mixed_claim_fixtures_have_even_signer_groups() {
    for claim_count in MIXED_CLAIM_COUNTS {
        let fixtures = FixturePlan::mixed_claims(MIXED_CLAIM_SIGNATURES, claim_count).unwrap();
        let groups = fixtures.claim_groups();

        assert_eq!(groups.len(), claim_count);
        assert!(groups
            .iter()
            .all(|group| group.len() == MIXED_CLAIM_SIGNATURES / claim_count));
    }
}

#[test]
fn fixture_xmss_keys_have_exactly_the_supported_claim_slots() {
    let last_slot = u32::try_from(MAX_DISTINCT_CLAIMS - 1).unwrap();

    assert_eq!(last_fixture_slot(), last_slot);
    assert_eq!(claim_slot(3), Ok(3));
}

#[test]
fn fixtures_reject_empty_and_excessive_counts() {
    assert!(FixturePlan::bls_same_claim(0).is_err());
    assert!(FixturePlan::bls_distinct_claims(0).is_err());
    assert!(FixturePlan::same_claim(0).is_err());
    assert!(FixturePlan::distinct_claims(0).is_err());
    assert!(FixturePlan::distinct_claims(MAX_DISTINCT_CLAIMS + 1).is_err());
    assert_eq!(
        FixturePlan::distinct_claims(MAX_DISTINCT_CLAIMS + 1).unwrap_err(),
        FixtureError::TooManyDistinctClaims(MAX_DISTINCT_CLAIMS + 1)
    );
}

#[test]
fn lean_claim_groups_collect_each_claims_signers_in_order() {
    let fixtures = FixturePlan::mixed_claims(6, 3).unwrap();
    let claims = fixtures.lean_claims().unwrap();
    let public_keys: Vec<[u8; 32]> = (0..6u8).map(|i| [i + 100; 32]).collect();

    let groups = fixtures.lean_claim_groups(&claims, &public_keys);

    assert_eq!(groups.len(), 3);
    for (claim_index, group) in groups.iter().enumerate() {
        assert_eq!(group.claim.slot(), claim_index as u32);
        assert_eq!(group.claim.message(), key(claim_index as u64));
        assert_eq!(
            group.signers,
            vec![public_keys[claim_index], public_keys[claim_index + 3]]
        );
    }
    let same = Claim::new(key(0), 0);
    assert_eq!(groups[0].claim.message(), same.message());
}

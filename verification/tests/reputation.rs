use credential_ledger::did;
use credential_ledger::reputation::{EndorsementType, Error, Event, Pallet};
use credential_ledger::Origin;

const INSTITUTION_A: u64 = 1;
const INSTITUTION_B: u64 = 2;
const INSTITUTION_C: u64 = 3;
const VERIFIER: u64 = 5;

const MAX_DOCUMENT_SIZE: u32 = 1024;
const MAX_PUBLIC_KEYS: u32 = 10;
const MAX_ENDORSEMENTS: u32 = 50;
const MAX_COMMENT_SIZE: u32 = 256;

fn new_registries() -> (did::Pallet, Pallet) {
    (
        did::Pallet::new(MAX_PUBLIC_KEYS, MAX_DOCUMENT_SIZE),
        Pallet::new(MAX_ENDORSEMENTS, MAX_COMMENT_SIZE),
    )
}

fn create_did_for_account(identity: &mut did::Pallet, account: u64) {
    let public_key = [account as u8; 32];
    assert!(identity.create_did(account, public_key, did::KeyType::Ed25519, 1).is_ok());
}

fn setup_verified_institution(identity: &mut did::Pallet, account: u64, name: &str) {
    create_did_for_account(identity, account);
    assert!(identity.register_institution(account, name.as_bytes().to_vec(), 1).is_ok());
    assert!(identity.verify_institution(Origin::Root, account).is_ok());
}

fn create_test_endorsement(
    identity: &mut did::Pallet,
    reputation: &mut Pallet,
    endorser: u64,
    endorsee: u64,
) {
    create_did_for_account(identity, endorser);
    create_did_for_account(identity, endorsee);

    let comment = b"Great institution!".to_vec();

    assert!(reputation
        .endorse(identity, endorser, endorsee, EndorsementType::Professional, comment, 5, 1)
        .is_ok());
}

#[test]
fn endorse_works() {
    let (mut identity, mut reputation) = new_registries();

    create_did_for_account(&mut identity, INSTITUTION_A);
    create_did_for_account(&mut identity, INSTITUTION_B);

    let comment = b"Excellent research contributions".to_vec();

    assert!(reputation
        .endorse(
            &identity,
            INSTITUTION_A,
            INSTITUTION_B,
            EndorsementType::Research,
            comment,
            8,
            1
        )
        .is_ok());

    assert_eq!(
        reputation.last_event(),
        Some(&Event::EndorsementCreated {
            endorser: INSTITUTION_A,
            endorsee: INSTITUTION_B,
            endorsement_type: EndorsementType::Research,
            weight: 8,
        })
    );

    assert!(reputation.has_endorsed(INSTITUTION_A, INSTITUTION_B));

    let given = reputation.endorsements_given(INSTITUTION_A);
    assert_eq!(given.len(), 1);
    assert_eq!(given[0].endorsee, INSTITUTION_B);
    assert_eq!(given[0].weight, 8);

    let received = reputation.endorsements_received(INSTITUTION_B);
    assert_eq!(received.len(), 1);
    assert_eq!(received[0].endorser, INSTITUTION_A);

    let score_a = reputation.reputation_scores(INSTITUTION_A);
    assert_eq!(score_a.endorsements_given, 1);

    let score_b = reputation.reputation_scores(INSTITUTION_B);
    assert_eq!(score_b.endorsements_received, 1);
    assert!(score_b.total_score > 0);
}

#[test]
fn endorse_fails_if_endorser_has_no_did() {
    let (mut identity, mut reputation) = new_registries();

    create_did_for_account(&mut identity, INSTITUTION_B);

    let comment = b"Comment".to_vec();

    assert_eq!(
        reputation.endorse(
            &identity,
            INSTITUTION_A,
            INSTITUTION_B,
            EndorsementType::Professional,
            comment,
            5,
            1
        ),
        Err(Error::NoDid)
    );
}

#[test]
fn endorse_fails_if_endorsee_has_no_did() {
    let (mut identity, mut reputation) = new_registries();

    create_did_for_account(&mut identity, INSTITUTION_A);

    let comment = b"Comment".to_vec();

    assert_eq!(
        reputation.endorse(
            &identity,
            INSTITUTION_A,
            INSTITUTION_B,
            EndorsementType::Professional,
            comment,
            5,
            1
        ),
        Err(Error::NoDid)
    );
}

#[test]
fn endorse_fails_if_did_inactive() {
    let (mut identity, mut reputation) = new_registries();

    create_did_for_account(&mut identity, INSTITUTION_A);
    create_did_for_account(&mut identity, INSTITUTION_B);

    assert!(identity.deactivate_did(INSTITUTION_B, 1).is_ok());

    let comment = b"Comment".to_vec();

    assert_eq!(
        reputation.endorse(
            &identity,
            INSTITUTION_A,
            INSTITUTION_B,
            EndorsementType::Professional,
            comment,
            5,
            1
        ),
        Err(Error::DidNotActive)
    );
}

#[test]
fn endorse_fails_for_self_endorsement() {
    let (mut identity, mut reputation) = new_registries();

    create_did_for_account(&mut identity, INSTITUTION_A);

    let comment = b"I'm great!".to_vec();

    assert_eq!(
        reputation.endorse(
            &identity,
            INSTITUTION_A,
            INSTITUTION_A,
            EndorsementType::Professional,
            comment,
            5,
            1
        ),
        Err(Error::CannotEndorseSelf)
    );
}

#[test]
fn endorse_fails_if_already_endorsed() {
    let (mut identity, mut reputation) = new_registries();

    create_did_for_account(&mut identity, INSTITUTION_A);
    create_did_for_account(&mut identity, INSTITUTION_B);

    let comment = b"Good work".to_vec();

    assert!(reputation
        .endorse(
            &identity,
            INSTITUTION_A,
            INSTITUTION_B,
            EndorsementType::Professional,
            comment.clone(),
            5,
            1
        )
        .is_ok());

    assert_eq!(
        reputation.endorse(
            &identity,
            INSTITUTION_A,
            INSTITUTION_B,
            EndorsementType::Academic,
            comment,
            7,
            1
        ),
        Err(Error::AlreadyEndorsed)
    );
}

#[test]
fn endorse_fails_for_invalid_weight() {
    let (mut identity, mut reputation) = new_registries();

    create_did_for_account(&mut identity, INSTITUTION_A);
    create_did_for_account(&mut identity, INSTITUTION_B);

    let comment = b"Comment".to_vec();

    assert_eq!(
        reputation.endorse(
            &identity,
            INSTITUTION_A,
            INSTITUTION_B,
            EndorsementType::Professional,
            comment.clone(),
            0,
            1
        ),
        Err(Error::InvalidWeight)
    );

    assert_eq!(
        reputation.endorse(
            &identity,
            INSTITUTION_A,
            INSTITUTION_B,
            EndorsementType::Professional,
            comment,
            11,
            1
        ),
        Err(Error::InvalidWeight)
    );
}

#[test]
fn multiple_endorsements_from_different_accounts() {
    let (mut identity, mut reputation) = new_registries();

    create_did_for_account(&mut identity, INSTITUTION_A);
    create_did_for_account(&mut identity, INSTITUTION_B);
    create_did_for_account(&mut identity, INSTITUTION_C);

    let comment = b"Great!".to_vec();

    assert!(reputation
        .endorse(
            &identity,
            INSTITUTION_A,
            INSTITUTION_B,
            EndorsementType::Professional,
            comment.clone(),
            5,
            1
        )
        .is_ok());

    assert!(reputation
        .endorse(
            &identity,
            INSTITUTION_C,
            INSTITUTION_B,
            EndorsementType::Academic,
            comment,
            8,
            1
        )
        .is_ok());

    let received = reputation.endorsements_received(INSTITUTION_B);
    assert_eq!(received.len(), 2);

    let score_b = reputation.reputation_scores(INSTITUTION_B);
    assert_eq!(score_b.endorsements_received, 2);
    assert_eq!(score_b.total_score, 40); // 2 * 20 = 40
}

#[test]
fn remove_endorsement_works() {
    let (mut identity, mut reputation) = new_registries();

    create_test_endorsement(&mut identity, &mut reputation, INSTITUTION_A, INSTITUTION_B);

    let initial_score = reputation.reputation_scores(INSTITUTION_B);
    assert_eq!(initial_score.endorsements_received, 1);

    assert!(reputation.remove_endorsement(INSTITUTION_A, INSTITUTION_B).is_ok());

    assert_eq!(
        reputation.last_event(),
        Some(&Event::EndorsementRemoved { endorser: INSTITUTION_A, endorsee: INSTITUTION_B })
    );

    assert!(!reputation.has_endorsed(INSTITUTION_A, INSTITUTION_B));

    let given = reputation.endorsements_given(INSTITUTION_A);
    assert_eq!(given.len(), 0);

    let received = reputation.endorsements_received(INSTITUTION_B);
    assert_eq!(received.len(), 0);

    let final_score = reputation.reputation_scores(INSTITUTION_B);
    assert_eq!(final_score.endorsements_received, 0);
    assert_eq!(final_score.total_score, 0);
}

#[test]
fn remove_endorsement_fails_if_not_found() {
    let (mut identity, mut reputation) = new_registries();

    create_did_for_account(&mut identity, INSTITUTION_A);
    create_did_for_account(&mut identity, INSTITUTION_B);

    assert_eq!(
        reputation.remove_endorsement(INSTITUTION_A, INSTITUTION_B),
        Err(Error::EndorsementNotFound)
    );
}

#[test]
fn record_credential_issuance_works() {
    let (mut identity, mut reputation) = new_registries();

    setup_verified_institution(&mut identity, INSTITUTION_A, "MIT");

    assert!(reputation.record_credential_issuance(Origin::Root, INSTITUTION_A).is_ok());

    let score = reputation.reputation_scores(INSTITUTION_A);
    assert_eq!(score.credentials_issued, 1);
    assert_eq!(score.total_score, 10); // 1 * 10 = 10

    assert!(reputation
        .events()
        .contains(&Event::CredentialIssuanceRecorded { issuer: INSTITUTION_A }));

    assert_eq!(
        reputation.last_event(),
        Some(&Event::ReputationUpdated { account: INSTITUTION_A, new_score: 10 })
    );
}

#[test]
fn record_credential_issuance_fails_for_non_root() {
    let (_identity, mut reputation) = new_registries();

    assert_eq!(
        reputation.record_credential_issuance(Origin::Signed(INSTITUTION_A), INSTITUTION_A),
        Err(Error::BadOrigin)
    );
}

#[test]
fn multiple_credential_issuances_update_score() {
    let (mut identity, mut reputation) = new_registries();

    setup_verified_institution(&mut identity, INSTITUTION_A, "MIT");

    for _ in 0..5 {
        assert!(reputation.record_credential_issuance(Origin::Root, INSTITUTION_A).is_ok());
    }

    let score = reputation.reputation_scores(INSTITUTION_A);
    assert_eq!(score.credentials_issued, 5);
    assert_eq!(score.total_score, 50); // 5 * 10 = 50
}

#[test]
fn record_credential_verification_works() {
    let (mut identity, mut reputation) = new_registries();

    create_did_for_account(&mut identity, VERIFIER);

    assert!(reputation.record_credential_verification(VERIFIER).is_ok());

    let score = reputation.reputation_scores(VERIFIER);
    assert_eq!(score.credentials_verified, 1);
    assert_eq!(score.total_score, 5); // 1 * 5 = 5

    assert!(reputation
        .events()
        .contains(&Event::CredentialVerificationRecorded { verifier: VERIFIER }));

    assert_eq!(
        reputation.last_event(),
        Some(&Event::ReputationUpdated { account: VERIFIER, new_score: 5 })
    );
}

#[test]
fn multiple_verifications_update_score() {
    let (mut identity, mut reputation) = new_registries();

    create_did_for_account(&mut identity, VERIFIER);

    for _ in 0..10 {
        assert!(reputation.record_credential_verification(VERIFIER).is_ok());
    }

    let score = reputation.reputation_scores(VERIFIER);
    assert_eq!(score.credentials_verified, 10);
    assert_eq!(score.total_score, 50); // 10 * 5 = 50
}

#[test]
fn reputation_score_calculation_is_correct() {
    let (mut identity, mut reputation) = new_registries();

    setup_verified_institution(&mut identity, INSTITUTION_A, "MIT");

    // Issue 10 credentials (10 * 10 = 100)
    for _ in 0..10 {
        assert!(reputation.record_credential_issuance(Origin::Root, INSTITUTION_A).is_ok());
    }

    // Receive 5 endorsements (5 * 20 = 100)
    let endorser_accounts = [20u64, 21, 22, 23, 24];
    for endorser in endorser_accounts {
        create_did_for_account(&mut identity, endorser);
        let comment = b"Great!".to_vec();
        assert!(reputation
            .endorse(
                &identity,
                endorser,
                INSTITUTION_A,
                EndorsementType::Professional,
                comment,
                5,
                1
            )
            .is_ok());
    }

    // Expected: 100 (credentials) + 100 (endorsements) = 200
    let score = reputation.reputation_scores(INSTITUTION_A);
    assert_eq!(score.credentials_issued, 10);
    assert_eq!(score.endorsements_received, 5);
    assert_eq!(score.total_score, 200);
}

#[test]
fn reputation_score_caps_at_1000() {
    let (mut identity, mut reputation) = new_registries();

    setup_verified_institution(&mut identity, INSTITUTION_A, "Super Institution");

    // 150 issuances are worth 1500, but the total is capped at 1000.
    for _ in 0..150 {
        assert!(reputation.record_credential_issuance(Origin::Root, INSTITUTION_A).is_ok());
    }

    let score = reputation.reputation_scores(INSTITUTION_A);
    assert_eq!(score.credentials_issued, 150);
    assert_eq!(score.total_score, 1000);
}

#[test]
fn update_reputation_score_manually_works() {
    let (mut identity, mut reputation) = new_registries();

    setup_verified_institution(&mut identity, INSTITUTION_A, "MIT");

    for _ in 0..20 {
        assert!(reputation.record_credential_issuance(Origin::Root, INSTITUTION_A).is_ok());
    }

    for i in 0..10 {
        let endorser = 30 + i;
        create_did_for_account(&mut identity, endorser);
        let comment = b"Great!".to_vec();
        assert!(reputation
            .endorse(
                &identity,
                endorser,
                INSTITUTION_A,
                EndorsementType::Professional,
                comment,
                5,
                1
            )
            .is_ok());
    }

    // Score should be: (20 * 10) + (10 * 20) = 400
    let score = reputation.reputation_scores(INSTITUTION_A);
    assert_eq!(score.credentials_issued, 20);
    assert_eq!(score.endorsements_received, 10);
    assert_eq!(score.total_score, 400);

    assert!(reputation.update_reputation_score(Origin::Root, INSTITUTION_A).is_ok());

    let updated_score = reputation.reputation_scores(INSTITUTION_A);
    assert_eq!(updated_score.total_score, 400);
}

#[test]
fn update_reputation_score_fails_for_non_root() {
    let (_identity, mut reputation) = new_registries();

    assert_eq!(
        reputation.update_reputation_score(Origin::Signed(INSTITUTION_A), INSTITUTION_A),
        Err(Error::BadOrigin)
    );
}

#[test]
fn complete_reputation_lifecycle() {
    let (mut identity, mut reputation) = new_registries();

    setup_verified_institution(&mut identity, INSTITUTION_A, "MIT");
    setup_verified_institution(&mut identity, INSTITUTION_B, "Stanford");

    for _ in 0..5 {
        assert!(reputation.record_credential_issuance(Origin::Root, INSTITUTION_A).is_ok());
    }

    let comment = b"Excellent partner institution".to_vec();
    assert!(reputation
        .endorse(
            &identity,
            INSTITUTION_B,
            INSTITUTION_A,
            EndorsementType::Academic,
            comment,
            9,
            1
        )
        .is_ok());

    let score_a = reputation.reputation_scores(INSTITUTION_A);
    assert_eq!(score_a.credentials_issued, 5);
    assert_eq!(score_a.endorsements_received, 1);
    assert_eq!(score_a.endorsements_given, 0);
    assert_eq!(score_a.total_score, 70); // (5 * 10) + (1 * 20) = 70

    let score_b = reputation.reputation_scores(INSTITUTION_B);
    assert_eq!(score_b.endorsements_given, 1);

    assert!(reputation.remove_endorsement(INSTITUTION_B, INSTITUTION_A).is_ok());

    let final_score = reputation.reputation_scores(INSTITUTION_A);
    assert_eq!(final_score.endorsements_received, 0);
    assert_eq!(final_score.total_score, 50); // Only credentials remain
}

#[test]
fn endorsement_types_are_stored_correctly() {
    let (mut identity, mut reputation) = new_registries();

    create_did_for_account(&mut identity, INSTITUTION_A);
    create_did_for_account(&mut identity, INSTITUTION_B);

    let types = vec![
        EndorsementType::Professional,
        EndorsementType::Academic,
        EndorsementType::Research,
        EndorsementType::Teaching,
        EndorsementType::Innovation,
    ];

    for (i, endorsement_type) in types.iter().enumerate() {
        let endorser = 10 + i as u64;
        create_did_for_account(&mut identity, endorser);

        let comment = format!("Type {}", i).as_bytes().to_vec();

        assert!(reputation
            .endorse(
                &identity,
                endorser,
                INSTITUTION_B,
                endorsement_type.clone(),
                comment,
                5,
                1
            )
            .is_ok());
    }

    let received = reputation.endorsements_received(INSTITUTION_B);
    assert_eq!(received.len(), 5);

    assert_eq!(received[0].endorsement_type, EndorsementType::Professional);
    assert_eq!(received[1].endorsement_type, EndorsementType::Academic);
    assert_eq!(received[2].endorsement_type, EndorsementType::Research);
    assert_eq!(received[3].endorsement_type, EndorsementType::Teaching);
    assert_eq!(received[4].endorsement_type, EndorsementType::Innovation);
}

#[test]
fn high_reputation_institution_example() {
    let (mut identity, mut reputation) = new_registries();

    setup_verified_institution(&mut identity, INSTITUTION_A, "Harvard University");

    for _ in 0..50 {
        assert!(reputation.record_credential_issuance(Origin::Root, INSTITUTION_A).is_ok());
    }

    for i in 0..20 {
        let endorser = 100 + i;
        create_did_for_account(&mut identity, endorser);

        let comment = b"Excellent!".to_vec();

        assert!(reputation
            .endorse(
                &identity,
                endorser,
                INSTITUTION_A,
                EndorsementType::Academic,
                comment,
                8,
                1
            )
            .is_ok());
    }

    // Expected score: (50 * 10) + (20 * 20) = 900
    let score = reputation.reputation_scores(INSTITUTION_A);
    assert_eq!(score.credentials_issued, 50);
    assert_eq!(score.endorsements_received, 20);
    assert_eq!(score.total_score, 900);
}

#[test]
fn endorse_again_after_removal_succeeds() {
    let (mut identity, mut reputation) = new_registries();

    create_did_for_account(&mut identity, INSTITUTION_A);
    create_did_for_account(&mut identity, INSTITUTION_B);

    let comment = b"Good work".to_vec();

    assert!(reputation
        .endorse(
            &identity,
            INSTITUTION_A,
            INSTITUTION_B,
            EndorsementType::Professional,
            comment.clone(),
            5,
            1
        )
        .is_ok());

    assert!(reputation.remove_endorsement(INSTITUTION_A, INSTITUTION_B).is_ok());

    assert!(reputation
        .endorse(
            &identity,
            INSTITUTION_A,
            INSTITUTION_B,
            EndorsementType::Academic,
            comment,
            7,
            2
        )
        .is_ok());

    assert!(reputation.has_endorsed(INSTITUTION_A, INSTITUTION_B));
    let received = reputation.endorsements_received(INSTITUTION_B);
    assert_eq!(received.len(), 1);
    assert_eq!(received[0].weight, 7);
}

#[test]
fn endorse_fails_when_endorsement_list_is_full() {
    let mut identity = did::Pallet::new(MAX_PUBLIC_KEYS, MAX_DOCUMENT_SIZE);
    let mut reputation = Pallet::new(1, MAX_COMMENT_SIZE);

    create_did_for_account(&mut identity, INSTITUTION_A);
    create_did_for_account(&mut identity, INSTITUTION_B);
    create_did_for_account(&mut identity, INSTITUTION_C);

    let comment = b"Great!".to_vec();

    assert!(reputation
        .endorse(
            &identity,
            INSTITUTION_A,
            INSTITUTION_B,
            EndorsementType::Professional,
            comment.clone(),
            5,
            1
        )
        .is_ok());

    assert_eq!(
        reputation.endorse(
            &identity,
            INSTITUTION_A,
            INSTITUTION_C,
            EndorsementType::Professional,
            comment,
            5,
            1
        ),
        Err(Error::TooManyEndorsements)
    );

    // The failed call left every list and score unchanged.
    assert_eq!(reputation.endorsements_given(INSTITUTION_A).len(), 1);
    assert_eq!(reputation.endorsements_received(INSTITUTION_C).len(), 0);
    assert_eq!(reputation.reputation_scores(INSTITUTION_A).endorsements_given, 1);
}

use credential_ledger::credential::{CredentialStatus, CredentialType, Error, Event};
use credential_ledger::did;
use credential_ledger::Origin;

const UNIVERSITY: u64 = 1;
const STUDENT: u64 = 2;
const VERIFIER: u64 = 3;

const MAX_DOCUMENT_SIZE: u32 = 1024;
const MAX_PUBLIC_KEYS: u32 = 10;
const MAX_METADATA_SIZE: u32 = 512;
const MAX_CREDENTIALS_PER_HOLDER: u32 = 100;

fn new_registries() -> (did::Pallet, credential_ledger::credential::Pallet) {
    (
        did::Pallet::new(MAX_PUBLIC_KEYS, MAX_DOCUMENT_SIZE),
        credential_ledger::credential::Pallet::new(MAX_METADATA_SIZE, MAX_CREDENTIALS_PER_HOLDER),
    )
}

fn create_did_for_account(identity: &mut did::Pallet, account: u64) {
    let public_key = [account as u8; 32];
    assert!(identity.create_did(account, public_key, did::KeyType::Ed25519, 1).is_ok());
}

fn register_institution(identity: &mut did::Pallet, account: u64, name: &str) {
    create_did_for_account(identity, account);
    assert!(identity.register_institution(account, name.as_bytes().to_vec(), 1).is_ok());
}

fn setup_verified_institution(identity: &mut did::Pallet, account: u64, name: &str) {
    register_institution(identity, account, name);
    assert!(identity.verify_institution(Origin::Root, account).is_ok());
}

#[test]
fn issue_credential_works() {
    let (mut identity, mut credential) = new_registries();

    setup_verified_institution(&mut identity, UNIVERSITY, "MIT");
    create_did_for_account(&mut identity, STUDENT);

    let credential_hash = [1u8; 32];
    let metadata = b"Computer Science Degree".to_vec();

    assert!(credential
        .issue_credential(
            &identity,
            UNIVERSITY,
            STUDENT,
            credential_hash,
            CredentialType::Degree,
            metadata,
            None,
            1
        )
        .is_ok());

    assert_eq!(
        credential.last_event(),
        Some(&Event::CredentialIssued {
            credential_id: credential.credential_by_hash(credential_hash).unwrap(),
            credential_hash,
            holder: STUDENT,
            issuer: UNIVERSITY,
            credential_type: CredentialType::Degree,
        })
    );
}

#[test]
fn issue_credential_fails_if_issuer_not_verified() {
    let (mut identity, mut credential) = new_registries();

    register_institution(&mut identity, UNIVERSITY, "Unverified University");
    create_did_for_account(&mut identity, STUDENT);

    let credential_hash = [1u8; 32];
    let metadata = b"Degree".to_vec();

    assert_eq!(
        credential.issue_credential(
            &identity,
            UNIVERSITY,
            STUDENT,
            credential_hash,
            CredentialType::Degree,
            metadata,
            None,
            1
        ),
        Err(Error::IssuerNotVerified)
    );
}

#[test]
fn issue_credential_fails_if_issuer_has_no_did() {
    let (mut identity, mut credential) = new_registries();

    create_did_for_account(&mut identity, STUDENT);

    let credential_hash = [1u8; 32];
    let metadata = b"Degree".to_vec();

    assert_eq!(
        credential.issue_credential(
            &identity,
            UNIVERSITY,
            STUDENT,
            credential_hash,
            CredentialType::Degree,
            metadata,
            None,
            1
        ),
        Err(Error::IssuerNotVerified)
    );
}

#[test]
fn issue_credential_fails_if_holder_has_no_did() {
    let (mut identity, mut credential) = new_registries();

    setup_verified_institution(&mut identity, UNIVERSITY, "MIT");

    let credential_hash = [1u8; 32];
    let metadata = b"Degree".to_vec();

    assert_eq!(
        credential.issue_credential(
            &identity,
            UNIVERSITY,
            STUDENT,
            credential_hash,
            CredentialType::Degree,
            metadata,
            None,
            1
        ),
        Err(Error::HolderHasNoDid)
    );
}

#[test]
fn issue_credential_fails_if_holder_did_inactive() {
    let (mut identity, mut credential) = new_registries();

    setup_verified_institution(&mut identity, UNIVERSITY, "MIT");
    create_did_for_account(&mut identity, STUDENT);

    assert!(identity.deactivate_did(STUDENT, 1).is_ok());

    let credential_hash = [1u8; 32];
    let metadata = b"Degree".to_vec();

    assert_eq!(
        credential.issue_credential(
            &identity,
            UNIVERSITY,
            STUDENT,
            credential_hash,
            CredentialType::Degree,
            metadata,
            None,
            1
        ),
        Err(Error::DidNotActive)
    );
}

#[test]
fn issue_credential_fails_for_duplicate_hash() {
    let (mut identity, mut credential) = new_registries();

    setup_verified_institution(&mut identity, UNIVERSITY, "MIT");
    create_did_for_account(&mut identity, STUDENT);

    let credential_hash = [1u8; 32];
    let metadata = b"Degree".to_vec();

    assert!(credential
        .issue_credential(
            &identity,
            UNIVERSITY,
            STUDENT,
            credential_hash,
            CredentialType::Degree,
            metadata.clone(),
            None,
            1
        )
        .is_ok());

    assert_eq!(
        credential.issue_credential(
            &identity,
            UNIVERSITY,
            STUDENT,
            credential_hash,
            CredentialType::Certificate,
            metadata,
            None,
            1
        ),
        Err(Error::CredentialAlreadyExists)
    );
}

#[test]
fn issue_credential_stores_correct_data() {
    let (mut identity, mut credential) = new_registries();

    setup_verified_institution(&mut identity, UNIVERSITY, "MIT");
    create_did_for_account(&mut identity, STUDENT);

    let credential_hash = [1u8; 32];
    let metadata = b"Computer Science".to_vec();

    assert!(credential
        .issue_credential(
            &identity,
            UNIVERSITY,
            STUDENT,
            credential_hash,
            CredentialType::Degree,
            metadata.clone(),
            Some(1000),
            1
        )
        .is_ok());

    let credential_id = credential.credential_by_hash(credential_hash).unwrap();

    let stored = credential.credentials(credential_id).unwrap();
    assert_eq!(stored.holder, STUDENT);
    assert_eq!(stored.issuer, UNIVERSITY);
    assert_eq!(stored.credential_type, CredentialType::Degree);
    assert_eq!(stored.metadata, metadata);
    assert_eq!(stored.status, CredentialStatus::Active);
    assert_eq!(stored.expires_at, Some(1000));
}

#[test]
fn revoke_credential_works() {
    let (mut identity, mut credential) = new_registries();

    setup_verified_institution(&mut identity, UNIVERSITY, "MIT");
    create_did_for_account(&mut identity, STUDENT);

    let credential_hash = [1u8; 32];
    let metadata = b"Degree".to_vec();

    assert!(credential
        .issue_credential(
            &identity,
            UNIVERSITY,
            STUDENT,
            credential_hash,
            CredentialType::Degree,
            metadata,
            None,
            1
        )
        .is_ok());

    let credential_id = credential.credential_by_hash(credential_hash).unwrap();

    assert!(credential.revoke_credential(UNIVERSITY, credential_id).is_ok());

    let stored = credential.credentials(credential_id).unwrap();
    assert_eq!(stored.status, CredentialStatus::Revoked);

    assert_eq!(
        credential.last_event(),
        Some(&Event::CredentialRevoked { credential_id, revoked_by: UNIVERSITY })
    );
}

#[test]
fn revoke_credential_fails_if_not_issuer() {
    let (mut identity, mut credential) = new_registries();

    setup_verified_institution(&mut identity, UNIVERSITY, "MIT");
    create_did_for_account(&mut identity, STUDENT);
    create_did_for_account(&mut identity, VERIFIER);

    let credential_hash = [1u8; 32];
    let metadata = b"Degree".to_vec();

    assert!(credential
        .issue_credential(
            &identity,
            UNIVERSITY,
            STUDENT,
            credential_hash,
            CredentialType::Degree,
            metadata,
            None,
            1
        )
        .is_ok());

    let credential_id = credential.credential_by_hash(credential_hash).unwrap();

    assert_eq!(
        credential.revoke_credential(VERIFIER, credential_id),
        Err(Error::NotAuthorized)
    );
}

#[test]
fn revoke_credential_fails_if_already_revoked() {
    let (mut identity, mut credential) = new_registries();

    setup_verified_institution(&mut identity, UNIVERSITY, "MIT");
    create_did_for_account(&mut identity, STUDENT);

    let credential_hash = [1u8; 32];
    let metadata = b"Degree".to_vec();

    assert!(credential
        .issue_credential(
            &identity,
            UNIVERSITY,
            STUDENT,
            credential_hash,
            CredentialType::Degree,
            metadata,
            None,
            1
        )
        .is_ok());

    let credential_id = credential.credential_by_hash(credential_hash).unwrap();

    assert!(credential.revoke_credential(UNIVERSITY, credential_id).is_ok());

    assert_eq!(
        credential.revoke_credential(UNIVERSITY, credential_id),
        Err(Error::CredentialAlreadyRevoked)
    );
}

#[test]
fn revoke_credential_fails_if_not_found() {
    let (mut identity, mut credential) = new_registries();

    setup_verified_institution(&mut identity, UNIVERSITY, "MIT");

    let fake_credential_id = [99u8; 32];

    assert_eq!(
        credential.revoke_credential(UNIVERSITY, fake_credential_id),
        Err(Error::CredentialNotFound)
    );
}

#[test]
fn verify_credential_works() {
    let (mut identity, mut credential) = new_registries();

    setup_verified_institution(&mut identity, UNIVERSITY, "MIT");
    create_did_for_account(&mut identity, STUDENT);
    create_did_for_account(&mut identity, VERIFIER);

    let credential_hash = [1u8; 32];
    let metadata = b"Degree".to_vec();

    assert!(credential
        .issue_credential(
            &identity,
            UNIVERSITY,
            STUDENT,
            credential_hash,
            CredentialType::Degree,
            metadata,
            None,
            1
        )
        .is_ok());

    let credential_id = credential.credential_by_hash(credential_hash).unwrap();

    assert!(credential.verify_credential(VERIFIER, credential_hash, 1).is_ok());

    assert_eq!(
        credential.last_event(),
        Some(&Event::CredentialVerified { credential_id, verified_by: VERIFIER })
    );
}

#[test]
fn verify_credential_fails_if_revoked() {
    let (mut identity, mut credential) = new_registries();

    setup_verified_institution(&mut identity, UNIVERSITY, "MIT");
    create_did_for_account(&mut identity, STUDENT);
    create_did_for_account(&mut identity, VERIFIER);

    let credential_hash = [1u8; 32];
    let metadata = b"Degree".to_vec();

    assert!(credential
        .issue_credential(
            &identity,
            UNIVERSITY,
            STUDENT,
            credential_hash,
            CredentialType::Degree,
            metadata,
            None,
            1
        )
        .is_ok());

    let credential_id = credential.credential_by_hash(credential_hash).unwrap();

    assert!(credential.revoke_credential(UNIVERSITY, credential_id).is_ok());

    assert_eq!(
        credential.verify_credential(VERIFIER, credential_hash, 1),
        Err(Error::CredentialNotActive)
    );
}

#[test]
fn verify_credential_fails_if_expired() {
    let (mut identity, mut credential) = new_registries();

    setup_verified_institution(&mut identity, UNIVERSITY, "MIT");
    create_did_for_account(&mut identity, STUDENT);
    create_did_for_account(&mut identity, VERIFIER);

    let credential_hash = [1u8; 32];
    let metadata = b"Degree".to_vec();

    assert!(credential
        .issue_credential(
            &identity,
            UNIVERSITY,
            STUDENT,
            credential_hash,
            CredentialType::Certificate,
            metadata,
            Some(10),
            1
        )
        .is_ok());

    assert_eq!(
        credential.verify_credential(VERIFIER, credential_hash, 11),
        Err(Error::CredentialExpired)
    );
}

#[test]
fn verify_credential_fails_if_not_found() {
    let (mut identity, mut credential) = new_registries();

    create_did_for_account(&mut identity, VERIFIER);

    let fake_hash = [99u8; 32];

    assert_eq!(
        credential.verify_credential(VERIFIER, fake_hash, 1),
        Err(Error::CredentialNotFound)
    );
}

#[test]
fn update_metadata_works() {
    let (mut identity, mut credential) = new_registries();

    setup_verified_institution(&mut identity, UNIVERSITY, "MIT");
    create_did_for_account(&mut identity, STUDENT);

    let credential_hash = [1u8; 32];
    let metadata = b"Original Metadata".to_vec();

    assert!(credential
        .issue_credential(
            &identity,
            UNIVERSITY,
            STUDENT,
            credential_hash,
            CredentialType::Degree,
            metadata,
            None,
            1
        )
        .is_ok());

    let credential_id = credential.credential_by_hash(credential_hash).unwrap();

    let new_metadata = b"Updated Metadata".to_vec();

    assert!(credential
        .update_credential_metadata(UNIVERSITY, credential_id, new_metadata.clone())
        .is_ok());

    let stored = credential.credentials(credential_id).unwrap();
    assert_eq!(stored.metadata, new_metadata);

    assert_eq!(
        credential.last_event(),
        Some(&Event::CredentialMetadataUpdated { credential_id })
    );
}

#[test]
fn update_metadata_fails_if_not_issuer() {
    let (mut identity, mut credential) = new_registries();

    setup_verified_institution(&mut identity, UNIVERSITY, "MIT");
    create_did_for_account(&mut identity, STUDENT);

    let credential_hash = [1u8; 32];
    let metadata = b"Degree".to_vec();

    assert!(credential
        .issue_credential(
            &identity,
            UNIVERSITY,
            STUDENT,
            credential_hash,
            CredentialType::Degree,
            metadata,
            None,
            1
        )
        .is_ok());

    let credential_id = credential.credential_by_hash(credential_hash).unwrap();
    let new_metadata = b"Updated".to_vec();

    assert_eq!(
        credential.update_credential_metadata(STUDENT, credential_id, new_metadata),
        Err(Error::NotAuthorized)
    );
}

#[test]
fn update_metadata_fails_if_revoked() {
    let (mut identity, mut credential) = new_registries();

    setup_verified_institution(&mut identity, UNIVERSITY, "MIT");
    create_did_for_account(&mut identity, STUDENT);

    let credential_hash = [1u8; 32];
    let metadata = b"Degree".to_vec();

    assert!(credential
        .issue_credential(
            &identity,
            UNIVERSITY,
            STUDENT,
            credential_hash,
            CredentialType::Degree,
            metadata,
            None,
            1
        )
        .is_ok());

    let credential_id = credential.credential_by_hash(credential_hash).unwrap();

    assert!(credential.revoke_credential(UNIVERSITY, credential_id).is_ok());

    let new_metadata = b"Updated".to_vec();

    assert_eq!(
        credential.update_credential_metadata(UNIVERSITY, credential_id, new_metadata),
        Err(Error::CredentialNotActive)
    );
}

#[test]
fn complete_credential_lifecycle() {
    let (mut identity, mut credential) = new_registries();

    setup_verified_institution(&mut identity, UNIVERSITY, "Stanford University");
    create_did_for_account(&mut identity, STUDENT);
    create_did_for_account(&mut identity, VERIFIER);

    let credential_hash = [1u8; 32];
    let metadata = b"Bachelor of Science in Computer Science".to_vec();

    assert!(credential
        .issue_credential(
            &identity,
            UNIVERSITY,
            STUDENT,
            credential_hash,
            CredentialType::Degree,
            metadata,
            Some(1000),
            1
        )
        .is_ok());

    let credential_id = credential.credential_by_hash(credential_hash).unwrap();

    assert!(credential.verify_credential(VERIFIER, credential_hash, 1).is_ok());

    let new_metadata = b"Bachelor of Science in Computer Science - Honors".to_vec();
    assert!(credential
        .update_credential_metadata(UNIVERSITY, credential_id, new_metadata)
        .is_ok());

    assert!(credential.verify_credential(VERIFIER, credential_hash, 1).is_ok());

    assert!(credential.revoke_credential(UNIVERSITY, credential_id).is_ok());

    assert_eq!(
        credential.verify_credential(VERIFIER, credential_hash, 1),
        Err(Error::CredentialNotActive)
    );
}

#[test]
fn multiple_credentials_per_student() {
    let (mut identity, mut credential) = new_registries();

    setup_verified_institution(&mut identity, UNIVERSITY, "MIT");
    create_did_for_account(&mut identity, STUDENT);

    let hash1 = [1u8; 32];
    assert!(credential
        .issue_credential(
            &identity,
            UNIVERSITY,
            STUDENT,
            hash1,
            CredentialType::Degree,
            b"Bachelor's Degree".to_vec(),
            None,
            1
        )
        .is_ok());

    let hash2 = [2u8; 32];
    assert!(credential
        .issue_credential(
            &identity,
            UNIVERSITY,
            STUDENT,
            hash2,
            CredentialType::MastersDegree,
            b"Master's Degree".to_vec(),
            None,
            1
        )
        .is_ok());

    let hash3 = [3u8; 32];
    assert!(credential
        .issue_credential(
            &identity,
            UNIVERSITY,
            STUDENT,
            hash3,
            CredentialType::Certificate,
            b"AI Certificate".to_vec(),
            None,
            1
        )
        .is_ok());

    assert!(credential.credentials(credential.credential_by_hash(hash1).unwrap()).is_some());
    assert!(credential.credentials(credential.credential_by_hash(hash2).unwrap()).is_some());
    assert!(credential.credentials(credential.credential_by_hash(hash3).unwrap()).is_some());

    let holder_credentials = credential.credentials_by_holder(STUDENT);
    assert_eq!(holder_credentials.len(), 3);
}

#[test]
fn verify_credential_succeeds_at_expiry_boundary() {
    let (mut identity, mut credential) = new_registries();

    setup_verified_institution(&mut identity, UNIVERSITY, "MIT");
    create_did_for_account(&mut identity, STUDENT);
    create_did_for_account(&mut identity, VERIFIER);

    let credential_hash = [1u8; 32];

    assert!(credential
        .issue_credential(
            &identity,
            UNIVERSITY,
            STUDENT,
            credential_hash,
            CredentialType::Certificate,
            b"Cert".to_vec(),
            Some(10),
            1
        )
        .is_ok());

    // Expiry is exclusive: at the expiry time itself the credential still
    // verifies; one tick later it does not, while its stored status stays
    // active.
    assert!(credential.verify_credential(VERIFIER, credential_hash, 10).is_ok());
    assert_eq!(
        credential.verify_credential(VERIFIER, credential_hash, 11),
        Err(Error::CredentialExpired)
    );

    let credential_id = credential.credential_by_hash(credential_hash).unwrap();
    let stored = credential.credentials(credential_id).unwrap();
    assert_eq!(stored.status, CredentialStatus::Active);
}

#[test]
fn issue_credential_fails_when_holder_index_is_full() {
    let mut identity = did::Pallet::new(MAX_PUBLIC_KEYS, MAX_DOCUMENT_SIZE);
    let mut credential = credential_ledger::credential::Pallet::new(MAX_METADATA_SIZE, 2);

    setup_verified_institution(&mut identity, UNIVERSITY, "MIT");
    create_did_for_account(&mut identity, STUDENT);

    assert!(credential
        .issue_credential(
            &identity,
            UNIVERSITY,
            STUDENT,
            [1u8; 32],
            CredentialType::Degree,
            b"One".to_vec(),
            None,
            1
        )
        .is_ok());
    assert!(credential
        .issue_credential(
            &identity,
            UNIVERSITY,
            STUDENT,
            [2u8; 32],
            CredentialType::Degree,
            b"Two".to_vec(),
            None,
            1
        )
        .is_ok());

    assert_eq!(
        credential.issue_credential(
            &identity,
            UNIVERSITY,
            STUDENT,
            [3u8; 32],
            CredentialType::Degree,
            b"Three".to_vec(),
            None,
            1
        ),
        Err(Error::TooManyCredentials)
    );

    // The failed call left both index lists exactly as they were.
    assert_eq!(credential.credentials_by_holder(STUDENT).len(), 2);
    assert_eq!(credential.credentials_by_issuer(UNIVERSITY).len(), 2);
    assert!(credential.credential_by_hash([3u8; 32]).is_none());
}

#[test]
fn issue_credential_fails_if_issuer_did_inactive() {
    let (mut identity, mut credential) = new_registries();

    setup_verified_institution(&mut identity, UNIVERSITY, "MIT");
    create_did_for_account(&mut identity, STUDENT);

    assert!(identity.deactivate_did(UNIVERSITY, 1).is_ok());

    assert_eq!(
        credential.issue_credential(
            &identity,
            UNIVERSITY,
            STUDENT,
            [1u8; 32],
            CredentialType::Degree,
            b"Degree".to_vec(),
            None,
            1
        ),
        Err(Error::DidNotActive)
    );
}

#[test]
fn revoke_credential_fails_for_any_inactive_status() {
    let (mut identity, mut credential) = new_registries();

    setup_verified_institution(&mut identity, UNIVERSITY, "MIT");
    create_did_for_account(&mut identity, STUDENT);

    let credential_hash = [1u8; 32];

    assert!(credential
        .issue_credential(
            &identity,
            UNIVERSITY,
            STUDENT,
            credential_hash,
            CredentialType::Degree,
            b"Degree".to_vec(),
            Some(10),
            1
        )
        .is_ok());

    let credential_id = credential.credential_by_hash(credential_hash).unwrap();

    // Mark the stored credential as expired behind the registry's back, as
    // a host with raw storage access could: only an active credential can
    // be revoked, so the issuer's revocation is rejected.
    for entry in credential.creds.iter_mut() {
        if entry.0 == credential_id {
            entry.1.status = CredentialStatus::Expired;
        }
    }

    assert_eq!(
        credential.revoke_credential(UNIVERSITY, credential_id),
        Err(Error::CredentialAlreadyRevoked)
    );

    let stored = credential.credentials(credential_id).unwrap();
    assert_eq!(stored.status, CredentialStatus::Expired);
}

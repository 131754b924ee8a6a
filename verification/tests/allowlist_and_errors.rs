use medical_consent_nft::ConsentAction;
use medical_consent_nft::ContractError;
use medical_consent_nft::PatientConsentToken;

const ADMIN: u64 = 1;
const PROVIDER_A: u64 = 10;
const STRANGER: u64 = 99;

#[test]
fn only_the_admin_manages_the_allowlist() {
    let mut r = PatientConsentToken::new();
    // before initialize there is no admin to match
    assert_eq!(r.add_issuer(STRANGER, PROVIDER_A), Err(ContractError::NotAuthorized));
    assert_eq!(r.initialize(ADMIN), Ok(()));
    assert_eq!(r.add_issuer(STRANGER, PROVIDER_A), Err(ContractError::NotAuthorized));
    assert_eq!(r.remove_issuer(STRANGER, PROVIDER_A), Err(ContractError::NotAuthorized));
    assert!(!r.is_issuer(PROVIDER_A));
    assert_eq!(r.add_issuer(ADMIN, PROVIDER_A), Ok(()));
    assert!(r.is_issuer(PROVIDER_A));
}

#[test]
fn removal_drops_every_listing_and_tolerates_non_members() {
    let mut r = PatientConsentToken::new();
    assert_eq!(r.initialize(ADMIN), Ok(()));
    // removing someone never added is a successful no-op
    assert_eq!(r.remove_issuer(ADMIN, PROVIDER_A), Ok(()));
    assert!(!r.is_issuer(PROVIDER_A));
    // duplicates are tolerated on the list and all fall to one removal
    assert_eq!(r.add_issuer(ADMIN, PROVIDER_A), Ok(()));
    assert_eq!(r.add_issuer(ADMIN, PROVIDER_A), Ok(()));
    assert_eq!(r.add_issuer(ADMIN, STRANGER), Ok(()));
    assert!(r.is_issuer(PROVIDER_A));
    assert_eq!(r.remove_issuer(ADMIN, PROVIDER_A), Ok(()));
    assert!(!r.is_issuer(PROVIDER_A));
    assert!(r.is_issuer(STRANGER));
}

#[test]
fn a_removed_issuer_can_no_longer_mint() {
    let mut r = PatientConsentToken::new();
    assert_eq!(r.initialize(ADMIN), Ok(()));
    assert_eq!(r.add_issuer(ADMIN, PROVIDER_A), Ok(()));
    assert_eq!(
        r.mint_consent(PROVIDER_A, "u".to_owned(), "t".to_owned(), 0, 1),
        Ok(0)
    );
    assert_eq!(r.remove_issuer(ADMIN, PROVIDER_A), Ok(()));
    assert_eq!(
        r.mint_consent(PROVIDER_A, "u".to_owned(), "t".to_owned(), 0, 2),
        Err(ContractError::NotAuthorized)
    );
}

#[test]
fn unknown_ids_fail_or_default_per_query() {
    let r = PatientConsentToken::new();
    assert_eq!(r.owner_of(0), Err(ContractError::TokenNotFound));
    assert!(r.get_metadata(0).is_err());
    assert_eq!(
        r.get_metadata(0).err(),
        Some(ContractError::TokenNotFound)
    );
    assert_eq!(r.is_valid(0, 0), Err(ContractError::TokenNotFound));
    // these three default instead of failing
    assert!(!r.is_revoked(0));
    assert_eq!(r.get_history(0).len(), 0);
    assert_eq!(r.tokens_of_owner(STRANGER), Vec::<u64>::new());
}

#[test]
fn mutations_on_unknown_ids_fail_token_not_found() {
    let mut r = PatientConsentToken::new();
    assert_eq!(r.initialize(ADMIN), Ok(()));
    assert_eq!(
        r.update_consent(PROVIDER_A, 5, "u".to_owned(), 1),
        Err(ContractError::TokenNotFound)
    );
    assert_eq!(r.revoke_consent(PROVIDER_A, 5, 1), Err(ContractError::TokenNotFound));
    assert_eq!(
        r.transfer(PROVIDER_A, STRANGER, 5),
        Err(ContractError::TokenNotFound)
    );
}

#[test]
fn only_the_owner_updates_or_revokes() {
    let mut r = PatientConsentToken::new();
    assert_eq!(r.initialize(ADMIN), Ok(()));
    assert_eq!(r.add_issuer(ADMIN, PROVIDER_A), Ok(()));
    assert_eq!(
        r.mint_consent(PROVIDER_A, "u".to_owned(), "t".to_owned(), 0, 1),
        Ok(0)
    );
    assert_eq!(
        r.update_consent(STRANGER, 0, "x".to_owned(), 2),
        Err(ContractError::NotAuthorized)
    );
    assert_eq!(r.revoke_consent(STRANGER, 0, 2), Err(ContractError::NotAuthorized));
    assert_eq!(r.get_metadata(0).unwrap().version, 1);
    assert_eq!(r.get_history(0).len(), 1);
    assert!(!r.is_revoked(0));
}

#[test]
fn update_stamps_the_trail_with_the_new_pointer() {
    let mut r = PatientConsentToken::new();
    assert_eq!(r.initialize(ADMIN), Ok(()));
    assert_eq!(r.add_issuer(ADMIN, PROVIDER_A), Ok(()));
    assert_eq!(
        r.mint_consent(PROVIDER_A, "old".to_owned(), "t".to_owned(), 0, 1),
        Ok(0)
    );
    assert_eq!(r.update_consent(PROVIDER_A, 0, "new".to_owned(), 9), Ok(()));
    let m = r.get_metadata(0).unwrap();
    assert_eq!(m.metadata_uri, "new");
    assert_eq!(m.version, 2);
    let h = r.get_history(0);
    assert_eq!(h.len(), 2);
    assert_eq!(h[1].action, ConsentAction::Updated);
    assert_eq!(h[1].timestamp, 9);
    assert_eq!(h[1].actor, PROVIDER_A);
    assert_eq!(h[1].metadata_uri, "new");
}

#[test]
fn revoke_entry_carries_the_current_pointer() {
    let mut r = PatientConsentToken::new();
    assert_eq!(r.initialize(ADMIN), Ok(()));
    assert_eq!(r.add_issuer(ADMIN, PROVIDER_A), Ok(()));
    assert_eq!(
        r.mint_consent(PROVIDER_A, "first".to_owned(), "t".to_owned(), 0, 1),
        Ok(0)
    );
    assert_eq!(r.update_consent(PROVIDER_A, 0, "second".to_owned(), 2), Ok(()));
    assert_eq!(r.revoke_consent(PROVIDER_A, 0, 3), Ok(()));
    let h = r.get_history(0);
    assert_eq!(h.len(), 3);
    assert_eq!(h[2].action, ConsentAction::Revoked);
    assert_eq!(h[2].metadata_uri, "second");
    // metadata itself is untouched by a revocation
    let m = r.get_metadata(0).unwrap();
    assert_eq!(m.metadata_uri, "second");
    assert_eq!(m.version, 2);
}

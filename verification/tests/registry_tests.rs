use medical_consent_nft::ConsentAction;
use medical_consent_nft::ContractError;
use medical_consent_nft::PatientConsentToken;

const ADMIN: u64 = 1;
const PROVIDER_A: u64 = 10;
const PROVIDER_B: u64 = 11;
const PATIENT: u64 = 20;
const STRANGER: u64 = 99;

fn fresh() -> PatientConsentToken {
    let mut r = PatientConsentToken::new();
    assert_eq!(r.initialize(ADMIN), Ok(()));
    assert_eq!(r.add_issuer(ADMIN, PROVIDER_A), Ok(()));
    r
}

fn mint(r: &mut PatientConsentToken, to: u64, uri: &str, expiry: u64, now: u64) -> u64 {
    r.mint_consent(to, uri.to_owned(), "treatment".to_owned(), expiry, now)
        .expect("mint should succeed")
}

#[test]
fn ids_are_issued_densely_in_order() {
    let mut r = fresh();
    assert_eq!(r.add_issuer(ADMIN, PROVIDER_B), Ok(()));
    assert_eq!(mint(&mut r, PROVIDER_A, "u0", 0, 1), 0);
    assert_eq!(mint(&mut r, PROVIDER_B, "u1", 0, 2), 1);
    // interleaved operations do not disturb the counter
    assert_eq!(r.update_consent(PROVIDER_A, 0, "u0b".to_owned(), 3), Ok(()));
    assert_eq!(r.transfer(PROVIDER_B, PATIENT, 1), Ok(()));
    assert_eq!(r.revoke_consent(PROVIDER_A, 0, 4), Ok(()));
    assert_eq!(mint(&mut r, PROVIDER_B, "u2", 0, 5), 2);
    assert_eq!(mint(&mut r, PROVIDER_A, "u3", 0, 6), 3);
}

#[test]
fn mint_sets_owner_metadata_flag_and_trail() {
    let mut r = fresh();
    let id = mint(&mut r, PROVIDER_A, "ipfs://doc", 500, 42);
    assert_eq!(r.owner_of(id), Ok(PROVIDER_A));
    let m = r.get_metadata(id).expect("metadata should exist");
    assert_eq!(m.version, 1);
    assert_eq!(m.metadata_uri, "ipfs://doc");
    assert_eq!(m.consent_type, "treatment");
    assert_eq!(m.issued_timestamp, 42);
    assert_eq!(m.expiry_timestamp, 500);
    assert_eq!(m.issuer, PROVIDER_A);
    assert!(!r.is_revoked(id));
    let h = r.get_history(id);
    assert_eq!(h.len(), 1);
    assert_eq!(h[0].action, ConsentAction::Issued);
    assert_eq!(h[0].timestamp, 42);
    assert_eq!(h[0].actor, PROVIDER_A);
    assert_eq!(h[0].metadata_uri, "ipfs://doc");
    assert_eq!(r.tokens_of_owner(PROVIDER_A), vec![id]);
}

#[test]
fn n_updates_give_version_and_trail_one_plus_n() {
    let mut r = fresh();
    let id = mint(&mut r, PROVIDER_A, "v1", 0, 1);
    let n = 5u64;
    for k in 0..n {
        let uri = format!("v{}", k + 2);
        assert_eq!(r.update_consent(PROVIDER_A, id, uri, 10 + k), Ok(()));
    }
    let m = r.get_metadata(id).unwrap();
    assert_eq!(u64::from(m.version), 1 + n);
    let h = r.get_history(id);
    assert_eq!(h.len() as u64, 1 + n);
    assert_eq!(h[0].action, ConsentAction::Issued);
    for e in h.iter().skip(1) {
        assert_eq!(e.action, ConsentAction::Updated);
    }
    assert_eq!(m.metadata_uri, "v6");
    assert_eq!(h[5].metadata_uri, "v6");
}

#[test]
fn revocation_is_permanent_and_blocks_update_and_transfer() {
    let mut r = fresh();
    let id = mint(&mut r, PROVIDER_A, "u", 0, 1);
    assert_eq!(r.revoke_consent(PROVIDER_A, id, 2), Ok(()));
    assert!(r.is_revoked(id));
    assert_eq!(r.is_valid(id, 0), Ok(false));
    assert_eq!(r.is_valid(id, u64::MAX), Ok(false));
    assert_eq!(
        r.update_consent(PROVIDER_A, id, "x".to_owned(), 3),
        Err(ContractError::ConsentRevoked)
    );
    assert_eq!(
        r.transfer(PROVIDER_A, PATIENT, id),
        Err(ContractError::ConsentRevoked)
    );
    // still owned, still listed, flag still set
    assert_eq!(r.owner_of(id), Ok(PROVIDER_A));
    assert!(r.is_revoked(id));
}

#[test]
fn revoking_again_appends_another_terminal_entry() {
    let mut r = fresh();
    let id = mint(&mut r, PROVIDER_A, "u", 0, 1);
    assert_eq!(r.revoke_consent(PROVIDER_A, id, 2), Ok(()));
    assert_eq!(r.revoke_consent(PROVIDER_A, id, 3), Ok(()));
    let h = r.get_history(id);
    assert_eq!(h.len(), 3);
    assert_eq!(h[1].action, ConsentAction::Revoked);
    assert_eq!(h[2].action, ConsentAction::Revoked);
    assert_eq!(h[2].timestamp, 3);
    assert!(r.is_revoked(id));
}

#[test]
fn transfer_by_non_owner_fails_with_no_state_change() {
    let mut r = fresh();
    let id = mint(&mut r, PROVIDER_A, "u", 0, 1);
    assert_eq!(
        r.transfer(STRANGER, PATIENT, id),
        Err(ContractError::NotTokenOwner)
    );
    assert_eq!(r.owner_of(id), Ok(PROVIDER_A));
    assert_eq!(r.tokens_of_owner(PROVIDER_A), vec![id]);
    assert_eq!(r.tokens_of_owner(PATIENT), Vec::<u64>::new());
    assert_eq!(r.get_history(id).len(), 1);
}

#[test]
fn transfer_moves_the_id_between_ownership_lists() {
    let mut r = fresh();
    let id0 = mint(&mut r, PROVIDER_A, "u0", 0, 1);
    let id1 = mint(&mut r, PROVIDER_A, "u1", 0, 2);
    assert_eq!(r.transfer(PROVIDER_A, PATIENT, id0), Ok(()));
    assert_eq!(r.owner_of(id0), Ok(PATIENT));
    assert_eq!(r.tokens_of_owner(PROVIDER_A), vec![id1]);
    assert_eq!(r.tokens_of_owner(PATIENT), vec![id0]);
    // the trail is deliberately untouched by a transfer
    assert_eq!(r.get_history(id0).len(), 1);
    // the new owner can pass it on; the old one cannot
    assert_eq!(
        r.transfer(PROVIDER_A, STRANGER, id0),
        Err(ContractError::NotTokenOwner)
    );
    assert_eq!(r.transfer(PATIENT, PROVIDER_A, id0), Ok(()));
    let mut back = r.tokens_of_owner(PROVIDER_A);
    back.sort_unstable();
    assert_eq!(back, vec![id0, id1]);
}

#[test]
fn transfer_to_self_keeps_a_single_listing() {
    let mut r = fresh();
    let id = mint(&mut r, PROVIDER_A, "u", 0, 1);
    assert_eq!(r.transfer(PROVIDER_A, PROVIDER_A, id), Ok(()));
    assert_eq!(r.owner_of(id), Ok(PROVIDER_A));
    assert_eq!(r.tokens_of_owner(PROVIDER_A), vec![id]);
}

#[test]
fn mint_needs_the_owner_on_the_allowlist() {
    let mut r = PatientConsentToken::new();
    assert_eq!(r.initialize(ADMIN), Ok(()));
    assert_eq!(
        r.mint_consent(PROVIDER_B, "u".to_owned(), "t".to_owned(), 0, 1),
        Err(ContractError::NotAuthorized)
    );
    assert_eq!(r.add_issuer(ADMIN, PROVIDER_B), Ok(()));
    assert_eq!(
        r.mint_consent(PROVIDER_B, "u".to_owned(), "t".to_owned(), 0, 2),
        Ok(0)
    );
}

#[test]
fn validity_follows_expiry_and_the_clock() {
    let mut r = fresh();
    let eternal = mint(&mut r, PROVIDER_A, "u0", 0, 1);
    let limited = mint(&mut r, PROVIDER_A, "u1", 1000, 1);
    assert_eq!(r.is_valid(eternal, u64::MAX), Ok(true));
    assert_eq!(r.is_valid(limited, 999), Ok(true));
    assert_eq!(r.is_valid(limited, 1000), Ok(false));
    assert_eq!(r.is_valid(limited, u64::MAX), Ok(false));
}

#[test]
fn initialize_runs_at_most_once() {
    let mut r = PatientConsentToken::new();
    assert_eq!(r.initialize(ADMIN), Ok(()));
    assert_eq!(r.initialize(STRANGER), Err(ContractError::AlreadyInitialized));
    assert_eq!(r.admin, Some(ADMIN));
    // the admin still works
    assert_eq!(r.add_issuer(ADMIN, PROVIDER_A), Ok(()));
}

#[test]
fn issuance_scenario_for_provider_a() {
    let mut r = PatientConsentToken::new();
    assert_eq!(r.initialize(ADMIN), Ok(()));
    assert_eq!(r.add_issuer(ADMIN, PROVIDER_A), Ok(()));
    let id = r
        .mint_consent(PROVIDER_A, "ipfs://x".to_owned(), "treatment".to_owned(), 0, 7)
        .expect("mint should succeed");
    assert_eq!(id, 0);
    assert_eq!(r.get_metadata(0).unwrap().issuer, PROVIDER_A);
    assert_eq!(r.is_valid(0, 7), Ok(true));
}

#[test]
fn expiry_boundary_scenario() {
    let mut r = fresh();
    let id = mint(&mut r, PROVIDER_A, "u", 1000, 1);
    assert_eq!(id, 0);
    assert_eq!(r.is_valid(0, 999), Ok(true));
    assert_eq!(r.is_valid(0, 1000), Ok(false));
}

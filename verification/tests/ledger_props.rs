use apec_cert::hash::{hash_leaf, hash_pair_sorted};
use apec_cert::ledger::Ledger;
use apec_cert::records::{ApecErrorCode, MintAuthority, TokenRecord};

fn b32(x: u8) -> [u8; 32] {
    [x; 32]
}

fn s(text: &str) -> String {
    text.to_string()
}

/// A ledger with one provider (id 1, authority 0xAA) and one course
/// (id 2) under it.
fn registry() -> Ledger {
    let mut ledger = Ledger::new();
    assert_eq!(ledger.init_provider(1, b32(0xAA), s("acme")), Ok(()));
    assert_eq!(ledger.create_course(1, b32(0xAA), 2, s("algorithms")), Ok(()));
    ledger
}

/// The four-leaf tree over identities 0..4 and the proof for identity 0.
fn four_leaf_tree() -> ([u8; 32], Vec<[u8; 32]>) {
    let leaves: Vec<[u8; 32]> = (0u8..4).map(|i| hash_leaf(&b32(i))).collect();
    let p0 = hash_pair_sorted(&leaves[0], &leaves[1]);
    let p1 = hash_pair_sorted(&leaves[2], &leaves[3]);
    let root = hash_pair_sorted(&p0, &p1);
    (root, vec![leaves[1], p1])
}

#[test]
fn provider_is_created_once() {
    let mut ledger = Ledger::new();
    assert_eq!(ledger.init_provider(1, b32(0xAA), s("acme")), Ok(()));
    assert_eq!(
        ledger.init_provider(1, b32(0xBB), s("other")),
        Err(ApecErrorCode::AlreadyInitialized)
    );
    assert_eq!(ledger.providers.len(), 1);
    assert_eq!(ledger.providers[0].authority, b32(0xAA));
}

#[test]
fn provider_name_over_ten_chars_is_refused() {
    let mut ledger = Ledger::new();
    assert_eq!(
        ledger.init_provider(1, b32(0xAA), s("elevenchars")),
        Err(ApecErrorCode::NameTooLong)
    );
    assert_eq!(ledger.providers.len(), 0);
    assert_eq!(ledger.init_provider(1, b32(0xAA), s("tencharsxx")), Ok(()));
}

#[test]
fn course_requires_the_providers_recorded_authority() {
    let mut ledger = Ledger::new();
    assert_eq!(ledger.init_provider(1, b32(0xAA), s("acme")), Ok(()));
    assert_eq!(
        ledger.create_course(1, b32(0xCC), 2, s("algorithms")),
        Err(ApecErrorCode::Unauthorized)
    );
    assert_eq!(ledger.courses.len(), 0);
    assert_eq!(ledger.create_course(1, b32(0xAA), 2, s("algorithms")), Ok(()));
}

#[test]
fn course_needs_an_existing_provider() {
    let mut ledger = Ledger::new();
    assert_eq!(
        ledger.create_course(9, b32(0xAA), 2, s("algorithms")),
        Err(ApecErrorCode::NotFound)
    );
}

#[test]
fn course_name_over_twenty_chars_is_refused() {
    let mut ledger = registry();
    assert_eq!(
        ledger.create_course(1, b32(0xAA), 3, s("twentyonecharactersxx")),
        Err(ApecErrorCode::NameTooLong)
    );
    assert_eq!(ledger.create_course(1, b32(0xAA), 3, s("twentycharactersxxxx")), Ok(()));
}

#[test]
fn course_id_collides_within_its_provider() {
    let mut ledger = registry();
    assert_eq!(
        ledger.create_course(1, b32(0xAA), 2, s("again")),
        Err(ApecErrorCode::AlreadyInitialized)
    );
}

#[test]
fn commitment_is_published_once_per_pair() {
    let mut ledger = registry();
    let (root, _) = four_leaf_tree();
    assert_eq!(ledger.create_cert_proof(1, 2, root, 4), Ok(()));
    assert_eq!(
        ledger.create_cert_proof(1, 2, root, 4),
        Err(ApecErrorCode::AlreadyInitialized)
    );
    assert_eq!(ledger.commitments.len(), 1);
    assert_eq!(ledger.commitments[0].claimed, 0);
    assert_eq!(ledger.commitments[0].total, 4);
}

#[test]
fn commitment_needs_an_existing_course() {
    let mut ledger = registry();
    let (root, _) = four_leaf_tree();
    assert_eq!(ledger.create_cert_proof(1, 9, root, 4), Err(ApecErrorCode::NotFound));
    assert_eq!(ledger.create_cert_proof(9, 2, root, 4), Err(ApecErrorCode::NotFound));
}

#[test]
fn four_leaf_claim_succeeds_once_then_collides() {
    let mut ledger = registry();
    let (root, siblings) = four_leaf_tree();
    assert_eq!(ledger.create_cert_proof(1, 2, root, 4), Ok(()));

    let claimer = b32(0);
    assert_eq!(
        ledger.claim_cert(1, 2, claimer, siblings.clone(), s("cert"), s("uri://a")),
        Ok(())
    );
    assert_eq!(ledger.credentials.len(), 1);
    let token = &ledger.credentials[0];
    assert_eq!(token.supply, 1);
    assert_eq!(token.mint_authority, MintAuthority::Revoked);
    assert_eq!(token.symbol, s("APECERT"));
    assert_eq!(token.holder, claimer);
    assert_eq!(ledger.commitments[0].claimed, 1);

    // the retry fails with the address collision, not with a proof error
    assert_eq!(
        ledger.claim_cert(1, 2, claimer, siblings, s("cert"), s("uri://a")),
        Err(ApecErrorCode::AlreadyInitialized)
    );
    assert_eq!(ledger.credentials.len(), 1);
    assert_eq!(ledger.commitments[0].claimed, 1);
}

#[test]
fn all_four_eligible_identities_can_claim() {
    let mut ledger = registry();
    let leaves: Vec<[u8; 32]> = (0u8..4).map(|i| hash_leaf(&b32(i))).collect();
    let p0 = hash_pair_sorted(&leaves[0], &leaves[1]);
    let p1 = hash_pair_sorted(&leaves[2], &leaves[3]);
    let root = hash_pair_sorted(&p0, &p1);
    assert_eq!(ledger.create_cert_proof(1, 2, root, 4), Ok(()));

    let proofs = [
        vec![leaves[1], p1],
        vec![leaves[0], p1],
        vec![leaves[3], p0],
        vec![leaves[2], p0],
    ];
    for (i, siblings) in proofs.iter().enumerate() {
        assert_eq!(
            ledger.claim_cert(1, 2, b32(i as u8), siblings.clone(), s("cert"), s("uri://a")),
            Ok(())
        );
    }
    assert_eq!(ledger.credentials.len(), 4);
    assert_eq!(ledger.commitments[0].claimed, 4);
}

#[test]
fn proof_for_another_courses_commitment_is_rejected() {
    let mut ledger = registry();
    assert_eq!(ledger.create_course(1, b32(0xAA), 3, s("geometry")), Ok(()));

    // course 2's list holds identities 0..4; course 3's holds 4..8
    let (root_x, siblings_x) = four_leaf_tree();
    let leaves_y: Vec<[u8; 32]> = (4u8..8).map(|i| hash_leaf(&b32(i))).collect();
    let p0 = hash_pair_sorted(&leaves_y[0], &leaves_y[1]);
    let p1 = hash_pair_sorted(&leaves_y[2], &leaves_y[3]);
    let root_y = hash_pair_sorted(&p0, &p1);
    assert_eq!(ledger.create_cert_proof(1, 2, root_x, 4), Ok(()));
    assert_eq!(ledger.create_cert_proof(1, 3, root_y, 4), Ok(()));

    // a proof valid for course 2, submitted against course 3's commitment
    assert_eq!(
        ledger.claim_cert(1, 3, b32(0), siblings_x.clone(), s("cert"), s("uri://a")),
        Err(ApecErrorCode::InvalidProof)
    );
    assert_eq!(ledger.credentials.len(), 0);
    // the same proof against its own commitment still works
    assert_eq!(ledger.claim_cert(1, 2, b32(0), siblings_x, s("cert"), s("uri://a")), Ok(()));
}

#[test]
fn ineligible_identity_cannot_claim() {
    let mut ledger = registry();
    let (root, siblings) = four_leaf_tree();
    assert_eq!(ledger.create_cert_proof(1, 2, root, 4), Ok(()));
    // identity 9 is not on the allow-list; the proof for identity 0 does
    // not fit its leaf
    assert_eq!(
        ledger.claim_cert(1, 2, b32(9), siblings, s("cert"), s("uri://a")),
        Err(ApecErrorCode::InvalidProof)
    );
}

#[test]
fn claim_needs_an_existing_commitment() {
    let mut ledger = registry();
    let (_, siblings) = four_leaf_tree();
    assert_eq!(
        ledger.claim_cert(1, 2, b32(0), siblings, s("cert"), s("uri://a")),
        Err(ApecErrorCode::NotFound)
    );
}

#[test]
fn enrollment_is_open_but_single() {
    let mut ledger = registry();
    let participant = b32(0x42);
    assert_eq!(
        ledger.enroll_course(1, 2, participant, s("enr"), s("ENR"), s("uri://e")),
        Ok(())
    );
    assert_eq!(ledger.enrollments.len(), 1);
    assert_eq!(ledger.enrollments[0].supply, 1);
    assert_eq!(ledger.enrollments[0].mint_authority, MintAuthority::Revoked);
    assert_eq!(ledger.enrollments[0].symbol, s("ENR"));
    assert_eq!(
        ledger.enroll_course(1, 2, participant, s("enr"), s("ENR"), s("uri://e")),
        Err(ApecErrorCode::AlreadyInitialized)
    );
    assert_eq!(ledger.enrollments.len(), 1);
}

#[test]
fn enrollment_needs_an_existing_course() {
    let mut ledger = registry();
    assert_eq!(
        ledger.enroll_course(1, 9, b32(0x42), s("enr"), s("ENR"), s("uri://e")),
        Err(ApecErrorCode::NotFound)
    );
}

#[test]
fn token_mints_once_then_authority_is_revoked() {
    let mut token = TokenRecord::create(1, 2, b32(0), 1, s("cert"), s("APECERT"), s("uri://a"));
    assert_eq!(token.supply, 0);
    assert_eq!(token.mint_authority, MintAuthority::Mintable(1));
    token.mint_one();
    assert_eq!(token.supply, 1);
    token.revoke_mint_authority();
    assert_eq!(token.mint_authority, MintAuthority::Revoked);
}

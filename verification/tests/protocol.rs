//! End-to-end tests of the registration, messaging and slashing protocol,
//! with the real commitment scheme linked in.
use rln::{setup_params, Identity, MessageOutcome, Registry, RlnError, Scalar};

fn registered_setup(limit: usize) -> (rln::PublicParams, Registry, Identity, Vec<u8>) {
    let params = setup_params(limit, 42);
    let mut registry = Registry::new(limit, params.dup());
    let identity = Identity::new(limit, 7);
    let bundle = identity.build_registration(&params).unwrap();
    let pubkey = bundle.public_id.clone();
    registry.register(bundle.commitment, &bundle.proof, bundle.public_id).unwrap();
    (params, registry, identity, pubkey)
}

#[test]
fn register_roundtrip() {
    let (_params, registry, _identity, pubkey) = registered_setup(3);
    assert!(registry.is_registered(&pubkey));
    assert_eq!(registry.share_count(&pubkey), Some(0));
}

#[test]
fn register_twice_is_rejected() {
    let (params, mut registry, identity, pubkey) = registered_setup(3);
    let again = identity.build_registration(&params).unwrap();
    match registry.register(again.commitment, &again.proof, again.public_id) {
        Err(RlnError::AlreadyRegistered) => (),
        _ => panic!("re-registration must be rejected"),
    }
    assert!(registry.is_registered(&pubkey));
}

#[test]
fn register_with_wrong_identity_is_rejected() {
    let params = setup_params(2, 42);
    let mut registry = Registry::new(2, params.dup());
    let alice = Identity::new(2, 1);
    let bob = Identity::new(2, 2);
    let bundle = alice.build_registration(&params).unwrap();
    // Alice's commitment with Bob's public identity: the pairing check fails.
    match registry.register(bundle.commitment, &bundle.proof, bob.public_id(&params)) {
        Err(RlnError::InvalidRegistrationProof) => (),
        _ => panic!("a mismatched registration must be rejected"),
    }
    assert!(!registry.is_registered(&bob.public_id(&params)));
}

#[test]
fn register_with_undecodable_identity_is_rejected() {
    let params = setup_params(2, 42);
    let mut registry = Registry::new(2, params.dup());
    let alice = Identity::new(2, 1);
    let bundle = alice.build_registration(&params).unwrap();
    match registry.register(bundle.commitment, &bundle.proof, vec![1u8, 2, 3]) {
        Err(RlnError::InvalidRegistrationProof) => (),
        _ => panic!("undecodable identity bytes must be rejected"),
    }
}

#[test]
fn unknown_identity_is_rejected() {
    let (params, mut registry, identity, _pubkey) = registered_setup(3);
    let point = Scalar::from_u64(1);
    let msg = identity.build_message(&params, &point).unwrap();
    match registry.submit_message(&vec![9u8; 48], &point, &msg.value, &msg.proof) {
        Err(RlnError::UnknownIdentity) => (),
        _ => panic!("a message for an unregistered identity must be rejected"),
    }
}

#[test]
fn duplicate_point_is_rejected_and_not_counted() {
    let (params, mut registry, identity, pubkey) = registered_setup(3);
    let point = Scalar::from_u64(5);
    let msg = identity.build_message(&params, &point).unwrap();
    match registry.submit_message(&pubkey, &point, &msg.value, &msg.proof) {
        Ok(MessageOutcome::Accepted) => (),
        _ => panic!("a fresh valid message must be accepted"),
    }
    assert_eq!(registry.share_count(&pubkey), Some(1));
    let again = identity.build_message(&params, &point).unwrap();
    match registry.submit_message(&pubkey, &point, &again.value, &again.proof) {
        Err(RlnError::DuplicateSharePoint) => (),
        _ => panic!("a repeated point must be rejected"),
    }
    assert_eq!(registry.share_count(&pubkey), Some(1));
}

#[test]
fn foreign_proof_is_rejected_and_record_unchanged() {
    let (params, mut registry, _identity, pubkey) = registered_setup(3);
    let stranger = Identity::new(3, 99);
    let point = Scalar::from_u64(4);
    let msg = stranger.build_message(&params, &point).unwrap();
    match registry.submit_message(&pubkey, &point, &msg.value, &msg.proof) {
        Err(RlnError::InvalidMessageProof) => (),
        _ => panic!("a proof against another commitment must be rejected"),
    }
    assert_eq!(registry.share_count(&pubkey), Some(0));
    assert!(registry.is_registered(&pubkey));
}

fn exact_threshold(limit: usize) {
    let (params, mut registry, identity, pubkey) = registered_setup(limit);
    for i in 0..limit {
        let point = Scalar::from_u64(i as u64 + 1);
        let msg = identity.build_message(&params, &point).unwrap();
        match registry.submit_message(&pubkey, &point, &msg.value, &msg.proof) {
            Ok(MessageOutcome::Accepted) => (),
            _ => panic!("messages within the limit must be accepted"),
        }
        assert!(registry.is_registered(&pubkey));
        assert_eq!(registry.share_count(&pubkey), Some(i + 1));
    }
    let point = Scalar::from_u64(limit as u64 + 1);
    let msg = identity.build_message(&params, &point).unwrap();
    match registry.submit_message(&pubkey, &point, &msg.value, &msg.proof) {
        Ok(MessageOutcome::Slashed(key)) => {
            assert!(key.eq_value(&identity.secret_key()));
        },
        _ => panic!("the message past the limit must slash"),
    }
    assert!(!registry.is_registered(&pubkey));
}

#[test]
fn threshold_exact_limit_zero() {
    exact_threshold(0);
}

#[test]
fn threshold_exact_limit_one() {
    exact_threshold(1);
}

#[test]
fn threshold_exact_limit_three() {
    exact_threshold(3);
}

#[test]
fn threshold_exact_limit_ten() {
    exact_threshold(10);
}

#[test]
fn slashed_identity_is_unknown_afterwards() {
    let limit = 1;
    let (params, mut registry, identity, pubkey) = registered_setup(limit);
    for i in 0..(limit as u64 + 1) {
        let point = Scalar::from_u64(i + 1);
        let msg = identity.build_message(&params, &point).unwrap();
        registry.submit_message(&pubkey, &point, &msg.value, &msg.proof).unwrap();
    }
    let point = Scalar::from_u64(77);
    let msg = identity.build_message(&params, &point).unwrap();
    match registry.submit_message(&pubkey, &point, &msg.value, &msg.proof) {
        Err(RlnError::UnknownIdentity) => (),
        _ => panic!("a slashed identity must be unknown"),
    }
}

#[test]
fn slashing_one_identity_leaves_others_untouched() {
    let limit = 1;
    let params = setup_params(limit, 42);
    let mut registry = Registry::new(limit, params.dup());
    let alice = Identity::new(limit, 1);
    let bob = Identity::new(limit, 2);
    let ra = alice.build_registration(&params).unwrap();
    let pk_alice = ra.public_id.clone();
    registry.register(ra.commitment, &ra.proof, ra.public_id).unwrap();
    let rb = bob.build_registration(&params).unwrap();
    let pk_bob = rb.public_id.clone();
    registry.register(rb.commitment, &rb.proof, rb.public_id).unwrap();

    let m = bob.build_message(&params, &Scalar::from_u64(3)).unwrap();
    registry.submit_message(&pk_bob, &Scalar::from_u64(3), &m.value, &m.proof).unwrap();
    for i in 0..(limit as u64 + 1) {
        let point = Scalar::from_u64(i + 10);
        let msg = alice.build_message(&params, &point).unwrap();
        registry.submit_message(&pk_alice, &point, &msg.value, &msg.proof).unwrap();
    }
    assert!(!registry.is_registered(&pk_alice));
    assert!(registry.is_registered(&pk_bob));
    assert_eq!(registry.share_count(&pk_bob), Some(1));
}

#[test]
fn epoch_reset_clears_records() {
    let (_params, mut registry, _identity, pubkey) = registered_setup(2);
    assert!(registry.is_registered(&pubkey));
    registry.reset_epoch();
    assert!(!registry.is_registered(&pubkey));
    assert_eq!(registry.share_count(&pubkey), None);
}

#[test]
fn oversized_polynomial_fails_proof_construction() {
    // Parameters for degree 1 cannot commit to a degree-5 polynomial.
    let params = setup_params(1, 42);
    let identity = Identity::new(5, 3);
    match identity.build_registration(&params) {
        Err(RlnError::ProofConstructionError) => (),
        _ => panic!("an oversized polynomial must fail proof construction"),
    }
}

#[test]
fn limit_is_reported() {
    let params = setup_params(4, 42);
    let registry = Registry::new(4, params);
    assert_eq!(registry.limit(), 4);
}

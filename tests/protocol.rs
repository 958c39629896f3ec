use github_bounty::circuit::{bounty, BountyInput};
use github_bounty::codec::{
    decode, encode, EncryptedArgument, OrchestratorError, ParamKind, RawArgument, Width,
};
use github_bounty::nonce::nonce_le_bytes;
use github_bounty::program::{bounty_callback, bounty_signature, compute_bounty, init_compute_bounty};
use github_bounty::store::{ComputationOutcome, Orchestrator, RequestState, Resolution};

fn registered() -> (Orchestrator, u32) {
    let mut store = Orchestrator::new();
    let offset = init_compute_bounty(&mut store).expect("registration succeeds");
    (store, offset)
}

fn submit(store: &mut Orchestrator, token: u64) -> Result<(), OrchestratorError> {
    compute_bounty(store, token, [1u8; 32], [2u8; 32], [3u8; 32], [4u8; 32], 7).map(|_| ())
}

#[test]
fn end_to_end_success_publishes_one_event() {
    let (mut store, offset) = registered();
    let receipt = compute_bounty(&mut store, 42, [1u8; 32], [2u8; 32], [3u8; 32], [4u8; 32], 7)
        .expect("submission succeeds");
    assert_eq!(receipt.computation_offset, 42);
    assert_eq!(receipt.definition_offset, offset);
    assert_eq!(
        receipt.arguments,
        vec![
            EncryptedArgument::EncryptedScalar { width: Width::W8, ciphertext: [1u8; 32] },
            EncryptedArgument::EncryptedScalar { width: Width::W8, ciphertext: [2u8; 32] },
            EncryptedArgument::EncryptedScalar { width: Width::W8, ciphertext: [3u8; 32] },
            EncryptedArgument::PublicKey { key: [4u8; 32] },
            EncryptedArgument::PlaintextScalar { width: Width::W128, value: 7 },
        ]
    );
    assert_eq!(store.request_state(42), Some(RequestState::Pending));
    let outcome = ComputationOutcome::Success { ciphertexts: vec![[9u8; 32]], nonce: 7 };
    assert_eq!(bounty_callback(&mut store, 42, outcome), Ok(()));
    let events = store.events();
    assert_eq!(events.len(), 1);
    assert_eq!(events[0].computation_offset, 42);
    assert_eq!(events[0].bounty, [9u8; 32]);
    let mut nonce = [0u8; 16];
    nonce[0] = 7;
    assert_eq!(events[0].nonce, nonce);
    assert_eq!(store.request_state(42), Some(RequestState::Finalized));
}

#[test]
fn end_to_end_abort_reports_and_publishes_nothing() {
    let (mut store, _) = registered();
    assert_eq!(submit(&mut store, 42), Ok(()));
    assert_eq!(
        bounty_callback(&mut store, 42, ComputationOutcome::Aborted),
        Err(OrchestratorError::AbortedComputation)
    );
    assert!(store.events().is_empty());
    assert_eq!(store.request_state(42), Some(RequestState::Resolved(Resolution::Aborted)));
    let late = ComputationOutcome::Success { ciphertexts: vec![[9u8; 32]], nonce: 7 };
    assert_eq!(
        bounty_callback(&mut store, 42, late),
        Err(OrchestratorError::UnknownOrFinalizedComputation)
    );
    assert!(store.events().is_empty());
}

#[test]
fn duplicate_token_before_callback_is_rejected() {
    let (mut store, _) = registered();
    assert_eq!(submit(&mut store, 1), Ok(()));
    assert_eq!(submit(&mut store, 1), Err(OrchestratorError::DuplicateComputationOffset));
    assert_eq!(store.request_state(1), Some(RequestState::Pending));
}

#[test]
fn aborted_token_stays_occupied() {
    let (mut store, _) = registered();
    assert_eq!(submit(&mut store, 5), Ok(()));
    assert_eq!(
        bounty_callback(&mut store, 5, ComputationOutcome::Aborted),
        Err(OrchestratorError::AbortedComputation)
    );
    assert_eq!(submit(&mut store, 5), Err(OrchestratorError::DuplicateComputationOffset));
}

#[test]
fn token_is_reusable_after_finalization() {
    let (mut store, _) = registered();
    assert_eq!(submit(&mut store, 3), Ok(()));
    let outcome = ComputationOutcome::Success { ciphertexts: vec![[5u8; 32]], nonce: 1 };
    assert_eq!(bounty_callback(&mut store, 3, outcome), Ok(()));
    assert_eq!(submit(&mut store, 3), Ok(()));
    assert_eq!(store.request_state(3), Some(RequestState::Pending));
    assert_eq!(store.events().len(), 1);
}

#[test]
fn second_success_callback_is_rejected() {
    let (mut store, _) = registered();
    assert_eq!(submit(&mut store, 8), Ok(()));
    let first = ComputationOutcome::Success { ciphertexts: vec![[6u8; 32]], nonce: 2 };
    let again = ComputationOutcome::Success { ciphertexts: vec![[6u8; 32]], nonce: 2 };
    assert_eq!(bounty_callback(&mut store, 8, first), Ok(()));
    assert_eq!(
        bounty_callback(&mut store, 8, again),
        Err(OrchestratorError::UnknownOrFinalizedComputation)
    );
    assert_eq!(store.events().len(), 1);
}

#[test]
fn callback_for_unknown_token_is_rejected() {
    let (mut store, _) = registered();
    assert_eq!(
        bounty_callback(&mut store, 99, ComputationOutcome::Aborted),
        Err(OrchestratorError::UnknownOrFinalizedComputation)
    );
    assert_eq!(store.request_state(99), None);
    assert!(store.events().is_empty());
}

#[test]
fn submission_without_registration_is_rejected() {
    let mut store = Orchestrator::new();
    assert_eq!(submit(&mut store, 1), Err(OrchestratorError::UnknownDefinition));
    assert_eq!(store.request_state(1), None);
}

#[test]
fn registering_twice_is_a_no_op() {
    let (mut store, offset) = registered();
    assert_eq!(init_compute_bounty(&mut store), Ok(offset));
    assert_eq!(submit(&mut store, 1), Ok(()));
}

#[test]
fn registration_offset_is_the_derived_one() {
    let (_, offset) = registered();
    assert_eq!(offset, arcium_anchor::comp_def_offset("compute_bounty"));
    let mut store = Orchestrator::new();
    assert_eq!(
        store.register("another_circuit", vec![ParamKind::PublicKey]),
        Ok(arcium_anchor::comp_def_offset("another_circuit"))
    );
}

#[test]
fn conflicting_definition_is_rejected() {
    let (mut store, _) = registered();
    assert_eq!(
        store.register("compute_bounty", vec![ParamKind::PublicKey]),
        Err(OrchestratorError::DefinitionConflict)
    );
    assert_eq!(submit(&mut store, 1), Ok(()));
}

#[test]
fn shape_mismatch_is_rejected_before_queuing() {
    let mut store = Orchestrator::new();
    let offset = store
        .register("pair", vec![ParamKind::EncryptedScalar(Width::W8), ParamKind::PlaintextScalar(Width::W8)])
        .expect("registration succeeds");
    let too_wide = vec![RawArgument::Ciphertext { width: Width::W8, ciphertext: [0u8; 32] }, RawArgument::Plaintext { width: Width::W8, value: 256 }];
    assert_eq!(
        store.submit(1, offset, &too_wide).map(|_| ()),
        Err(OrchestratorError::ArgumentShapeMismatch)
    );
    let short = vec![RawArgument::Ciphertext { width: Width::W8, ciphertext: [0u8; 32] }];
    assert_eq!(
        store.submit(1, offset, &short).map(|_| ()),
        Err(OrchestratorError::ArgumentShapeMismatch)
    );
    let ok = vec![RawArgument::Ciphertext { width: Width::W8, ciphertext: [0u8; 32] }, RawArgument::Plaintext { width: Width::W8, value: 255 }];
    assert!(store.submit(1, offset, &ok).is_ok());
}

#[test]
fn encode_checks_count_kind_and_width() {
    let sig = bounty_signature();
    let raw = vec![
        RawArgument::Ciphertext { width: Width::W8, ciphertext: [1u8; 32] },
        RawArgument::Ciphertext { width: Width::W8, ciphertext: [2u8; 32] },
        RawArgument::Ciphertext { width: Width::W8, ciphertext: [3u8; 32] },
        RawArgument::PublicKey { key: [4u8; 32] },
        RawArgument::Plaintext { width: Width::W128, value: u128::MAX },
    ];
    assert!(encode(&sig, &raw).is_ok());
    let mut wrong_kind = raw.clone();
    wrong_kind[3] = RawArgument::Ciphertext { width: Width::W8, ciphertext: [4u8; 32] };
    assert_eq!(encode(&sig, &wrong_kind), Err(OrchestratorError::ArgumentShapeMismatch));
    assert_eq!(encode(&sig, &raw[..4].to_vec()), Err(OrchestratorError::ArgumentShapeMismatch));
    assert_eq!(encode(&Vec::new(), &Vec::new()), Ok(Vec::new()));
}

#[test]
fn encode_then_decode_round_trips() {
    let sig = vec![
        ParamKind::EncryptedScalar(Width::W16),
        ParamKind::PublicKey,
        ParamKind::PlaintextScalar(Width::W64),
        ParamKind::PlaintextScalar(Width::W32),
    ];
    let raw = vec![
        RawArgument::Ciphertext { width: Width::W16, ciphertext: [7u8; 32] },
        RawArgument::PublicKey { key: [8u8; 32] },
        RawArgument::Plaintext { width: Width::W64, value: u64::MAX as u128 },
        RawArgument::Plaintext { width: Width::W32, value: 12 },
    ];
    let args = encode(&sig, &raw).expect("shapes match");
    let (kinds, values) = decode(&args);
    assert_eq!(kinds, sig);
    assert_eq!(values, raw);
}

#[test]
fn nonce_is_little_endian() {
    let bytes = nonce_le_bytes(0x0102_0304);
    let mut expected = [0u8; 16];
    expected[0] = 4;
    expected[1] = 3;
    expected[2] = 2;
    expected[3] = 1;
    assert_eq!(bytes, expected);
    assert_eq!(nonce_le_bytes(u128::MAX), [0xffu8; 16]);
    assert_eq!(nonce_le_bytes(7), 7u128.to_le_bytes());
}

#[test]
fn bounty_amount_formula() {
    assert_eq!(bounty(BountyInput { effort: 3, quality: 4 }), 5_000_000);
    assert_eq!(bounty(BountyInput { effort: 0, quality: 0 }), 0);
    assert_eq!(bounty(BountyInput { effort: 255, quality: 255 }), 382_500_000);
}

#[test]
fn narrower_nonce_parameter_rejects_bounty_job() {
    let mut store = Orchestrator::new();
    let mut sig = bounty_signature();
    sig[4] = ParamKind::PlaintextScalar(Width::W64);
    assert!(store.register("compute_bounty", sig).is_ok());
    assert_eq!(submit(&mut store, 1), Err(OrchestratorError::ArgumentShapeMismatch));
    assert_eq!(store.request_state(1), None);
}

#[test]
fn width_must_match_even_when_value_fits() {
    let sig = vec![ParamKind::PlaintextScalar(Width::W64), ParamKind::EncryptedScalar(Width::W8)];
    let raw = vec![
        RawArgument::Plaintext { width: Width::W128, value: 7 },
        RawArgument::Ciphertext { width: Width::W8, ciphertext: [0u8; 32] },
    ];
    assert_eq!(encode(&sig, &raw), Err(OrchestratorError::ArgumentShapeMismatch));
    let wrong_cipher = vec![
        RawArgument::Plaintext { width: Width::W64, value: 7 },
        RawArgument::Ciphertext { width: Width::W32, ciphertext: [0u8; 32] },
    ];
    assert_eq!(encode(&sig, &wrong_cipher), Err(OrchestratorError::ArgumentShapeMismatch));
    let right = vec![
        RawArgument::Plaintext { width: Width::W64, value: 7 },
        RawArgument::Ciphertext { width: Width::W8, ciphertext: [0u8; 32] },
    ];
    assert!(encode(&sig, &right).is_ok());
}

#[test]
fn malformed_callback_for_unknown_token_is_rejected() {
    let (mut store, _) = registered();
    let empty = ComputationOutcome::Success { ciphertexts: Vec::new(), nonce: 1 };
    assert_eq!(
        bounty_callback(&mut store, 77, empty),
        Err(OrchestratorError::UnknownOrFinalizedComputation)
    );
    assert!(store.events().is_empty());
}

use vstd::prelude::*;

use crate::codec::{
    encoded, kind_of, raw_of, shape_matches, EncryptedArgument, OrchestratorError, ParamKind,
    RawArgument,
};
use crate::program::{bounty_arguments_spec, bounty_signature_spec};
use crate::offset::comp_def_offset_of;
use crate::store::{
    event_of, is_pending, on_result_spec, outcome_well_formed, register_spec, resolve_spec,
    submit_spec, ComputationOutcome, OrchestratorView, RequestState, RequestView, Resolution,
};

verus! {

/// Registering a definition twice leaves the store and the result as one
/// registration does.
pub proof fn lemma_register_idempotent(v: OrchestratorView, name: Seq<char>, signature: Seq<ParamKind>)
    ensures
        register_spec(register_spec(v, name, signature).0, name, signature) == register_spec(
            v,
            name,
            signature,
        ),
{
    let (w, r) = register_spec(v, name, signature);
    let offset = comp_def_offset_of(name);
    if r is Ok {
        assert(w.definitions.insert(offset, w.definitions[offset]) =~= w.definitions);
    }
}

/// Once a name is registered, registering a different name that derives the
/// same offset fails with `DefinitionConflict` and changes nothing.
pub proof fn lemma_register_collision(
    v: OrchestratorView,
    name: Seq<char>,
    signature: Seq<ParamKind>,
    other: Seq<char>,
    other_signature: Seq<ParamKind>,
)
    requires
        register_spec(v, name, signature).1 is Ok,
        other != name,
        comp_def_offset_of(other) == comp_def_offset_of(name),
    ensures
        register_spec(register_spec(v, name, signature).0, other, other_signature) == (
            register_spec(v, name, signature).0,
            Err::<u32, OrchestratorError>(OrchestratorError::DefinitionConflict),
        ),
{
}

/// A second submission under a token that was just queued fails with
/// `DuplicateComputationOffset` and changes nothing, whatever definition and
/// arguments it names, as long as that definition is registered.
pub proof fn lemma_submit_twice_duplicate(
    v: OrchestratorView,
    computation_offset: u64,
    definition_offset: u32,
    raw: Seq<RawArgument>,
    other_definition: u32,
    other_raw: Seq<RawArgument>,
)
    requires
        submit_spec(v, computation_offset, definition_offset, raw).1 is Ok,
        v.definitions.contains_key(other_definition),
    ensures
        ({
            let w = submit_spec(v, computation_offset, definition_offset, raw).0;
            submit_spec(w, computation_offset, other_definition, other_raw) == (
                w,
                Err::<Seq<crate::codec::EncryptedArgument>, OrchestratorError>(
                    OrchestratorError::DuplicateComputationOffset,
                ),
            )
        }),
{
}

/// After a job is queued and its successful result published, the token is
/// free again: the same submission succeeds and the request is pending.
pub proof fn lemma_token_reusable_after_finalization(
    v: OrchestratorView,
    computation_offset: u64,
    definition_offset: u32,
    raw: Seq<RawArgument>,
    outcome: ComputationOutcome,
)
    requires
        submit_spec(v, computation_offset, definition_offset, raw).1 is Ok,
        outcome is Success,
        outcome_well_formed(outcome),
    ensures
        ({
            let w = submit_spec(v, computation_offset, definition_offset, raw).0;
            let f = on_result_spec(w, computation_offset, outcome).0;
            &&& f.requests[computation_offset].state == RequestState::Finalized
            &&& submit_spec(f, computation_offset, definition_offset, raw).1 is Ok
            &&& submit_spec(f, computation_offset, definition_offset, raw).0.requests[computation_offset].state
                == RequestState::Pending
        }),
{
    let w = submit_spec(v, computation_offset, definition_offset, raw).0;
    assert(shape_matches(w.definitions[definition_offset].signature, raw));
}

/// A success callback on a pending request resolves it, then finalizes it and
/// appends exactly one event; delivering the same callback again fails with
/// `UnknownOrFinalizedComputation` and changes nothing.
pub proof fn lemma_success_callback_once(v: OrchestratorView, computation_offset: u64, outcome: ComputationOutcome)
    requires
        is_pending(v, computation_offset),
        outcome_well_formed(outcome),
        outcome is Success,
    ensures
        resolve_spec(v, computation_offset, outcome).0.requests[computation_offset].state
            == RequestState::Resolved(Resolution::Success),
        ({
            let (w, r) = on_result_spec(v, computation_offset, outcome);
            &&& r == Ok::<(), OrchestratorError>(())
            &&& w.requests[computation_offset].state == RequestState::Finalized
            &&& match outcome {
                ComputationOutcome::Success { ciphertexts, nonce } => w.events == v.events.push(
                    event_of(computation_offset, ciphertexts@[0], nonce),
                ),
                ComputationOutcome::Aborted => false,
            }
            &&& on_result_spec(w, computation_offset, outcome) == (
                w,
                Err::<(), OrchestratorError>(OrchestratorError::UnknownOrFinalizedComputation),
            )
        }),
{
}

/// An abort callback on a pending request resolves it as aborted, reports
/// `AbortedComputation` and publishes nothing; no later callback for that
/// token changes the store or publishes an event.
pub proof fn lemma_aborted_callback(v: OrchestratorView, computation_offset: u64)
    requires
        is_pending(v, computation_offset),
    ensures
        ({
            let (w, r) = on_result_spec(v, computation_offset, ComputationOutcome::Aborted);
            &&& r == Err::<(), OrchestratorError>(OrchestratorError::AbortedComputation)
            &&& w.requests[computation_offset].state == RequestState::Resolved(Resolution::Aborted)
            &&& w.events == v.events
            &&& forall|later: ComputationOutcome|
                #[trigger] on_result_spec(w, computation_offset, later) == (
                    w,
                    Err::<(), OrchestratorError>(OrchestratorError::UnknownOrFinalizedComputation),
                )
        }),
{
}

/// A bounty job's arguments match a signature exactly when it is the bounty
/// signature; decoding the encoded job then gives back that signature and the
/// arguments, in order: three 8-bit ciphertexts, the public key, and the
/// 128-bit nonce.
pub proof fn lemma_bounty_job_round_trip(
    signature: Seq<ParamKind>,
    ciphertext_effort: [u8; 32],
    ciphertext_quality: [u8; 32],
    ciphertext_length: [u8; 32],
    pub_key: [u8; 32],
    nonce: u128,
)
    ensures
        ({
            let raw = bounty_arguments_spec(
                ciphertext_effort,
                ciphertext_quality,
                ciphertext_length,
                pub_key,
                nonce,
            );
            &&& shape_matches(signature, raw) <==> signature == bounty_signature_spec()
            &&& encoded(raw).map_values(|a: EncryptedArgument| kind_of(a)) == bounty_signature_spec()
            &&& encoded(raw).map_values(|a: EncryptedArgument| raw_of(a)) == raw
        }),
{
    let raw = bounty_arguments_spec(ciphertext_effort, ciphertext_quality, ciphertext_length, pub_key, nonce);
    let sig = bounty_signature_spec();
    assert forall|i: int| 0 <= i < raw.len() implies #[trigger] crate::codec::arg_matches(sig[i], raw[i]) by {}
    if shape_matches(signature, raw) {
        assert forall|i: int| 0 <= i < sig.len() implies signature[i] == sig[i] by {
            assert(crate::codec::arg_matches(signature[i], raw[i]));
        }
        assert(signature =~= sig);
    }
    crate::codec::lemma_encode_decode_round_trip(sig, raw);
}

/// After a bounty job is queued and its successful result published, the
/// token is free again: a new bounty job under it, with any arguments, is
/// accepted and recorded as pending with those arguments.
pub proof fn lemma_bounty_token_reusable(
    v: OrchestratorView,
    computation_offset: u64,
    first_effort: [u8; 32],
    first_quality: [u8; 32],
    first_length: [u8; 32],
    first_key: [u8; 32],
    first_nonce: u128,
    outcome: ComputationOutcome,
    ciphertext_effort: [u8; 32],
    ciphertext_quality: [u8; 32],
    ciphertext_length: [u8; 32],
    pub_key: [u8; 32],
    nonce: u128,
)
    requires
        submit_spec(
            v,
            computation_offset,
            comp_def_offset_of("compute_bounty"@),
            bounty_arguments_spec(first_effort, first_quality, first_length, first_key, first_nonce),
        ).1 is Ok,
        outcome is Success,
        outcome_well_formed(outcome),
    ensures
        ({
            let offset = comp_def_offset_of("compute_bounty"@);
            let first = bounty_arguments_spec(first_effort, first_quality, first_length, first_key, first_nonce);
            let w = submit_spec(v, computation_offset, offset, first).0;
            let f = on_result_spec(w, computation_offset, outcome).0;
            let raw = bounty_arguments_spec(
                ciphertext_effort,
                ciphertext_quality,
                ciphertext_length,
                pub_key,
                nonce,
            );
            let (g, r) = submit_spec(f, computation_offset, offset, raw);
            &&& r == Ok::<Seq<EncryptedArgument>, OrchestratorError>(encoded(raw))
            &&& g.requests[computation_offset] == (RequestView {
                definition_offset: offset,
                arguments: encoded(raw),
                state: RequestState::Pending,
            })
        }),
{
    let offset = comp_def_offset_of("compute_bounty"@);
    let sig = v.definitions[offset].signature;
    lemma_bounty_job_round_trip(sig, first_effort, first_quality, first_length, first_key, first_nonce);
    lemma_bounty_job_round_trip(sig, ciphertext_effort, ciphertext_quality, ciphertext_length, pub_key, nonce);
}

} // verus!

use vstd::prelude::*;

use crate::codec::{OrchestratorError, ParamKind, RawArgument, Width};
use crate::offset::{comp_def_offset_of, derive_offset};
use crate::store::{
    is_pending, on_result_spec, outcome_well_formed, register_spec, submit_spec, ComputationOutcome,
    Orchestrator, QueueReceipt,
};

verus! {

/// The declared signature of the bounty computation: three encrypted 8-bit
/// ratings (effort, quality, length), the caller's public key, and the nonce.
pub open spec fn bounty_signature_spec() -> Seq<ParamKind> {
    seq![
        ParamKind::EncryptedScalar(Width::W8),
        ParamKind::EncryptedScalar(Width::W8),
        ParamKind::EncryptedScalar(Width::W8),
        ParamKind::PublicKey,
        ParamKind::PlaintextScalar(Width::W128),
    ]
}

/// The arguments of one bounty job, in signature order.
pub open spec fn bounty_arguments_spec(
    ciphertext_effort: [u8; 32],
    ciphertext_quality: [u8; 32],
    ciphertext_length: [u8; 32],
    pub_key: [u8; 32],
    nonce: u128,
) -> Seq<RawArgument> {
    seq![
        RawArgument::Ciphertext { width: Width::W8, ciphertext: ciphertext_effort },
        RawArgument::Ciphertext { width: Width::W8, ciphertext: ciphertext_quality },
        RawArgument::Ciphertext { width: Width::W8, ciphertext: ciphertext_length },
        RawArgument::PublicKey { key: pub_key },
        RawArgument::Plaintext { width: Width::W128, value: nonce },
    ]
}

/// The declared signature of the bounty computation.
pub fn bounty_signature() -> (r: Vec<ParamKind>)
    ensures
        r@ == bounty_signature_spec(),
{
    let r = vec![
        ParamKind::EncryptedScalar(Width::W8),
        ParamKind::EncryptedScalar(Width::W8),
        ParamKind::EncryptedScalar(Width::W8),
        ParamKind::PublicKey,
        ParamKind::PlaintextScalar(Width::W128),
    ];
    assert(r@ =~= bounty_signature_spec());
    r
}

/// Registers the bounty computation under the name "compute_bounty".
pub fn init_compute_bounty(store: &mut Orchestrator) -> (r: Result<u32, OrchestratorError>)
    requires
        old(store).wf(),
    ensures
        final(store).wf(),
        (final(store)@, r) == register_spec(old(store)@, "compute_bounty"@, bounty_signature_spec()),
{
    store.register("compute_bounty", bounty_signature())
}

/// Queues a bounty job under the correlation token `computation_offset`.
pub fn compute_bounty(
    store: &mut Orchestrator,
    computation_offset: u64,
    ciphertext_effort: [u8; 32],
    ciphertext_quality: [u8; 32],
    ciphertext_length: [u8; 32],
    pub_key: [u8; 32],
    nonce: u128,
) -> (r: Result<QueueReceipt, OrchestratorError>)
    requires
        old(store).wf(),
    ensures
        final(store).wf(),
        ({
            let (v, res) = submit_spec(
                old(store)@,
                computation_offset,
                comp_def_offset_of("compute_bounty"@),
                bounty_arguments_spec(
                    ciphertext_effort,
                    ciphertext_quality,
                    ciphertext_length,
                    pub_key,
                    nonce,
                ),
            );
            &&& final(store)@ == v
            &&& match r {
                Ok(receipt) => {
                    &&& res == Ok::<Seq<crate::codec::EncryptedArgument>, OrchestratorError>(
                        receipt.arguments@,
                    )
                    &&& receipt.computation_offset == computation_offset
                    &&& receipt.definition_offset == comp_def_offset_of("compute_bounty"@)
                },
                Err(e) => res == Err::<Seq<crate::codec::EncryptedArgument>, OrchestratorError>(e),
            }
        }),
{
    let definition_offset = derive_offset("compute_bounty");
    let args = vec![
        RawArgument::Ciphertext { width: Width::W8, ciphertext: ciphertext_effort },
        RawArgument::Ciphertext { width: Width::W8, ciphertext: ciphertext_quality },
        RawArgument::Ciphertext { width: Width::W8, ciphertext: ciphertext_length },
        RawArgument::PublicKey { key: pub_key },
        RawArgument::Plaintext { width: Width::W128, value: nonce },
    ];
    assert(args@ =~= bounty_arguments_spec(
        ciphertext_effort,
        ciphertext_quality,
        ciphertext_length,
        pub_key,
        nonce,
    ));
    store.submit(computation_offset, definition_offset, &args)
}

/// Delivers the network's outcome for the job under `computation_offset`.
pub fn bounty_callback(store: &mut Orchestrator, computation_offset: u64, output: ComputationOutcome) -> (r:
    Result<(), OrchestratorError>)
    requires
        old(store).wf(),
        is_pending(old(store)@, computation_offset) ==> outcome_well_formed(output),
    ensures
        final(store).wf(),
        (final(store)@, r) == on_result_spec(old(store)@, computation_offset, output),
{
    store.on_result(computation_offset, output)
}

} // verus!

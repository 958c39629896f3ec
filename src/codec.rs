use vstd::prelude::*;

verus! {

/// Bit width of a scalar argument.
#[derive(Clone, Copy, Debug, PartialEq, Eq, Structural)]
pub enum Width {
    W8,
    W16,
    W32,
    W64,
    W128,
}

/// One parameter of a computation definition's declared signature.
#[derive(Clone, Copy, Debug, PartialEq, Eq, Structural)]
pub enum ParamKind {
    /// A secret scalar, carried as one 32-byte ciphertext block.
    EncryptedScalar(Width),
    /// A 32-byte public key.
    PublicKey,
    /// A scalar carried in the clear, such as a nonce.
    PlaintextScalar(Width),
}

/// An argument as the caller supplies it, with the width it claims, before
/// it is checked against a signature.
#[derive(Clone, Copy, Debug, PartialEq, Eq)]
pub enum RawArgument {
    Ciphertext { width: Width, ciphertext: [u8; 32] },
    PublicKey { key: [u8; 32] },
    Plaintext { width: Width, value: u128 },
}

/// A typed argument as the computation network consumes it.
#[derive(Clone, Copy, Debug, PartialEq, Eq)]
pub enum EncryptedArgument {
    EncryptedScalar { width: Width, ciphertext: [u8; 32] },
    PublicKey { key: [u8; 32] },
    PlaintextScalar { width: Width, value: u128 },
}

/// Errors of the orchestration protocol.
#[derive(Clone, Copy, Debug, PartialEq, Eq, Structural)]
pub enum OrchestratorError {
    /// The name's offset is already bound to a different definition.
    DefinitionConflict,
    /// A submission names a definition offset that was never registered.
    UnknownDefinition,
    /// A submission reuses a correlation token that is still in flight.
    DuplicateComputationOffset,
    /// The arguments do not match the definition's signature in count or shape.
    ArgumentShapeMismatch,
    /// The network could not produce a result for the computation.
    AbortedComputation,
    /// A callback names a token with no pending request.
    UnknownOrFinalizedComputation,
}

/// Whether a plaintext value fits in the given width.
pub open spec fn fits_width(width: Width, value: u128) -> bool {
    match width {
        Width::W8 => value < 0x100,
        Width::W16 => value < 0x1_0000,
        Width::W32 => value < 0x1_0000_0000,
        Width::W64 => value < 0x1_0000_0000_0000_0000,
        Width::W128 => true,
    }
}

/// The parameter kind that a raw argument claims to be.
pub open spec fn raw_kind(raw: RawArgument) -> ParamKind {
    match raw {
        RawArgument::Ciphertext { width, .. } => ParamKind::EncryptedScalar(width),
        RawArgument::PublicKey { .. } => ParamKind::PublicKey,
        RawArgument::Plaintext { width, .. } => ParamKind::PlaintextScalar(width),
    }
}

/// Whether a raw argument has the shape that a parameter declares: the same
/// kind and width, and a plaintext value that fits that width.
pub open spec fn arg_matches(kind: ParamKind, raw: RawArgument) -> bool {
    &&& raw_kind(raw) == kind
    &&& match raw {
        RawArgument::Plaintext { width, value } => fits_width(width, value),
        _ => true,
    }
}

/// Whether raw arguments match a signature in count and, one by one, in shape.
pub open spec fn shape_matches(signature: Seq<ParamKind>, raw: Seq<RawArgument>) -> bool {
    &&& signature.len() == raw.len()
    &&& forall|i: int| 0 <= i < raw.len() ==> #[trigger] arg_matches(signature[i], raw[i])
}

/// The typed argument for a raw argument.
pub open spec fn encode_arg(raw: RawArgument) -> EncryptedArgument {
    match raw {
        RawArgument::Ciphertext { width, ciphertext } => EncryptedArgument::EncryptedScalar { width, ciphertext },
        RawArgument::PublicKey { key } => EncryptedArgument::PublicKey { key },
        RawArgument::Plaintext { width, value } => EncryptedArgument::PlaintextScalar { width, value },
    }
}

/// The encoded argument list, position by position.
pub open spec fn encoded(raw: Seq<RawArgument>) -> Seq<EncryptedArgument> {
    Seq::new(raw.len(), |i: int| encode_arg(raw[i]))
}

/// The parameter kind that a typed argument carries.
pub open spec fn kind_of(arg: EncryptedArgument) -> ParamKind {
    match arg {
        EncryptedArgument::EncryptedScalar { width, .. } => ParamKind::EncryptedScalar(width),
        EncryptedArgument::PublicKey { .. } => ParamKind::PublicKey,
        EncryptedArgument::PlaintextScalar { width, .. } => ParamKind::PlaintextScalar(width),
    }
}

/// The raw argument that a typed argument carries.
pub open spec fn raw_of(arg: EncryptedArgument) -> RawArgument {
    match arg {
        EncryptedArgument::EncryptedScalar { width, ciphertext } => RawArgument::Ciphertext { width, ciphertext },
        EncryptedArgument::PublicKey { key } => RawArgument::PublicKey { key },
        EncryptedArgument::PlaintextScalar { width, value } => RawArgument::Plaintext { width, value },
    }
}

/// Whether a plaintext value fits in the given width.
fn value_fits(width: Width, value: u128) -> (r: bool)
    ensures
        r == fits_width(width, value),
{
    match width {
        Width::W8 => value < 0x100,
        Width::W16 => value < 0x1_0000,
        Width::W32 => value < 0x1_0000_0000,
        Width::W64 => value < 0x1_0000_0000_0000_0000,
        Width::W128 => true,
    }
}

/// Checks one raw argument against its parameter.
pub fn matches_param(kind: ParamKind, raw: RawArgument) -> (r: bool)
    ensures
        r == arg_matches(kind, raw),
{
    match raw {
        RawArgument::Ciphertext { width, .. } => kind == ParamKind::EncryptedScalar(width),
        RawArgument::PublicKey { .. } => kind == ParamKind::PublicKey,
        RawArgument::Plaintext { width, value } => kind == ParamKind::PlaintextScalar(width)
            && value_fits(width, value),
    }
}

/// Turns one raw argument into its typed argument.
fn encode_one(raw: RawArgument) -> (r: EncryptedArgument)
    ensures
        r == encode_arg(raw),
{
    match raw {
        RawArgument::Ciphertext { width, ciphertext } => EncryptedArgument::EncryptedScalar { width, ciphertext },
        RawArgument::PublicKey { key } => EncryptedArgument::PublicKey { key },
        RawArgument::Plaintext { width, value } => EncryptedArgument::PlaintextScalar { width, value },
    }
}

/// Encodes raw arguments against a signature; fails with
/// `ArgumentShapeMismatch` exactly when their count or a shape differs.
pub fn encode(signature: &Vec<ParamKind>, raw: &Vec<RawArgument>) -> (r: Result<
    Vec<EncryptedArgument>,
    OrchestratorError,
>)
    ensures
        match r {
            Ok(args) => shape_matches(signature@, raw@) && args@ == encoded(raw@),
            Err(e) => !shape_matches(signature@, raw@) && e == OrchestratorError::ArgumentShapeMismatch,
        },
{
    if signature.len() != raw.len() {
        return Err(OrchestratorError::ArgumentShapeMismatch);
    }
    let mut out: Vec<EncryptedArgument> = Vec::new();
    let mut i: usize = 0;
    while i < raw.len()
        invariant
            signature@.len() == raw@.len(),
            i <= raw@.len(),
            forall|j: int| 0 <= j < i ==> #[trigger] arg_matches(signature@[j], raw@[j]),
            out@ == encoded(raw@.take(i as int)),
        decreases raw.len() - i,
    {
        if !matches_param(signature[i], raw[i]) {
            return Err(OrchestratorError::ArgumentShapeMismatch);
        }
        out.push(encode_one(raw[i]));
        i = i + 1;
        assert(out@ =~= encoded(raw@.take(i as int)));
    }
    assert(raw@.take(i as int) =~= raw@);
    Ok(out)
}

/// Reads typed arguments back into their signature and raw values, as the
/// computation network does.
pub fn decode(args: &Vec<EncryptedArgument>) -> (r: (Vec<ParamKind>, Vec<RawArgument>))
    ensures
        r.0@ == args@.map_values(|a: EncryptedArgument| kind_of(a)),
        r.1@ == args@.map_values(|a: EncryptedArgument| raw_of(a)),
{
    let mut kinds: Vec<ParamKind> = Vec::new();
    let mut raws: Vec<RawArgument> = Vec::new();
    let mut i: usize = 0;
    while i < args.len()
        invariant
            i <= args@.len(),
            kinds@ == args@.take(i as int).map_values(|a: EncryptedArgument| kind_of(a)),
            raws@ == args@.take(i as int).map_values(|a: EncryptedArgument| raw_of(a)),
        decreases args.len() - i,
    {
        let (k, v) = match args[i] {
            EncryptedArgument::EncryptedScalar { width, ciphertext } => (
                ParamKind::EncryptedScalar(width),
                RawArgument::Ciphertext { width, ciphertext },
            ),
            EncryptedArgument::PublicKey { key } => (ParamKind::PublicKey, RawArgument::PublicKey { key }),
            EncryptedArgument::PlaintextScalar { width, value } => (
                ParamKind::PlaintextScalar(width),
                RawArgument::Plaintext { width, value },
            ),
        };
        kinds.push(k);
        raws.push(v);
        i = i + 1;
        assert(kinds@ =~= args@.take(i as int).map_values(|a: EncryptedArgument| kind_of(a)));
        assert(raws@ =~= args@.take(i as int).map_values(|a: EncryptedArgument| raw_of(a)));
    }
    assert(args@.take(i as int) =~= args@);
    (kinds, raws)
}

/// Decoding what was encoded gives back the signature and the raw arguments,
/// in order.
pub proof fn lemma_encode_decode_round_trip(signature: Seq<ParamKind>, raw: Seq<RawArgument>)
    requires
        shape_matches(signature, raw),
    ensures
        encoded(raw).map_values(|a: EncryptedArgument| kind_of(a)) == signature,
        encoded(raw).map_values(|a: EncryptedArgument| raw_of(a)) == raw,
{
    assert forall|i: int| 0 <= i < raw.len() implies kind_of(encode_arg(raw[i])) == signature[i]
        && raw_of(encode_arg(raw[i])) == raw[i] by {
        assert(arg_matches(signature[i], raw[i]));
    }
    assert(encoded(raw).map_values(|a: EncryptedArgument| kind_of(a)) =~= signature);
    assert(encoded(raw).map_values(|a: EncryptedArgument| raw_of(a)) =~= raw);
}

} // verus!

use vstd::prelude::*;

use crate::codec::{
    encode, encoded, shape_matches, EncryptedArgument, OrchestratorError, ParamKind, RawArgument,
};
use crate::nonce::{le_bytes, nonce_le_bytes};
use crate::offset::{comp_def_offset_of, derive_offset};

verus! {

/// A registered computation definition: which function the network runs.
pub struct Definition {
    pub name: String,
    pub offset: u32,
    pub signature: Vec<ParamKind>,
}

/// What a definition is, as far as the protocol is concerned.
pub struct DefinitionView {
    pub name: Seq<char>,
    pub signature: Seq<ParamKind>,
}

impl View for Definition {
    type V = DefinitionView;

    open spec fn view(&self) -> DefinitionView {
        DefinitionView { name: self.name@, signature: self.signature@ }
    }
}

/// How the network resolved a request.
#[derive(Clone, Copy, Debug, PartialEq, Eq, Structural)]
pub enum Resolution {
    Success,
    Aborted,
}

/// Lifecycle of a computation request.
#[derive(Clone, Copy, Debug, PartialEq, Eq, Structural)]
pub enum RequestState {
    Pending,
    Resolved(Resolution),
    Finalized,
}

/// A queued job, keyed by its correlation token.
pub struct ComputationRequest {
    pub computation_offset: u64,
    pub definition_offset: u32,
    pub arguments: Vec<EncryptedArgument>,
    pub state: RequestState,
}

/// What the store knows of one request.
pub struct RequestView {
    pub definition_offset: u32,
    pub arguments: Seq<EncryptedArgument>,
    pub state: RequestState,
}

impl View for ComputationRequest {
    type V = RequestView;

    open spec fn view(&self) -> RequestView {
        RequestView {
            definition_offset: self.definition_offset,
            arguments: self.arguments@,
            state: self.state,
        }
    }
}

/// The notification published for a successful computation.
#[derive(Clone, Copy, Debug, PartialEq, Eq)]
pub struct BountyEvent {
    /// The correlation token of the computation that produced it.
    pub computation_offset: u64,
    pub bounty: [u8; 32],
    /// The result's nonce, 16 bytes little-endian.
    pub nonce: [u8; 16],
}

/// What an event carries, with its nonce as a byte sequence.
pub struct BountyEventView {
    pub computation_offset: u64,
    pub bounty: [u8; 32],
    pub nonce: Seq<u8>,
}

impl View for BountyEvent {
    type V = BountyEventView;

    open spec fn view(&self) -> BountyEventView {
        BountyEventView {
            computation_offset: self.computation_offset,
            bounty: self.bounty,
            nonce: self.nonce@,
        }
    }
}

/// What the network reports when a computation completes.
pub enum ComputationOutcome {
    Success { ciphertexts: Vec<[u8; 32]>, nonce: u128 },
    Aborted,
}

/// The job handed to the network on submission.
pub struct QueueReceipt {
    pub computation_offset: u64,
    pub definition_offset: u32,
    pub arguments: Vec<EncryptedArgument>,
}

/// The keyed store of definitions and requests, with the event log.
pub struct Orchestrator {
    definitions: Vec<Definition>,
    requests: Vec<ComputationRequest>,
    events: Vec<BountyEvent>,
}

/// The abstract state of an orchestrator.
pub struct OrchestratorView {
    pub definitions: Map<u32, DefinitionView>,
    pub requests: Map<u64, RequestView>,
    pub events: Seq<BountyEventView>,
}

/// The definitions of a store, keyed by offset.
pub open spec fn definitions_view(s: Seq<Definition>) -> Map<u32, DefinitionView> {
    Map::new(
        |k: u32| exists|i: int| 0 <= i < s.len() && s[i].offset == k,
        |k: u32| s[choose|i: int| 0 <= i < s.len() && s[i].offset == k]@,
    )
}

/// The requests of a store, keyed by correlation token.
pub open spec fn requests_view(s: Seq<ComputationRequest>) -> Map<u64, RequestView> {
    Map::new(
        |k: u64| exists|i: int| 0 <= i < s.len() && s[i].computation_offset == k,
        |k: u64| s[choose|i: int| 0 <= i < s.len() && s[i].computation_offset == k]@,
    )
}

/// No two definitions share an offset.
pub open spec fn definitions_unique(s: Seq<Definition>) -> bool {
    forall|i: int, j: int|
        0 <= i < s.len() && 0 <= j < s.len() && #[trigger] s[i].offset == #[trigger] s[j].offset
            ==> i == j
}

/// No two requests share a correlation token.
pub open spec fn requests_unique(s: Seq<ComputationRequest>) -> bool {
    forall|i: int, j: int|
        0 <= i < s.len() && 0 <= j < s.len() && #[trigger] s[i].computation_offset
            == #[trigger] s[j].computation_offset ==> i == j
}

impl View for Orchestrator {
    type V = OrchestratorView;

    closed spec fn view(&self) -> OrchestratorView {
        OrchestratorView {
            definitions: definitions_view(self.definitions@),
            requests: requests_view(self.requests@),
            events: self.events@.map_values(|e: BountyEvent| e@),
        }
    }
}

/// Whether a token still occupies correlation space: it has a record that is
/// not finalized.
pub open spec fn in_flight(v: OrchestratorView, computation_offset: u64) -> bool {
    v.requests.contains_key(computation_offset) && v.requests[computation_offset].state
        != RequestState::Finalized
}

/// Whether a token names a request that awaits its callback.
pub open spec fn is_pending(v: OrchestratorView, computation_offset: u64) -> bool {
    v.requests.contains_key(computation_offset) && v.requests[computation_offset].state
        == RequestState::Pending
}

/// The state with one request's lifecycle state replaced.
pub open spec fn with_state(v: OrchestratorView, computation_offset: u64, state: RequestState) -> OrchestratorView {
    OrchestratorView {
        definitions: v.definitions,
        requests: v.requests.insert(
            computation_offset,
            RequestView { state, ..v.requests[computation_offset] },
        ),
        events: v.events,
    }
}

/// Registration: binds the name's derived offset to the definition, unless
/// the offset is bound to a different one.
pub open spec fn register_spec(v: OrchestratorView, name: Seq<char>, signature: Seq<ParamKind>) -> (
    OrchestratorView,
    Result<u32, OrchestratorError>,
) {
    let offset = comp_def_offset_of(name);
    let def = DefinitionView { name, signature };
    if v.definitions.contains_key(offset) && v.definitions[offset] != def {
        (v, Err(OrchestratorError::DefinitionConflict))
    } else {
        (
            OrchestratorView {
                definitions: v.definitions.insert(offset, def),
                requests: v.requests,
                events: v.events,
            },
            Ok(offset),
        )
    }
}

/// Submission: checks the definition, the token and the arguments' shape, in
/// that order, and records a pending request with the encoded arguments.
pub open spec fn submit_spec(
    v: OrchestratorView,
    computation_offset: u64,
    definition_offset: u32,
    raw: Seq<RawArgument>,
) -> (OrchestratorView, Result<Seq<EncryptedArgument>, OrchestratorError>) {
    if !v.definitions.contains_key(definition_offset) {
        (v, Err(OrchestratorError::UnknownDefinition))
    } else if in_flight(v, computation_offset) {
        (v, Err(OrchestratorError::DuplicateComputationOffset))
    } else if !shape_matches(v.definitions[definition_offset].signature, raw) {
        (v, Err(OrchestratorError::ArgumentShapeMismatch))
    } else {
        let args = encoded(raw);
        (
            OrchestratorView {
                definitions: v.definitions,
                requests: v.requests.insert(
                    computation_offset,
                    RequestView { definition_offset, arguments: args, state: RequestState::Pending },
                ),
                events: v.events,
            },
            Ok(args),
        )
    }
}

/// The dispatcher's step: a pending request becomes resolved as the outcome
/// says; any other token is refused.
pub open spec fn resolve_spec(v: OrchestratorView, computation_offset: u64, outcome: ComputationOutcome) -> (
    OrchestratorView,
    Result<(), OrchestratorError>,
) {
    if !is_pending(v, computation_offset) {
        (v, Err(OrchestratorError::UnknownOrFinalizedComputation))
    } else {
        match outcome {
            ComputationOutcome::Aborted => (
                with_state(v, computation_offset, RequestState::Resolved(Resolution::Aborted)),
                Err(OrchestratorError::AbortedComputation),
            ),
            ComputationOutcome::Success { .. } => (
                with_state(v, computation_offset, RequestState::Resolved(Resolution::Success)),
                Ok(()),
            ),
        }
    }
}

/// The event published for a result.
pub open spec fn event_of(computation_offset: u64, bounty: [u8; 32], nonce: u128) -> BountyEventView {
    BountyEventView { computation_offset, bounty, nonce: le_bytes(nonce) }
}

/// Publication: appends the event and finalizes the request.
pub open spec fn publish_spec(v: OrchestratorView, computation_offset: u64, bounty: [u8; 32], nonce: u128) -> OrchestratorView {
    let w = with_state(v, computation_offset, RequestState::Finalized);
    OrchestratorView {
        events: v.events.push(event_of(computation_offset, bounty, nonce)),
        ..w
    }
}

/// A callback: resolution, then publication of a success.
pub open spec fn on_result_spec(v: OrchestratorView, computation_offset: u64, outcome: ComputationOutcome) -> (
    OrchestratorView,
    Result<(), OrchestratorError>,
) {
    let (w, r) = resolve_spec(v, computation_offset, outcome);
    match (r, outcome) {
        (Ok(()), ComputationOutcome::Success { ciphertexts, nonce }) => (
            publish_spec(w, computation_offset, ciphertexts@[0], nonce),
            Ok(()),
        ),
        _ => (w, r),
    }
}

/// Whether an outcome carries the result block that publication reads.
pub open spec fn outcome_well_formed(outcome: ComputationOutcome) -> bool {
    match outcome {
        ComputationOutcome::Success { ciphertexts, .. } => ciphertexts@.len() > 0,
        ComputationOutcome::Aborted => true,
    }
}

proof fn lemma_definitions_lookup(s: Seq<Definition>, i: int)
    requires
        definitions_unique(s),
        0 <= i < s.len(),
    ensures
        definitions_view(s).contains_key(s[i].offset),
        definitions_view(s)[s[i].offset] == s[i]@,
{
    let k = s[i].offset;
    assert(exists|j: int| 0 <= j < s.len() && s[j].offset == k);
    let j = choose|j: int| 0 <= j < s.len() && s[j].offset == k;
    assert(s[j].offset == s[i].offset);
}

proof fn lemma_definitions_push(s: Seq<Definition>, d: Definition)
    requires
        definitions_unique(s),
        !definitions_view(s).contains_key(d.offset),
    ensures
        definitions_unique(s.push(d)),
        definitions_view(s.push(d)) == definitions_view(s).insert(d.offset, d@),
{
    let t = s.push(d);
    assert forall|i: int, j: int|
        0 <= i < t.len() && 0 <= j < t.len() && #[trigger] t[i].offset == #[trigger] t[j].offset
            implies i == j by {
        if i < s.len() && j < s.len() {
            assert(s[i].offset == s[j].offset);
        } else if i < s.len() {
            assert(s[i].offset == d.offset);
        } else if j < s.len() {
            assert(s[j].offset == d.offset);
        }
    }
    assert forall|k: u32| #[trigger] definitions_view(t).contains_key(k) <==> definitions_view(s).insert(d.offset, d@).contains_key(k) by {
        if definitions_view(s).contains_key(k) {
            let j = choose|j: int| 0 <= j < s.len() && s[j].offset == k;
            assert(t[j].offset == k);
        }
        if k == d.offset {
            assert(t[s.len() as int].offset == k);
        }
        if definitions_view(t).contains_key(k) && k != d.offset {
            let j = choose|j: int| 0 <= j < t.len() && t[j].offset == k;
            assert(s[j].offset == k);
        }
    }
    assert forall|k: u32| #[trigger] definitions_view(t).contains_key(k) implies definitions_view(t)[k] == definitions_view(s).insert(d.offset, d@)[k] by {
        if k == d.offset {
            lemma_definitions_lookup(t, s.len() as int);
        } else {
            let j = choose|j: int| 0 <= j < s.len() && s[j].offset == k;
            lemma_definitions_lookup(s, j);
            lemma_definitions_lookup(t, j);
        }
    }
    assert(definitions_view(t) =~= definitions_view(s).insert(d.offset, d@));
}

proof fn lemma_requests_lookup(s: Seq<ComputationRequest>, i: int)
    requires
        requests_unique(s),
        0 <= i < s.len(),
    ensures
        requests_view(s).contains_key(s[i].computation_offset),
        requests_view(s)[s[i].computation_offset] == s[i]@,
{
    let k = s[i].computation_offset;
    assert(exists|j: int| 0 <= j < s.len() && s[j].computation_offset == k);
    let j = choose|j: int| 0 <= j < s.len() && s[j].computation_offset == k;
    assert(s[j].computation_offset == s[i].computation_offset);
}

proof fn lemma_requests_push(s: Seq<ComputationRequest>, r: ComputationRequest)
    requires
        requests_unique(s),
        !requests_view(s).contains_key(r.computation_offset),
    ensures
        requests_unique(s.push(r)),
        requests_view(s.push(r)) == requests_view(s).insert(r.computation_offset, r@),
{
    let t = s.push(r);
    let c = r.computation_offset;
    assert forall|i: int, j: int|
        0 <= i < t.len() && 0 <= j < t.len() && #[trigger] t[i].computation_offset
            == #[trigger] t[j].computation_offset implies i == j by {
        if i < s.len() && j < s.len() {
            assert(s[i].computation_offset == s[j].computation_offset);
        } else if i < s.len() {
            assert(s[i].computation_offset == c);
        } else if j < s.len() {
            assert(s[j].computation_offset == c);
        }
    }
    assert forall|k: u64| #[trigger] requests_view(t).contains_key(k) <==> requests_view(s).insert(c, r@).contains_key(k) by {
        if requests_view(s).contains_key(k) {
            let j = choose|j: int| 0 <= j < s.len() && s[j].computation_offset == k;
            assert(t[j].computation_offset == k);
        }
        if k == c {
            assert(t[s.len() as int].computation_offset == k);
        }
        if requests_view(t).contains_key(k) && k != c {
            let j = choose|j: int| 0 <= j < t.len() && t[j].computation_offset == k;
            assert(s[j].computation_offset == k);
        }
    }
    assert forall|k: u64| #[trigger] requests_view(t).contains_key(k) implies requests_view(t)[k] == requests_view(s).insert(c, r@)[k] by {
        if k == c {
            lemma_requests_lookup(t, s.len() as int);
        } else {
            let j = choose|j: int| 0 <= j < s.len() && s[j].computation_offset == k;
            lemma_requests_lookup(s, j);
            lemma_requests_lookup(t, j);
        }
    }
    assert(requests_view(t) =~= requests_view(s).insert(c, r@));
}

proof fn lemma_requests_update(s: Seq<ComputationRequest>, i: int, r: ComputationRequest)
    requires
        requests_unique(s),
        0 <= i < s.len(),
        s[i].computation_offset == r.computation_offset,
    ensures
        requests_unique(s.update(i, r)),
        requests_view(s.update(i, r)) == requests_view(s).insert(r.computation_offset, r@),
{
    let t = s.update(i, r);
    let c = r.computation_offset;
    assert forall|a: int, b: int|
        0 <= a < t.len() && 0 <= b < t.len() && #[trigger] t[a].computation_offset
            == #[trigger] t[b].computation_offset implies a == b by {
        assert(s[a].computation_offset == t[a].computation_offset);
        assert(s[b].computation_offset == t[b].computation_offset);
    }
    assert forall|k: u64| #[trigger] requests_view(t).contains_key(k) <==> requests_view(s).insert(c, r@).contains_key(k) by {
        if requests_view(s).contains_key(k) {
            let j = choose|j: int| 0 <= j < s.len() && s[j].computation_offset == k;
            assert(t[j].computation_offset == k);
        }
        if k == c {
            assert(t[i].computation_offset == k);
        }
        if requests_view(t).contains_key(k) {
            let j = choose|j: int| 0 <= j < t.len() && t[j].computation_offset == k;
            assert(s[j].computation_offset == k);
        }
    }
    assert forall|k: u64| #[trigger] requests_view(t).contains_key(k) implies requests_view(t)[k] == requests_view(s).insert(c, r@)[k] by {
        if k == c {
            lemma_requests_lookup(t, i);
        } else {
            let j = choose|j: int| 0 <= j < s.len() && s[j].computation_offset == k;
            lemma_requests_lookup(s, j);
            lemma_requests_lookup(t, j);
        }
    }
    assert(requests_view(t) =~= requests_view(s).insert(c, r@));
}

/// Copies an argument list.
fn copy_arguments(args: &Vec<EncryptedArgument>) -> (r: Vec<EncryptedArgument>)
    ensures
        r@ == args@,
{
    let mut out: Vec<EncryptedArgument> = Vec::new();
    let mut i: usize = 0;
    while i < args.len()
        invariant
            i <= args@.len(),
            out@ == args@.take(i as int),
        decreases args.len() - i,
    {
        out.push(args[i]);
        i = i + 1;
        assert(out@ =~= args@.take(i as int));
    }
    assert(args@.take(i as int) =~= args@);
    out
}

/// Compares two signatures element by element.
fn same_signature(a: &Vec<ParamKind>, b: &Vec<ParamKind>) -> (r: bool)
    ensures
        r == (a@ == b@),
{
    if a.len() != b.len() {
        return false;
    }
    let mut i: usize = 0;
    while i < a.len()
        invariant
            a@.len() == b@.len(),
            i <= a@.len(),
            a@.take(i as int) == b@.take(i as int),
        decreases a.len() - i,
    {
        if a[i] != b[i] {
            assert(a@[i as int] != b@[i as int]);
            return false;
        }
        assert(a@.take(i as int + 1) =~= a@.take(i as int).push(a@[i as int]));
        assert(b@.take(i as int + 1) =~= b@.take(i as int).push(b@[i as int]));
        i = i + 1;
    }
    assert(a@.take(i as int) =~= a@);
    assert(b@.take(i as int) =~= b@);
    true
}

impl Orchestrator {
    /// Definition offsets and correlation tokens are each unique in the store.
    pub closed spec fn wf(&self) -> bool {
        &&& definitions_unique(self.definitions@)
        &&& requests_unique(self.requests@)
    }

    /// An empty store: no definitions, no requests, no events.
    pub fn new() -> (r: Orchestrator)
        ensures
            r.wf(),
            r@.definitions == Map::<u32, DefinitionView>::empty(),
            r@.requests == Map::<u64, RequestView>::empty(),
            r@.events == Seq::<BountyEventView>::empty(),
    {
        let r = Orchestrator { definitions: Vec::new(), requests: Vec::new(), events: Vec::new() };
        assert(r@.definitions =~= Map::<u32, DefinitionView>::empty());
        assert(r@.requests =~= Map::<u64, RequestView>::empty());
        assert(r@.events =~= Seq::<BountyEventView>::empty());
        r
    }

    fn find_definition(&self, offset: u32) -> (r: Option<usize>)
        ensures
            match r {
                Some(i) => i < self.definitions@.len() && self.definitions@[i as int].offset == offset,
                None => !self@.definitions.contains_key(offset),
            },
    {
        let mut i: usize = 0;
        while i < self.definitions.len()
            invariant
                i <= self.definitions@.len(),
                forall|j: int| 0 <= j < i ==> self.definitions@[j].offset != offset,
            decreases self.definitions.len() - i,
        {
            if self.definitions[i].offset == offset {
                return Some(i);
            }
            i = i + 1;
        }
        None
    }

    fn find_request(&self, computation_offset: u64) -> (r: Option<usize>)
        ensures
            match r {
                Some(i) => i < self.requests@.len() && self.requests@[i as int].computation_offset
                    == computation_offset,
                None => !self@.requests.contains_key(computation_offset),
            },
    {
        let mut i: usize = 0;
        while i < self.requests.len()
            invariant
                i <= self.requests@.len(),
                forall|j: int| 0 <= j < i ==> self.requests@[j].computation_offset != computation_offset,
            decreases self.requests.len() - i,
        {
            if self.requests[i].computation_offset == computation_offset {
                return Some(i);
            }
            i = i + 1;
        }
        None
    }

    /// Registers a definition under the offset derived from its name. A second
    /// registration of the same definition is a no-op; one of a different
    /// definition whose name derives the same offset fails with
    /// `DefinitionConflict`.
    pub fn register(&mut self, name: &str, signature: Vec<ParamKind>) -> (r: Result<u32, OrchestratorError>)
        requires
            old(self).wf(),
        ensures
            final(self).wf(),
            (final(self)@, r) == register_spec(old(self)@, name@, signature@),
    {
        let offset = derive_offset(name);
        let owned = name.to_owned();
        match self.find_definition(offset) {
            Some(i) => {
                proof {
                    lemma_definitions_lookup(self.definitions@, i as int);
                }
                if self.definitions[i].name == owned && same_signature(
                    &self.definitions[i].signature,
                    &signature,
                ) {
                    assert(self@.definitions.insert(offset, DefinitionView { name: name@, signature: signature@ })
                        =~= self@.definitions);
                    Ok(offset)
                } else {
                    Err(OrchestratorError::DefinitionConflict)
                }
            },
            None => {
                let def = Definition { name: owned, offset, signature };
                proof {
                    lemma_definitions_push(self.definitions@, def);
                }
                self.definitions.push(def);
                Ok(offset)
            },
        }
    }

    /// Queues a job: the definition must be registered, the token must not be
    /// in flight, and the arguments must match the definition's signature.
    /// On success a pending record holds the encoded arguments, and the
    /// receipt carries the job for the network.
    pub fn submit(&mut self, computation_offset: u64, definition_offset: u32, raw: &Vec<RawArgument>) -> (r: Result<
        QueueReceipt,
        OrchestratorError,
    >)
        requires
            old(self).wf(),
        ensures
            final(self).wf(),
            final(self)@ == submit_spec(old(self)@, computation_offset, definition_offset, raw@).0,
            match r {
                Ok(receipt) => {
                    &&& submit_spec(old(self)@, computation_offset, definition_offset, raw@).1 == Ok::<
                        Seq<EncryptedArgument>,
                        OrchestratorError,
                    >(receipt.arguments@)
                    &&& receipt.computation_offset == computation_offset
                    &&& receipt.definition_offset == definition_offset
                },
                Err(e) => submit_spec(old(self)@, computation_offset, definition_offset, raw@).1 == Err::<
                    Seq<EncryptedArgument>,
                    OrchestratorError,
                >(e),
            },
    {
        let di = match self.find_definition(definition_offset) {
            Some(i) => i,
            None => {
                return Err(OrchestratorError::UnknownDefinition);
            },
        };
        proof {
            lemma_definitions_lookup(self.definitions@, di as int);
        }
        let slot = self.find_request(computation_offset);
        if let Some(j) = slot {
            proof {
                lemma_requests_lookup(self.requests@, j as int);
            }
            if !matches!(self.requests[j].state, RequestState::Finalized) {
                return Err(OrchestratorError::DuplicateComputationOffset);
            }
        }
        let args = match encode(&self.definitions[di].signature, raw) {
            Ok(a) => a,
            Err(e) => {
                return Err(e);
            },
        };
        let stored = copy_arguments(&args);
        let req = ComputationRequest {
            computation_offset,
            definition_offset,
            arguments: stored,
            state: RequestState::Pending,
        };
        match slot {
            Some(j) => {
                proof {
                    lemma_requests_update(self.requests@, j as int, req);
                }
                self.requests.set(j, req);
            },
            None => {
                proof {
                    lemma_requests_push(self.requests@, req);
                }
                self.requests.push(req);
            },
        }
        Ok(QueueReceipt { computation_offset, definition_offset, arguments: args })
    }

    /// The dispatcher's step: moves a pending request to its resolution.
    fn resolve(&mut self, computation_offset: u64, resolution: Resolution) -> (r: Result<
        (),
        OrchestratorError,
    >)
        requires
            old(self).wf(),
        ensures
            final(self).wf(),
            !is_pending(old(self)@, computation_offset) ==> {
                &&& final(self)@ == old(self)@
                &&& r == Err::<(), OrchestratorError>(OrchestratorError::UnknownOrFinalizedComputation)
            },
            is_pending(old(self)@, computation_offset) ==> {
                &&& final(self)@ == with_state(old(self)@, computation_offset, RequestState::Resolved(resolution))
                &&& r == Ok::<(), OrchestratorError>(())
            },
    {
        let j = match self.find_request(computation_offset) {
            Some(j) => j,
            None => {
                return Err(OrchestratorError::UnknownOrFinalizedComputation);
            },
        };
        proof {
            lemma_requests_lookup(self.requests@, j as int);
        }
        if !matches!(self.requests[j].state, RequestState::Pending) {
            return Err(OrchestratorError::UnknownOrFinalizedComputation);
        }
        let ghost before = self.requests@;
        self.requests[j].state = RequestState::Resolved(resolution);
        proof {
            lemma_requests_update(before, j as int, self.requests@[j as int]);
            assert(self.requests@ == before.update(j as int, self.requests@[j as int]));
        }
        Ok(())
    }

    /// Publishes the event of a successful computation and finalizes its
    /// request.
    pub fn publish(&mut self, computation_offset: u64, bounty: [u8; 32], nonce: u128)
        requires
            old(self).wf(),
            old(self)@.requests.contains_key(computation_offset),
            old(self)@.requests[computation_offset].state == RequestState::Resolved(Resolution::Success),
        ensures
            final(self).wf(),
            final(self)@ == publish_spec(old(self)@, computation_offset, bounty, nonce),
    {
        let j = match self.find_request(computation_offset) {
            Some(j) => j,
            None => {
                return;
            },
        };
        let ghost before = self.requests@;
        self.requests[j].state = RequestState::Finalized;
        proof {
            lemma_requests_update(before, j as int, self.requests@[j as int]);
            assert(self.requests@ == before.update(j as int, self.requests@[j as int]));
        }
        let ghost old_events = self.events@;
        let event = BountyEvent { computation_offset, bounty, nonce: nonce_le_bytes(nonce) };
        self.events.push(event);
        assert(self.events@.map_values(|e: BountyEvent| e@) =~= old_events.map_values(
            |e: BountyEvent| e@,
        ).push(event_of(computation_offset, bounty, nonce)));
    }

    /// Handles a callback from the network: rejects a token with no pending
    /// request, records an abort and reports it, or resolves a success and
    /// publishes its first ciphertext with the nonce.
    pub fn on_result(&mut self, computation_offset: u64, outcome: ComputationOutcome) -> (r: Result<
        (),
        OrchestratorError,
    >)
        requires
            old(self).wf(),
            is_pending(old(self)@, computation_offset) ==> outcome_well_formed(outcome),
        ensures
            final(self).wf(),
            (final(self)@, r) == on_result_spec(old(self)@, computation_offset, outcome),
    {
        match outcome {
            ComputationOutcome::Aborted => {
                match self.resolve(computation_offset, Resolution::Aborted) {
                    Ok(()) => Err(OrchestratorError::AbortedComputation),
                    Err(e) => Err(e),
                }
            },
            ComputationOutcome::Success { ciphertexts, nonce } => {
                match self.resolve(computation_offset, Resolution::Success) {
                    Ok(()) => {
                        self.publish(computation_offset, ciphertexts[0], nonce);
                        Ok(())
                    },
                    Err(e) => Err(e),
                }
            },
        }
    }

    /// The state of the request under a token, if there is one.
    pub fn request_state(&self, computation_offset: u64) -> (r: Option<RequestState>)
        requires
            self.wf(),
        ensures
            match r {
                Some(s) => self@.requests.contains_key(computation_offset)
                    && self@.requests[computation_offset].state == s,
                None => !self@.requests.contains_key(computation_offset),
            },
    {
        match self.find_request(computation_offset) {
            Some(j) => {
                proof {
                    lemma_requests_lookup(self.requests@, j as int);
                }
                Some(self.requests[j].state)
            },
            None => None,
        }
    }

    /// The published events, oldest first.
    pub fn events(&self) -> (r: &Vec<BountyEvent>)
        ensures
            r@.map_values(|e: BountyEvent| e@) == self@.events,
    {
        &self.events
    }
}

} // verus!

use vstd::prelude::*;

verus! {

/// What a worker or a peer node returns for a call.
#[derive(Debug, Clone, PartialEq, Eq)]
pub struct CallOutput {
    pub output: Vec<u8>,
    pub output_refs: Vec<String>,
}

/// What the node returns to its caller; `delegated` tells whether a peer
/// served the call.
#[derive(Debug, Clone, PartialEq, Eq)]
pub struct CallResult {
    pub output: Vec<u8>,
    pub output_refs: Vec<String>,
    pub delegated: bool,
}

/// Why a call failed.
#[derive(Debug, Clone, PartialEq, Eq)]
pub enum CallError {
    /// No node is known to serve the capability.
    NotFound,
    /// The worker, the scheduler or the peer failed; its message is kept.
    Internal(String),
}

/// Where a call stands.
#[derive(Debug, Clone, Copy, PartialEq, Eq, Structural)]
pub enum CallPhase {
    /// Waiting for the local worker.
    Local,
    /// Waiting for the scheduler to name nodes that serve the capability.
    Lookup,
    /// Waiting for the peer node the call was forwarded to.
    Forwarded,
    /// The caller has its answer.
    Finished,
}

/// What the node learnt while a call was under way.
pub enum CallEvent {
    WorkerReplied(Result<CallOutput, String>),
    SchedulerReplied(Result<Vec<String>, String>),
    PeerReplied(Result<CallOutput, String>),
}

/// What the node does next for a call.
#[derive(Debug, PartialEq, Eq)]
pub enum CallAction {
    /// Hand the call to the local worker.
    InvokeWorker,
    /// Ask the scheduler which nodes serve the capability.
    LookupCapability,
    /// Send the call to the peer at this endpoint.
    ForwardTo(String),
    /// Answer the caller.
    Reply(Result<CallResult, CallError>),
    /// The event does not belong to this call's phase; nothing to do.
    Ignore,
}

/// Whether `caps` names `cap`.
pub open spec fn declares(caps: Seq<String>, cap: Seq<char>) -> bool {
    exists|i: int| 0 <= i < caps.len() && #[trigger] caps[i]@ == cap
}

/// The phase and the first action of a call, by whether the node declares its
/// capability.
pub open spec fn start_spec(declared: bool) -> (CallPhase, CallAction) {
    if declared {
        (CallPhase::Local, CallAction::InvokeWorker)
    } else {
        (CallPhase::Lookup, CallAction::LookupCapability)
    }
}

/// The phase that follows `phase` on `ev`, and what the node does.
pub open spec fn next_spec(phase: CallPhase, ev: CallEvent) -> (CallPhase, CallAction) {
    match (phase, ev) {
        (CallPhase::Local, CallEvent::WorkerReplied(Ok(o))) => (
            CallPhase::Finished,
            CallAction::Reply(
                Ok(CallResult { output: o.output, output_refs: o.output_refs, delegated: false }),
            ),
        ),
        (CallPhase::Local, CallEvent::WorkerReplied(Err(m))) => (
            CallPhase::Finished,
            CallAction::Reply(Err(CallError::Internal(m))),
        ),
        (CallPhase::Lookup, CallEvent::SchedulerReplied(Ok(eps))) => if eps@.len() > 0 {
            (CallPhase::Forwarded, CallAction::ForwardTo(eps@[0]))
        } else {
            (CallPhase::Finished, CallAction::Reply(Err(CallError::NotFound)))
        },
        (CallPhase::Lookup, CallEvent::SchedulerReplied(Err(m))) => (
            CallPhase::Finished,
            CallAction::Reply(Err(CallError::Internal(m))),
        ),
        (CallPhase::Forwarded, CallEvent::PeerReplied(Ok(o))) => (
            CallPhase::Finished,
            CallAction::Reply(
                Ok(CallResult { output: o.output, output_refs: o.output_refs, delegated: true }),
            ),
        ),
        (CallPhase::Forwarded, CallEvent::PeerReplied(Err(m))) => (
            CallPhase::Finished,
            CallAction::Reply(Err(CallError::Internal(m))),
        ),
        _ => (phase, CallAction::Ignore),
    }
}

/// The actions a call in `phase` takes on the events `evs`, in order.
pub open spec fn actions_spec(phase: CallPhase, evs: Seq<CallEvent>) -> Seq<CallAction>
    decreases evs.len(),
{
    if evs.len() == 0 {
        Seq::empty()
    } else {
        let (p, a) = next_spec(phase, evs[0]);
        seq![a] + actions_spec(p, evs.skip(1))
    }
}

/// Every action of a call, from its arrival on.
pub open spec fn trace_spec(declared: bool, evs: Seq<CallEvent>) -> Seq<CallAction> {
    let (p, a) = start_spec(declared);
    seq![a] + actions_spec(p, evs)
}

/// Whether `a` answers the caller with a result whose `delegated` is `d`.
pub open spec fn replies_with(a: CallAction, d: bool) -> bool {
    match a {
        CallAction::Reply(Ok(r)) => r.delegated == d,
        _ => false,
    }
}

/// Whether `a` answers the caller successfully.
pub open spec fn replies_ok(a: CallAction) -> bool {
    a matches CallAction::Reply(Ok(_))
}

proof fn lemma_actions(phase: CallPhase, evs: Seq<CallEvent>)
    ensures
        forall|i: int|
            0 <= i < actions_spec(phase, evs).len() ==> {
                &&& !(#[trigger] actions_spec(phase, evs)[i] is LookupCapability)
                &&& !(actions_spec(phase, evs)[i] is InvokeWorker)
                &&& (phase is Local || phase is Finished) && replies_ok(actions_spec(phase, evs)[i])
                    ==> replies_with(actions_spec(phase, evs)[i], false)
                &&& !(phase is Local) && replies_ok(actions_spec(phase, evs)[i]) ==> replies_with(
                    actions_spec(phase, evs)[i],
                    true,
                )
            },
    decreases evs.len(),
{
    if evs.len() > 0 {
        let (p, a) = next_spec(phase, evs[0]);
        lemma_actions(p, evs.skip(1));
        let rest = actions_spec(p, evs.skip(1));
        assert forall|i: int| 0 <= i < actions_spec(phase, evs).len() implies {
            &&& !(#[trigger] actions_spec(phase, evs)[i] is LookupCapability)
            &&& !(actions_spec(phase, evs)[i] is InvokeWorker)
            &&& (phase is Local || phase is Finished) && replies_ok(actions_spec(phase, evs)[i])
                ==> replies_with(actions_spec(phase, evs)[i], false)
            &&& !(phase is Local) && replies_ok(actions_spec(phase, evs)[i]) ==> replies_with(
                actions_spec(phase, evs)[i],
                true,
            )
        } by {
            if i > 0 {
                assert(actions_spec(phase, evs)[i] == rest[i - 1]);
            }
        }
    }
}

/// Capability routing. A call for a capability the node declares goes to the
/// local worker, never asks the scheduler, and every successful answer says it
/// was not delegated. A call for any other capability asks the scheduler
/// exactly once, as its first step, and never reaches the local worker; when
/// the scheduler names nodes it goes to the first of them, when it names none
/// it fails as not found, and every successful answer says it was delegated.
pub proof fn law_capability_routing(caps: Seq<String>, cap: Seq<char>, evs: Seq<CallEvent>)
    ensures
        declares(caps, cap) ==> trace_spec(declares(caps, cap), evs)[0] is InvokeWorker,
        declares(caps, cap) ==> forall|i: int|
            0 <= i < trace_spec(declares(caps, cap), evs).len() ==> !(
            #[trigger] trace_spec(declares(caps, cap), evs)[i] is LookupCapability),
        declares(caps, cap) ==> forall|i: int|
            0 <= i < trace_spec(declares(caps, cap), evs).len() && replies_ok(
                #[trigger] trace_spec(declares(caps, cap), evs)[i],
            ) ==> replies_with(trace_spec(declares(caps, cap), evs)[i], false),
        !declares(caps, cap) ==> trace_spec(declares(caps, cap), evs)[0] is LookupCapability,
        !declares(caps, cap) ==> forall|i: int|
            1 <= i < trace_spec(declares(caps, cap), evs).len() ==> !(
            #[trigger] trace_spec(declares(caps, cap), evs)[i] is LookupCapability),
        !declares(caps, cap) ==> forall|i: int|
            0 <= i < trace_spec(declares(caps, cap), evs).len() ==> !(
            #[trigger] trace_spec(declares(caps, cap), evs)[i] is InvokeWorker),
        !declares(caps, cap) ==> forall|i: int|
            0 <= i < trace_spec(declares(caps, cap), evs).len() && replies_ok(
                #[trigger] trace_spec(declares(caps, cap), evs)[i],
            ) ==> replies_with(trace_spec(declares(caps, cap), evs)[i], true),
        !declares(caps, cap) && evs.len() > 0 ==> match evs[0] {
            CallEvent::SchedulerReplied(Ok(eps)) => if eps@.len() > 0 {
                trace_spec(declares(caps, cap), evs)[1] == CallAction::ForwardTo(eps@[0])
            } else {
                trace_spec(declares(caps, cap), evs)[1] == CallAction::Reply(Err(CallError::NotFound))
            },
            _ => true,
        },
{
    let declared = declares(caps, cap);
    let (p, a) = start_spec(declared);
    lemma_actions(p, evs);
    let t = trace_spec(declared, evs);
    assert forall|i: int| 1 <= i < t.len() implies t[i] == actions_spec(p, evs)[i - 1] by {}
    if evs.len() > 0 {
        assert(t[1] == actions_spec(p, evs)[0]);
    }
}

/// A node: who it is, where it listens, and which capabilities it serves.
pub struct Node {
    node_id: String,
    listen_address: String,
    capabilities: Vec<String>,
    scheduler_endpoint: String,
}

/// Where one call stands on its way through a node.
pub struct CallRoute {
    phase: CallPhase,
}

impl CallRoute {
    pub closed spec fn phase_spec(&self) -> CallPhase {
        self.phase
    }

    pub fn phase(&self) -> (r: CallPhase)
        ensures
            r == self.phase_spec(),
    {
        self.phase
    }

    /// Moves the call on by what the node learnt, and says what to do next.
    pub fn on_event(&mut self, ev: CallEvent) -> (r: CallAction)
        ensures
            (final(self).phase_spec(), r) == next_spec(old(self).phase_spec(), ev),
    {
        match (self.phase, ev) {
            (CallPhase::Local, CallEvent::WorkerReplied(Ok(o))) => {
                self.phase = CallPhase::Finished;
                CallAction::Reply(
                    Ok(CallResult { output: o.output, output_refs: o.output_refs, delegated: false }),
                )
            },
            (CallPhase::Local, CallEvent::WorkerReplied(Err(m))) => {
                self.phase = CallPhase::Finished;
                CallAction::Reply(Err(CallError::Internal(m)))
            },
            (CallPhase::Lookup, CallEvent::SchedulerReplied(Ok(eps))) => {
                if eps.len() > 0 {
                    let mut eps = eps;
                    let first = eps.remove(0);
                    self.phase = CallPhase::Forwarded;
                    CallAction::ForwardTo(first)
                } else {
                    self.phase = CallPhase::Finished;
                    CallAction::Reply(Err(CallError::NotFound))
                }
            },
            (CallPhase::Lookup, CallEvent::SchedulerReplied(Err(m))) => {
                self.phase = CallPhase::Finished;
                CallAction::Reply(Err(CallError::Internal(m)))
            },
            (CallPhase::Forwarded, CallEvent::PeerReplied(Ok(o))) => {
                self.phase = CallPhase::Finished;
                CallAction::Reply(
                    Ok(CallResult { output: o.output, output_refs: o.output_refs, delegated: true }),
                )
            },
            (CallPhase::Forwarded, CallEvent::PeerReplied(Err(m))) => {
                self.phase = CallPhase::Finished;
                CallAction::Reply(Err(CallError::Internal(m)))
            },
            _ => CallAction::Ignore,
        }
    }
}

impl Node {
    pub closed spec fn capabilities_spec(&self) -> Seq<String> {
        self.capabilities@
    }

    pub closed spec fn node_id_spec(&self) -> Seq<char> {
        self.node_id@
    }

    pub closed spec fn listen_address_spec(&self) -> Seq<char> {
        self.listen_address@
    }

    pub closed spec fn scheduler_endpoint_spec(&self) -> Seq<char> {
        self.scheduler_endpoint@
    }

    /// A node with its identity and the capabilities it serves, fixed for its
    /// lifetime.
    pub fn new(
        node_id: String,
        listen_address: String,
        capabilities: Vec<String>,
        scheduler_endpoint: String,
    ) -> (r: Node)
        ensures
            r.node_id_spec() == node_id@,
            r.listen_address_spec() == listen_address@,
            r.capabilities_spec() == capabilities@,
            r.scheduler_endpoint_spec() == scheduler_endpoint@,
    {
        Node { node_id, listen_address, capabilities, scheduler_endpoint }
    }

    pub fn node_id(&self) -> (r: &String)
        ensures
            r@ == self.node_id_spec(),
    {
        &self.node_id
    }

    pub fn listen_address(&self) -> (r: &String)
        ensures
            r@ == self.listen_address_spec(),
    {
        &self.listen_address
    }

    pub fn capabilities(&self) -> (r: &Vec<String>)
        ensures
            r@ == self.capabilities_spec(),
    {
        &self.capabilities
    }

    pub fn scheduler_endpoint(&self) -> (r: &String)
        ensures
            r@ == self.scheduler_endpoint_spec(),
    {
        &self.scheduler_endpoint
    }

    /// Whether the node serves `capability` itself.
    pub fn has_capability(&self, capability: &String) -> (r: bool)
        ensures
            r == declares(self.capabilities_spec(), capability@),
    {
        let mut i: usize = 0;
        while i < self.capabilities.len()
            invariant
                i <= self.capabilities@.len(),
                forall|t: int| 0 <= t < i ==> #[trigger] self.capabilities@[t]@ != capability@,
            decreases self.capabilities@.len() - i,
        {
            if self.capabilities[i] == *capability {
                return true;
            }
            i = i + 1;
        }
        false
    }

    /// Takes in a call for `capability`: it stays on this node where the node
    /// serves the capability, and goes to the scheduler otherwise.
    pub fn start_call(&self, capability: &String) -> (r: (CallRoute, CallAction))
        ensures
            (r.0.phase_spec(), r.1) == start_spec(declares(self.capabilities_spec(), capability@)),
    {
        if self.has_capability(capability) {
            (CallRoute { phase: CallPhase::Local }, CallAction::InvokeWorker)
        } else {
            (CallRoute { phase: CallPhase::Lookup }, CallAction::LookupCapability)
        }
    }
}

} // verus!

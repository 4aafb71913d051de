use anyserve::router::{CallAction, CallError, CallEvent, CallOutput, CallPhase, CallResult, Node};

fn node() -> Node {
    Node::new(
        "node-a".to_string(),
        "10.0.0.1:8080".to_string(),
        vec!["echo".to_string(), "resize".to_string()],
        "http://scheduler:9000".to_string(),
    )
}

fn out(bytes: &[u8]) -> CallOutput {
    CallOutput { output: bytes.to_vec(), output_refs: vec!["obj-1".to_string()] }
}

#[test]
fn node_keeps_its_identity() {
    let n = node();
    assert_eq!(n.node_id(), "node-a");
    assert_eq!(n.listen_address(), "10.0.0.1:8080");
    assert_eq!(n.scheduler_endpoint(), "http://scheduler:9000");
    assert_eq!(n.capabilities().len(), 2);
    assert!(n.has_capability(&"resize".to_string()));
    assert!(!n.has_capability(&"Resize".to_string()));
}

#[test]
fn declared_capability_runs_locally() {
    let n = node();
    let (mut route, action) = n.start_call(&"echo".to_string());
    assert_eq!(action, CallAction::InvokeWorker);
    assert_eq!(route.phase(), CallPhase::Local);
    let reply = route.on_event(CallEvent::WorkerReplied(Ok(out(b"hi"))));
    assert_eq!(
        reply,
        CallAction::Reply(Ok(CallResult {
            output: b"hi".to_vec(),
            output_refs: vec!["obj-1".to_string()],
            delegated: false,
        }))
    );
    assert_eq!(route.phase(), CallPhase::Finished);
}

#[test]
fn worker_error_becomes_internal_error() {
    let n = node();
    let (mut route, _) = n.start_call(&"echo".to_string());
    let reply = route.on_event(CallEvent::WorkerReplied(Err("boom".to_string())));
    assert_eq!(reply, CallAction::Reply(Err(CallError::Internal("boom".to_string()))));
}

#[test]
fn absent_capability_goes_to_first_peer() {
    let n = node();
    let (mut route, action) = n.start_call(&"summarize".to_string());
    assert_eq!(action, CallAction::LookupCapability);
    let eps = vec!["10.0.0.2:8080".to_string(), "10.0.0.3:8080".to_string()];
    let next = route.on_event(CallEvent::SchedulerReplied(Ok(eps)));
    assert_eq!(next, CallAction::ForwardTo("10.0.0.2:8080".to_string()));
    assert_eq!(route.phase(), CallPhase::Forwarded);
    let reply = route.on_event(CallEvent::PeerReplied(Ok(out(b"bonjour"))));
    assert_eq!(
        reply,
        CallAction::Reply(Ok(CallResult {
            output: b"bonjour".to_vec(),
            output_refs: vec!["obj-1".to_string()],
            delegated: true,
        }))
    );
}

#[test]
fn absent_capability_without_peers_is_not_found() {
    let n = node();
    let (mut route, _) = n.start_call(&"summarize".to_string());
    let reply = route.on_event(CallEvent::SchedulerReplied(Ok(Vec::new())));
    assert_eq!(reply, CallAction::Reply(Err(CallError::NotFound)));
    assert_eq!(route.phase(), CallPhase::Finished);
    // A late worker reply does not run anything.
    assert_eq!(route.on_event(CallEvent::WorkerReplied(Ok(out(b"x")))), CallAction::Ignore);
}

#[test]
fn failed_lookup_and_failed_peer_are_internal_errors() {
    let n = node();
    let (mut route, _) = n.start_call(&"summarize".to_string());
    let reply = route.on_event(CallEvent::SchedulerReplied(Err("unreachable".to_string())));
    assert_eq!(reply, CallAction::Reply(Err(CallError::Internal("unreachable".to_string()))));

    let (mut route, _) = n.start_call(&"summarize".to_string());
    route.on_event(CallEvent::SchedulerReplied(Ok(vec!["p:1".to_string()])));
    let reply = route.on_event(CallEvent::PeerReplied(Err("reset".to_string())));
    assert_eq!(reply, CallAction::Reply(Err(CallError::Internal("reset".to_string()))));
}

#[test]
fn events_of_another_phase_are_ignored() {
    let n = node();
    let (mut route, _) = n.start_call(&"echo".to_string());
    assert_eq!(
        route.on_event(CallEvent::SchedulerReplied(Ok(vec!["p:1".to_string()]))),
        CallAction::Ignore
    );
    assert_eq!(route.phase(), CallPhase::Local);
}

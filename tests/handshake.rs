use anyserve::handshake::{
    find_bytes, ready_token_bytes, Handshake, HandshakeStep, PipeEvent, StartupError,
    READINESS_TIMEOUT_MS,
};

#[test]
fn default_timeout_is_ten_seconds() {
    assert_eq!(Handshake::new().timeout_ms(), 10_000);
    assert_eq!(READINESS_TIMEOUT_MS, 10_000);
}

#[test]
fn token_means_ready() {
    let h = Handshake::new();
    let step = h.on_event(120, PipeEvent::Bytes(b"READY\n".to_vec()));
    assert_eq!(step, HandshakeStep::Proceed { token_seen: true });
}

#[test]
fn other_bytes_proceed_without_token() {
    let h = Handshake::new();
    let step = h.on_event(5, PipeEvent::Bytes(b"HELLO".to_vec()));
    assert_eq!(step, HandshakeStep::Proceed { token_seen: false });
    let partial = h.on_event(5, PipeEvent::Bytes(b"READ".to_vec()));
    assert_eq!(partial, HandshakeStep::Proceed { token_seen: false });
}

#[test]
fn closed_pipe_aborts() {
    let h = Handshake::new();
    let step = h.on_event(3, PipeEvent::Bytes(Vec::new()));
    assert_eq!(step, HandshakeStep::Abort(StartupError::WorkerClosedWithoutSignal));
}

#[test]
fn read_error_aborts() {
    let h = Handshake::new();
    let step = h.on_event(3, PipeEvent::ReadFailed("bad descriptor".to_string()));
    assert_eq!(
        step,
        HandshakeStep::Abort(StartupError::PipeReadFailed("bad descriptor".to_string()))
    );
}

#[test]
fn silence_waits_until_timeout_then_aborts() {
    let h = Handshake::with_timeout(10_000);
    assert_eq!(h.on_event(0, PipeEvent::NothingYet), HandshakeStep::Wait { remaining_ms: 10_000 });
    assert_eq!(h.on_event(9_999, PipeEvent::NothingYet), HandshakeStep::Wait { remaining_ms: 1 });
    assert_eq!(
        h.on_event(10_000, PipeEvent::NothingYet),
        HandshakeStep::Abort(StartupError::ReadinessTimedOut)
    );
    assert_eq!(
        h.on_event(10_050, PipeEvent::NothingYet),
        HandshakeStep::Abort(StartupError::ReadinessTimedOut)
    );
}

#[test]
fn token_search() {
    let token = ready_token_bytes();
    assert_eq!(token, b"READY".to_vec());
    assert!(find_bytes(b"xxREADYyy", &token));
    assert!(find_bytes(b"READY", &token));
    assert!(!find_bytes(b"READ", &token));
    assert!(!find_bytes(b"ready", &token));
    assert!(find_bytes(b"abc", b""));
    assert!(!find_bytes(b"", &token));
}

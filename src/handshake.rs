use vstd::prelude::*;

verus! {

/// How long a freshly spawned worker has to announce that it is ready.
pub const READINESS_TIMEOUT_MS: u64 = 10000;

/// The bytes `READY`, which a worker writes once it accepts calls.
pub open spec fn ready_token() -> Seq<u8> {
    seq![82u8, 69u8, 65u8, 68u8, 89u8]
}

/// Whether `needle` occurs in `hay` at position `i`.
pub open spec fn occurs_at(hay: Seq<u8>, needle: Seq<u8>, i: int) -> bool {
    0 <= i && i + needle.len() <= hay.len() && hay.subrange(i, i + needle.len()) == needle
}

/// Whether `needle` occurs anywhere in `hay`.
pub open spec fn contains_bytes(hay: Seq<u8>, needle: Seq<u8>) -> bool {
    exists|i: int| occurs_at(hay, needle, i)
}

/// The readiness token as bytes.
pub fn ready_token_bytes() -> (r: Vec<u8>)
    ensures
        r@ == ready_token(),
{
    let r: Vec<u8> = vec![82u8, 69u8, 65u8, 68u8, 89u8];
    assert(r@ =~= ready_token());
    r
}

/// Whether `needle` occurs in `hay`.
pub fn find_bytes(hay: &[u8], needle: &[u8]) -> (r: bool)
    ensures
        r == contains_bytes(hay@, needle@),
{
    let n = hay.len();
    let m = needle.len();
    if m > n {
        assert forall|i: int| !occurs_at(hay@, needle@, i) by {}
        return false;
    }
    let mut i: usize = 0;
    while i <= n - m
        invariant
            n == hay@.len(),
            m == needle@.len(),
            m <= n,
            i <= n - m + 1,
            forall|j: int| 0 <= j < i ==> !occurs_at(hay@, needle@, j),
        decreases n - m + 1 - i,
    {
        let mut k: usize = 0;
        let mut same = true;
        while k < m && same
            invariant
                n == hay@.len(),
                m == needle@.len(),
                i + m <= n,
                k <= m,
                same ==> forall|t: int| 0 <= t < k ==> hay@[i + t] == needle@[t],
                !same ==> 0 < k && hay@[i + k - 1] != needle@[k - 1],
            decreases m - k + (if same { 1int } else { 0int }),
        {
            if hay[i + k] != needle[k] {
                same = false;
            }
            k = k + 1;
        }
        if same {
            assert(hay@.subrange(i as int, i + m) =~= needle@);
            assert(occurs_at(hay@, needle@, i as int));
            return true;
        }
        assert(hay@.subrange(i as int, i + m)[k - 1] != needle@[k - 1]);
        i = i + 1;
    }
    assert forall|j: int| !occurs_at(hay@, needle@, j) by {
        if 0 <= j && j + m <= n {
            assert(j < i);
        }
    }
    false
}

/// Why a worker was judged to have failed to start.
#[derive(Debug, Clone, PartialEq, Eq)]
pub enum StartupError {
    /// The worker closed its end of the pipe before writing anything.
    WorkerClosedWithoutSignal,
    /// Reading the pipe failed; the reason is kept.
    PipeReadFailed(String),
    /// Nothing arrived before the timeout ran out.
    ReadinessTimedOut,
}

/// What the node observed on the readiness pipe.
pub enum PipeEvent {
    /// A read returned these bytes; an empty read means the pipe was closed.
    Bytes(Vec<u8>),
    /// A read failed.
    ReadFailed(String),
    /// The node waited and nothing arrived.
    NothingYet,
}

/// What the node does next during the handshake.
#[derive(Debug, Clone, PartialEq, Eq)]
pub enum HandshakeStep {
    /// The worker is ready; `token_seen` tells whether it wrote the token or
    /// something else, which is let through but worth a note.
    Proceed { token_seen: bool },
    /// Keep waiting, at most this many more milliseconds.
    Wait { remaining_ms: u64 },
    /// Terminate the worker and abort startup.
    Abort(StartupError),
}

/// The readiness wait of one spawned worker.
pub struct Handshake {
    timeout_ms: u64,
}

impl Handshake {
    pub closed spec fn timeout_spec(&self) -> u64 {
        self.timeout_ms
    }

    /// A wait with the default timeout.
    pub fn new() -> (r: Handshake)
        ensures
            r.timeout_spec() == READINESS_TIMEOUT_MS,
    {
        Handshake { timeout_ms: READINESS_TIMEOUT_MS }
    }

    /// A wait that gives up after `timeout_ms` milliseconds.
    pub fn with_timeout(timeout_ms: u64) -> (r: Handshake)
        ensures
            r.timeout_spec() == timeout_ms,
    {
        Handshake { timeout_ms }
    }

    pub fn timeout_ms(&self) -> (r: u64)
        ensures
            r == self.timeout_spec(),
    {
        self.timeout_ms
    }

    /// Decides the next step from what the pipe showed `elapsed_ms`
    /// milliseconds after the worker was spawned. Bytes mean readiness,
    /// whatever they hold; a closed pipe or a failed read aborts at once; with
    /// nothing on the pipe the node waits out the rest of the timeout and
    /// aborts when none is left.
    pub fn on_event(&self, elapsed_ms: u64, event: PipeEvent) -> (r: HandshakeStep)
        ensures
            match event {
                PipeEvent::Bytes(b) => if b@.len() > 0 {
                    r == (HandshakeStep::Proceed { token_seen: contains_bytes(b@, ready_token()) })
                } else {
                    r == HandshakeStep::Abort(StartupError::WorkerClosedWithoutSignal)
                },
                PipeEvent::ReadFailed(msg) => r == HandshakeStep::Abort(StartupError::PipeReadFailed(msg)),
                PipeEvent::NothingYet => if elapsed_ms >= self.timeout_spec() {
                    r == HandshakeStep::Abort(StartupError::ReadinessTimedOut)
                } else {
                    r == (HandshakeStep::Wait { remaining_ms: (self.timeout_spec() - elapsed_ms) as u64 })
                },
            },
    {
        match event {
            PipeEvent::Bytes(b) => {
                if b.len() > 0 {
                    let token = ready_token_bytes();
                    let seen = find_bytes(b.as_slice(), token.as_slice());
                    HandshakeStep::Proceed { token_seen: seen }
                } else {
                    HandshakeStep::Abort(StartupError::WorkerClosedWithoutSignal)
                }
            },
            PipeEvent::ReadFailed(msg) => HandshakeStep::Abort(StartupError::PipeReadFailed(msg)),
            PipeEvent::NothingYet => {
                if elapsed_ms >= self.timeout_ms {
                    HandshakeStep::Abort(StartupError::ReadinessTimedOut)
                } else {
                    HandshakeStep::Wait { remaining_ms: self.timeout_ms - elapsed_ms }
                }
            },
        }
    }
}

} // verus!

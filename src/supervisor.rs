//! Connection supervision as a state machine: the caller performs each action
//! and reports what happened; the machine decides what comes next.
use vstd::prelude::*;

verus! {

/// How many times the first connection is tried before the client gives up.
pub const DEFAULT_MAX_CONNECT_ATTEMPTS: u32 = 5;

/// Seconds to wait after a failed handshake.
pub const DEFAULT_RETRY_DELAY_SECS: u64 = 5;

/// Seconds between heartbeats.
pub const DEFAULT_HEARTBEAT_SECS: u64 = 30;

#[derive(Clone, Copy, Debug, PartialEq, Eq, Structural)]
pub enum ConnState {
    Disconnected,
    Connecting,
    Connected,
    /// The first connection could not be made within its attempts.
    Failed,
}

#[derive(Clone, Copy, Debug, PartialEq, Eq, Structural)]
pub enum ConnEvent {
    /// The client starts.
    Start,
    HandshakeSucceeded,
    HandshakeFailed,
    /// A close frame, or a read or write error.
    ConnectionLost,
}

#[derive(Clone, Copy, Debug, PartialEq, Eq, Structural)]
pub enum ConnAction {
    /// Open the transport now.
    Connect,
    /// Wait this many seconds, then open the transport.
    RetryAfter(u64),
    /// Read frames until the transport reports a loss.
    ReadFrames,
    /// Stop: the first connection could not be made.
    GiveUp,
    /// Nothing to do for this event in this state.
    Ignore,
}

/// The supervisor's state. Only the first connection has a bounded number of
/// attempts; after it was once made, reconnection is retried without end.
#[derive(Clone, Copy, Debug, PartialEq, Eq, Structural)]
pub struct Supervisor {
    pub state: ConnState,
    /// Failed handshakes so far on the first connection.
    pub failed_attempts: u32,
    pub ever_connected: bool,
    pub max_attempts: u32,
    pub retry_delay_secs: u64,
}

/// The next state and action for an event.
pub open spec fn next(s: Supervisor, e: ConnEvent) -> (Supervisor, ConnAction) {
    match (s.state, e) {
        (ConnState::Disconnected, ConnEvent::Start) => (
            Supervisor { state: ConnState::Connecting, ..s },
            ConnAction::Connect,
        ),
        (ConnState::Connecting, ConnEvent::HandshakeSucceeded) => (
            Supervisor { state: ConnState::Connected, ever_connected: true, failed_attempts: 0, ..s },
            ConnAction::ReadFrames,
        ),
        (ConnState::Connecting, ConnEvent::HandshakeFailed) => if s.ever_connected {
            (s, ConnAction::RetryAfter(s.retry_delay_secs))
        } else if s.failed_attempts + 1 >= s.max_attempts {
            (
                Supervisor { state: ConnState::Failed, failed_attempts: (s.failed_attempts + 1) as u32, ..s },
                ConnAction::GiveUp,
            )
        } else {
            (
                Supervisor { failed_attempts: (s.failed_attempts + 1) as u32, ..s },
                ConnAction::RetryAfter(s.retry_delay_secs),
            )
        },
        (ConnState::Connected, ConnEvent::ConnectionLost) => (
            Supervisor { state: ConnState::Connecting, ..s },
            ConnAction::Connect,
        ),
        _ => (s, ConnAction::Ignore),
    }
}

/// The state after a sequence of events.
pub open spec fn run(s: Supervisor, events: Seq<ConnEvent>) -> Supervisor
    decreases events.len(),
{
    if events.len() == 0 {
        s
    } else {
        next(run(s, events.drop_last()), events.last()).0
    }
}

/// The supervisor's own invariant: a first connection still being tried has
/// attempts left.
pub open spec fn supervisor_wf(s: Supervisor) -> bool {
    (!s.ever_connected && s.state != ConnState::Failed) ==> s.failed_attempts < s.max_attempts
}

impl Supervisor {
    /// A supervisor that has not started, with the given attempt budget and delay.
    pub fn new(max_attempts: u32, retry_delay_secs: u64) -> (r: Supervisor)
        requires
            max_attempts > 0,
        ensures
            r == (Supervisor {
                state: ConnState::Disconnected,
                failed_attempts: 0,
                ever_connected: false,
                max_attempts,
                retry_delay_secs,
            }),
            supervisor_wf(r),
    {
        Supervisor {
            state: ConnState::Disconnected,
            failed_attempts: 0,
            ever_connected: false,
            max_attempts,
            retry_delay_secs,
        }
    }

    /// Takes one event and says what to do next.
    pub fn step(&mut self, e: ConnEvent) -> (r: ConnAction)
        requires
            supervisor_wf(*old(self)),
        ensures
            (*final(self), r) == next(*old(self), e),
            supervisor_wf(*final(self)),
    {
        match (self.state, e) {
            (ConnState::Disconnected, ConnEvent::Start) => {
                self.state = ConnState::Connecting;
                ConnAction::Connect
            },
            (ConnState::Connecting, ConnEvent::HandshakeSucceeded) => {
                self.state = ConnState::Connected;
                self.ever_connected = true;
                self.failed_attempts = 0;
                ConnAction::ReadFrames
            },
            (ConnState::Connecting, ConnEvent::HandshakeFailed) => {
                if self.ever_connected {
                    ConnAction::RetryAfter(self.retry_delay_secs)
                } else if self.failed_attempts + 1 >= self.max_attempts {
                    self.failed_attempts = self.failed_attempts + 1;
                    self.state = ConnState::Failed;
                    ConnAction::GiveUp
                } else {
                    self.failed_attempts = self.failed_attempts + 1;
                    ConnAction::RetryAfter(self.retry_delay_secs)
                }
            },
            (ConnState::Connected, ConnEvent::ConnectionLost) => {
                self.state = ConnState::Connecting;
                ConnAction::Connect
            },
            _ => ConnAction::Ignore,
        }
    }
}

/// `n` failed handshakes in a row.
pub open spec fn failures(n: nat) -> Seq<ConnEvent> {
    Seq::new(n, |i: int| ConnEvent::HandshakeFailed)
}

proof fn lemma_initial_failures(s: Supervisor, n: nat)
    requires
        s.state == ConnState::Connecting,
        !s.ever_connected,
        s.failed_attempts + n < s.max_attempts,
    ensures
        run(s, failures(n)) == (Supervisor { failed_attempts: (s.failed_attempts + n) as u32, ..s }),
    decreases n,
{
    if n > 0 {
        assert(failures(n).drop_last() =~= failures((n - 1) as nat));
        lemma_initial_failures(s, (n - 1) as nat);
    } else {
        assert(failures(0) =~= Seq::<ConnEvent>::empty());
    }
}

/// Started afresh, a client whose handshake fails fewer times than its budget
/// and then succeeds ends connected.
pub proof fn lemma_connects_within_budget(s: Supervisor, n: nat)
    requires
        s.state == ConnState::Disconnected,
        !s.ever_connected,
        s.failed_attempts == 0,
        n < s.max_attempts,
    ensures
        run(s, seq![ConnEvent::Start] + failures(n) + seq![ConnEvent::HandshakeSucceeded]).state
            == ConnState::Connected,
{
    let s1 = next(s, ConnEvent::Start).0;
    lemma_run_concat(s, seq![ConnEvent::Start], failures(n) + seq![ConnEvent::HandshakeSucceeded]);
    lemma_run_one(s, ConnEvent::Start);
    lemma_initial_failures(s1, n);
    lemma_run_concat(s1, failures(n), seq![ConnEvent::HandshakeSucceeded]);
    let s2 = run(s1, failures(n));
    lemma_run_one(s2, ConnEvent::HandshakeSucceeded);
    assert(seq![ConnEvent::Start] + (failures(n) + seq![ConnEvent::HandshakeSucceeded])
        =~= seq![ConnEvent::Start] + failures(n) + seq![ConnEvent::HandshakeSucceeded]);
}

/// Started afresh, a client whose every handshake fails gives up once its budget
/// is spent.
pub proof fn lemma_gives_up_after_budget(s: Supervisor)
    requires
        s.state == ConnState::Disconnected,
        !s.ever_connected,
        s.failed_attempts == 0,
        s.max_attempts > 0,
    ensures
        run(s, seq![ConnEvent::Start] + failures(s.max_attempts as nat)).state == ConnState::Failed,
{
    let n = s.max_attempts as nat;
    let s1 = next(s, ConnEvent::Start).0;
    lemma_run_concat(s, seq![ConnEvent::Start], failures(n));
    lemma_run_one(s, ConnEvent::Start);
    lemma_initial_failures(s1, (n - 1) as nat);
    assert(failures(n).drop_last() =~= failures((n - 1) as nat));
}

/// A connected client that loses its transport goes back to connecting by
/// itself, and no number of failed handshakes after that makes it give up.
pub proof fn lemma_reconnects_forever(s: Supervisor, n: nat)
    requires
        s.state == ConnState::Connected,
        s.ever_connected,
    ensures
        run(s, seq![ConnEvent::ConnectionLost] + failures(n)) == (Supervisor { state: ConnState::Connecting, ..s }),
        run(s, seq![ConnEvent::ConnectionLost] + failures(n) + seq![ConnEvent::HandshakeSucceeded]).state
            == ConnState::Connected,
    decreases n,
{
    let evs = seq![ConnEvent::ConnectionLost] + failures(n);
    if n == 0 {
        assert(evs =~= seq![ConnEvent::ConnectionLost]);
        lemma_run_one(s, ConnEvent::ConnectionLost);
    } else {
        lemma_reconnects_forever(s, (n - 1) as nat);
        assert(evs.drop_last() =~= seq![ConnEvent::ConnectionLost] + failures((n - 1) as nat));
        assert(evs.last() == ConnEvent::HandshakeFailed);
    }
    let full = evs + seq![ConnEvent::HandshakeSucceeded];
    assert(full.drop_last() =~= evs);
    assert(full.last() == ConnEvent::HandshakeSucceeded);
}

proof fn lemma_run_one(s: Supervisor, e: ConnEvent)
    ensures
        run(s, seq![e]) == next(s, e).0,
{
    assert(seq![e].drop_last() =~= Seq::<ConnEvent>::empty());
    assert(run(s, Seq::<ConnEvent>::empty()) == s);
    assert(seq![e].last() == e);
}

proof fn lemma_run_concat(s: Supervisor, a: Seq<ConnEvent>, b: Seq<ConnEvent>)
    ensures
        run(s, a + b) == run(run(s, a), b),
    decreases b.len(),
{
    if b.len() == 0 {
        assert(a + b =~= a);
    } else {
        assert((a + b).drop_last() =~= a + b.drop_last());
        lemma_run_concat(s, a, b.drop_last());
    }
}

/// Whether the heartbeat goes on after a ping: only while sends succeed; a
/// failed send ends it, and reconnection is left to the supervisor.
pub fn heartbeat_continues(sent: bool) -> (r: bool)
    ensures
        r == sent,
{
    sent
}

} // verus!

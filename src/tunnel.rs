//! The life of one tunnel: dial the upstream, run the SOCKS5 handshake, relay
//! both directions, close.
//!
//! The machine decides and the caller performs: each [`Event`] reports the outcome
//! of outside work, and [`Tunnel::step`] answers with the next [`Action`].
//!
//! No step has a timeout: the machine waits for each outcome as long as it takes,
//! so a silent upstream or client holds its tunnel open until the connection ends.
use vstd::prelude::*;

verus! {

/// One direction of the relay.
#[derive(Clone, Copy, Debug, PartialEq, Eq, Structural)]
pub enum Direction {
    ClientToUpstream,
    UpstreamToClient,
}

/// How the SOCKS5 handshake failed.
#[derive(Clone, Copy, Debug, PartialEq, Eq, Structural)]
pub enum HandshakeFault {
    /// The connection to the upstream failed mid-handshake.
    Io,
    /// The upstream answered outside the protocol.
    Protocol,
    /// The upstream chose no method that was offered.
    NoAcceptableMethod,
    /// The upstream refused the credentials.
    CredentialsRejected,
    /// The upstream could not connect to the target; the reply code it gave.
    Reply(u8),
}

/// The classes of error that a tunnel fails with.
#[derive(Clone, Copy, Debug, PartialEq, Eq, Structural)]
pub enum ErrorKind {
    Dial,
    Auth,
    Handshake,
    RelayIo,
}

/// Why a tunnel failed.
#[derive(Clone, Copy, Debug, PartialEq, Eq, Structural)]
pub enum Failure {
    /// The upstream could not be reached.
    Dial,
    /// The SOCKS5 negotiation failed.
    Handshake(HandshakeFault),
    /// Reading or writing failed in one direction of the relay.
    Relay(Direction),
}

/// Where a tunnel stands.
#[derive(Clone, Copy, Debug, PartialEq, Eq, Structural)]
pub enum Phase {
    Dialing,
    Handshaking,
    /// Copying; each flag says whether that direction is still running.
    Relaying { to_upstream: bool, to_client: bool },
    Closed,
    Failed(Failure),
}

/// The outcome of a piece of outside work.
#[derive(Clone, Copy, Debug, PartialEq, Eq, Structural)]
pub enum Event {
    /// The TCP connection to the upstream is open.
    Dialed,
    /// The TCP connection to the upstream could not be made.
    DialFailed,
    /// The upstream accepted the CONNECT; the stream is at the payload.
    HandshakeDone,
    HandshakeFailed(HandshakeFault),
    /// One direction reached end of stream and its copy is done.
    Finished(Direction),
    IoError(Direction),
}

/// What the caller is to do next.
#[derive(Clone, Copy, Debug, PartialEq, Eq, Structural)]
pub enum Action {
    /// Run the SOCKS5 handshake on the upstream connection.
    Handshake,
    /// Start copying in both directions.
    Relay,
    /// Nothing new: keep waiting for what is running.
    Wait,
    /// Release both streams; the tunnel is over.
    Close,
}

/// The class of error a handshake fault is reported as: refusing the offered
/// methods or the credentials is an authentication error.
pub open spec fn fault_kind(f: HandshakeFault) -> ErrorKind {
    match f {
        HandshakeFault::NoAcceptableMethod | HandshakeFault::CredentialsRejected => ErrorKind::Auth,
        _ => ErrorKind::Handshake,
    }
}

pub open spec fn failure_kind(f: Failure) -> ErrorKind {
    match f {
        Failure::Dial => ErrorKind::Dial,
        Failure::Handshake(h) => fault_kind(h),
        Failure::Relay(_) => ErrorKind::RelayIo,
    }
}

impl Failure {
    /// The class of error this failure is reported as.
    pub fn kind(&self) -> (r: ErrorKind)
        ensures
            r == failure_kind(*self),
    {
        match self {
            Failure::Dial => ErrorKind::Dial,
            Failure::Handshake(HandshakeFault::NoAcceptableMethod) => ErrorKind::Auth,
            Failure::Handshake(HandshakeFault::CredentialsRejected) => ErrorKind::Auth,
            Failure::Handshake(_) => ErrorKind::Handshake,
            Failure::Relay(_) => ErrorKind::RelayIo,
        }
    }
}

pub open spec fn is_terminal(p: Phase) -> bool {
    p is Closed || p is Failed
}

/// The relay phase once direction `d` has finished.
pub open spec fn after_finish(to_upstream: bool, to_client: bool, d: Direction) -> (Phase, Action) {
    let up = to_upstream && d != Direction::ClientToUpstream;
    let down = to_client && d != Direction::UpstreamToClient;
    if !up && !down {
        (Phase::Closed, Action::Close)
    } else {
        (Phase::Relaying { to_upstream: up, to_client: down }, Action::Wait)
    }
}

/// The transition table. An event that does not belong to the phase changes nothing.
pub open spec fn transition(p: Phase, e: Event) -> (Phase, Action) {
    match (p, e) {
        (Phase::Dialing, Event::Dialed) => (Phase::Handshaking, Action::Handshake),
        (Phase::Dialing, Event::DialFailed) => (Phase::Failed(Failure::Dial), Action::Close),
        (Phase::Handshaking, Event::HandshakeDone) => (
            Phase::Relaying { to_upstream: true, to_client: true },
            Action::Relay,
        ),
        (Phase::Handshaking, Event::HandshakeFailed(f)) => (
            Phase::Failed(Failure::Handshake(f)),
            Action::Close,
        ),
        (Phase::Relaying { to_upstream, to_client }, Event::Finished(d)) => after_finish(
            to_upstream,
            to_client,
            d,
        ),
        (Phase::Relaying { .. }, Event::IoError(d)) => (
            Phase::Failed(Failure::Relay(d)),
            Action::Close,
        ),
        _ => (p, Action::Wait),
    }
}

/// The phase reached from `p` through `events`.
pub open spec fn run(p: Phase, events: Seq<Event>) -> Phase
    decreases events.len(),
{
    if events.len() == 0 {
        p
    } else {
        run(transition(p, events[0]).0, events.drop_first())
    }
}

/// The actions answered from `p` to each of `events`, in order.
pub open spec fn actions(p: Phase, events: Seq<Event>) -> Seq<Action>
    decreases events.len(),
{
    if events.len() == 0 {
        Seq::empty()
    } else {
        seq![transition(p, events[0]).1] + actions(transition(p, events[0]).0, events.drop_first())
    }
}

/// The other direction of the relay.
pub open spec fn reverse(d: Direction) -> Direction {
    match d {
        Direction::ClientToUpstream => Direction::UpstreamToClient,
        Direction::UpstreamToClient => Direction::ClientToUpstream,
    }
}

/// `p` is relaying and direction `d` is still running.
pub open spec fn is_open(p: Phase, d: Direction) -> bool {
    match p {
        Phase::Relaying { to_upstream, to_client } => match d {
            Direction::ClientToUpstream => to_upstream,
            Direction::UpstreamToClient => to_client,
        },
        _ => false,
    }
}

/// A closed or failed tunnel stays as it is and starts nothing, whatever happens.
pub proof fn lemma_terminal_absorbs(p: Phase, events: Seq<Event>)
    requires
        is_terminal(p),
    ensures
        run(p, events) == p,
        actions(p, events).len() == events.len(),
        forall|i: int| 0 <= i < events.len() ==> #[trigger] actions(p, events)[i] == Action::Wait,
    decreases events.len(),
{
    if events.len() > 0 {
        lemma_terminal_absorbs(p, events.drop_first());
        let rest = actions(p, events.drop_first());
        assert forall|i: int| 0 <= i < events.len() implies #[trigger] actions(p, events)[i]
            == Action::Wait by {
            if i > 0 {
                assert(actions(p, events)[i] == rest[i - 1]);
            }
        }
    }
}

/// A direction keeps running, and the tunnel stays open, until that direction
/// itself finishes or an error comes: the end of the other direction does not
/// stop it.
pub proof fn lemma_open_direction_persists(p: Phase, d: Direction, events: Seq<Event>)
    requires
        is_open(p, d),
        forall|i: int|
            0 <= i < events.len() ==> #[trigger] events[i] != Event::Finished(d)
                && !(events[i] is IoError),
    ensures
        is_open(run(p, events), d),
        actions(p, events).len() == events.len(),
        forall|i: int| 0 <= i < events.len() ==> #[trigger] actions(p, events)[i] != Action::Close,
    decreases events.len(),
{
    if events.len() > 0 {
        let next = transition(p, events[0]).0;
        assert(events[0] != Event::Finished(d) && !(events[0] is IoError));
        assert(is_open(next, d));
        assert(transition(p, events[0]).1 != Action::Close);
        assert forall|i: int| 0 <= i < events.drop_first().len() implies
            #[trigger] events.drop_first()[i] != Event::Finished(d)
                && !(events.drop_first()[i] is IoError) by {
            assert(events.drop_first()[i] == events[i + 1]);
        }
        lemma_open_direction_persists(next, d, events.drop_first());
        let rest = actions(next, events.drop_first());
        assert forall|i: int| 0 <= i < events.len() implies #[trigger] actions(p, events)[i]
            != Action::Close by {
            if i > 0 {
                assert(actions(p, events)[i] == rest[i - 1]);
            }
        }
    }
}

/// Half-close: when one direction of a running relay reaches its end, the tunnel
/// keeps relaying the other direction, and goes on doing so through any events
/// that neither end that direction nor report an error.
pub proof fn lemma_half_close(d: Direction, events: Seq<Event>)
    requires
        forall|i: int|
            0 <= i < events.len() ==> #[trigger] events[i] != Event::Finished(reverse(d))
                && !(events[i] is IoError),
    ensures
        ({
            let (p, a) = transition(
                Phase::Relaying { to_upstream: true, to_client: true },
                Event::Finished(d),
            );
            &&& a == Action::Wait
            &&& is_open(p, reverse(d))
            &&& !is_open(p, d)
            &&& is_open(run(p, events), reverse(d))
            &&& forall|i: int|
                0 <= i < events.len() ==> #[trigger] actions(p, events)[i] != Action::Close
        }),
{
    let p = transition(Phase::Relaying { to_upstream: true, to_client: true }, Event::Finished(d)).0;
    lemma_open_direction_persists(p, reverse(d), events);
}

/// A tunnel whose credentials the upstream refuses fails as an authentication
/// error and never relays a byte.
pub proof fn lemma_rejected_credentials_relay_nothing(f: HandshakeFault, events: Seq<Event>)
    requires
        fault_kind(f) == ErrorKind::Auth,
    ensures
        transition(Phase::Handshaking, Event::HandshakeFailed(f)) == (
            Phase::Failed(Failure::Handshake(f)),
            Action::Close,
        ),
        failure_kind(Failure::Handshake(f)) == ErrorKind::Auth,
        forall|i: int|
            0 <= i < events.len() ==> #[trigger] actions(
                Phase::Failed(Failure::Handshake(f)),
                events,
            )[i] != Action::Relay,
{
    lemma_terminal_absorbs(Phase::Failed(Failure::Handshake(f)), events);
}

/// A tunnel whose upstream cannot be reached fails as a dial error, and no
/// handshake is started, so no SOCKS5 byte is sent.
pub proof fn lemma_dial_failure_sends_nothing(events: Seq<Event>)
    ensures
        transition(Phase::Dialing, Event::DialFailed) == (Phase::Failed(Failure::Dial), Action::Close),
        failure_kind(Failure::Dial) == ErrorKind::Dial,
        forall|i: int|
            0 <= i < events.len() ==> #[trigger] actions(Phase::Failed(Failure::Dial), events)[i]
                != Action::Handshake && actions(Phase::Failed(Failure::Dial), events)[i]
                != Action::Relay,
{
    lemma_terminal_absorbs(Phase::Failed(Failure::Dial), events);
}

/// How far a phase is along `Dialing → Handshaking → Relaying → Closed / Failed`.
pub open spec fn stage(p: Phase) -> nat {
    match p {
        Phase::Dialing => 0,
        Phase::Handshaking => 1,
        Phase::Relaying { .. } => 2,
        _ => 3,
    }
}

proof fn lemma_run_concat(p: Phase, a: Seq<Event>, b: Seq<Event>)
    ensures
        run(p, a + b) == run(run(p, a), b),
        actions(p, a).len() == a.len(),
        actions(p, a + b) == actions(p, a) + actions(run(p, a), b),
    decreases a.len(),
{
    if a.len() == 0 {
        assert(a + b =~= b);
        assert(actions(p, a) + actions(p, b) =~= actions(p, b));
    } else {
        let q = transition(p, a[0]).0;
        assert((a + b).drop_first() =~= a.drop_first() + b);
        assert((a + b)[0] == a[0]);
        lemma_run_concat(q, a.drop_first(), b);
        assert(actions(p, a + b) =~= actions(p, a) + actions(run(p, a), b));
    }
}

proof fn lemma_action_at(p: Phase, events: Seq<Event>, i: int)
    requires
        0 <= i < events.len(),
    ensures
        actions(p, events).len() == events.len(),
        actions(p, events)[i] == transition(run(p, events.take(i)), events[i]).1,
        run(p, events.take(i + 1)) == transition(run(p, events.take(i)), events[i]).0,
{
    let q = run(p, events.take(i));
    let rest = events.skip(i);
    assert(events =~= events.take(i) + rest);
    lemma_run_concat(p, events.take(i), rest);
    lemma_run_concat(q, rest, Seq::empty());
    assert(rest[0] == events[i]);
    let one = seq![events[i]];
    assert(events.take(i + 1) =~= events.take(i) + one);
    lemma_run_concat(p, events.take(i), one);
    assert(one.drop_first() =~= Seq::<Event>::empty());
    assert(run(q, one) == run(transition(q, events[i]).0, one.drop_first()));
}

proof fn lemma_stage_monotone(events: Seq<Event>, i: int, j: int)
    requires
        0 <= i <= j <= events.len(),
    ensures
        stage(run(Phase::Dialing, events.take(i))) <= stage(run(Phase::Dialing, events.take(j))),
    decreases j - i,
{
    if i < j {
        lemma_stage_monotone(events, i, j - 1);
        lemma_action_at(Phase::Dialing, events, j - 1);
    }
}

proof fn lemma_handshake_before(events: Seq<Event>, j: int)
    requires
        0 <= j <= events.len(),
        stage(run(Phase::Dialing, events.take(j))) == 1 || stage(run(Phase::Dialing, events.take(j)))
            == 2,
    ensures
        exists|i: int| 0 <= i < j && #[trigger] actions(Phase::Dialing, events)[i] == Action::Handshake,
    decreases j,
{
    if j == 0 {
        assert(events.take(0) =~= Seq::<Event>::empty());
    } else {
        lemma_action_at(Phase::Dialing, events, j - 1);
        let q = run(Phase::Dialing, events.take(j - 1));
        if stage(q) == 1 || stage(q) == 2 {
            lemma_handshake_before(events, j - 1);
        } else {
            assert(actions(Phase::Dialing, events)[j - 1] == Action::Handshake);
        }
    }
}

/// The order of a tunnel's work: the handshake is started at most once, the relay
/// at most once, and the relay never before the handshake.
pub proof fn lemma_handshake_precedes_relay(events: Seq<Event>)
    ensures
        actions(Phase::Dialing, events).len() == events.len(),
        forall|i: int, j: int|
            0 <= i < j < events.len() && #[trigger] actions(Phase::Dialing, events)[i]
                == Action::Handshake ==> #[trigger] actions(Phase::Dialing, events)[j]
                != Action::Handshake,
        forall|i: int, j: int|
            0 <= i < j < events.len() && #[trigger] actions(Phase::Dialing, events)[i]
                == Action::Relay ==> #[trigger] actions(Phase::Dialing, events)[j] != Action::Relay,
        forall|j: int|
            0 <= j < events.len() && #[trigger] actions(Phase::Dialing, events)[j] == Action::Relay
                ==> exists|i: int|
                0 <= i < j && #[trigger] actions(Phase::Dialing, events)[i] == Action::Handshake,
{
    lemma_run_concat(Phase::Dialing, events, Seq::empty());
    let acts = actions(Phase::Dialing, events);
    assert forall|i: int, j: int|
        0 <= i < j < events.len() && #[trigger] acts[i] == Action::Handshake implies #[trigger] acts[j]
            != Action::Handshake by {
        lemma_action_at(Phase::Dialing, events, i);
        lemma_action_at(Phase::Dialing, events, j);
        lemma_stage_monotone(events, i + 1, j);
    }
    assert forall|i: int, j: int|
        0 <= i < j < events.len() && #[trigger] acts[i] == Action::Relay implies #[trigger] acts[j]
            != Action::Relay by {
        lemma_action_at(Phase::Dialing, events, i);
        lemma_action_at(Phase::Dialing, events, j);
        lemma_stage_monotone(events, i + 1, j);
    }
    assert forall|j: int| 0 <= j < events.len() && #[trigger] acts[j] == Action::Relay implies exists|
        i: int,
    | 0 <= i < j && #[trigger] acts[i] == Action::Handshake by {
        lemma_action_at(Phase::Dialing, events, j);
        lemma_handshake_before(events, j);
    }
}

/// One tunnel's state.
pub struct Tunnel {
    phase: Phase,
}

impl View for Tunnel {
    type V = Phase;

    closed spec fn view(&self) -> Phase {
        self.phase
    }
}

impl Tunnel {
    /// A tunnel that is about to dial the upstream.
    pub fn new() -> (r: Tunnel)
        ensures
            r@ == Phase::Dialing,
    {
        Tunnel { phase: Phase::Dialing }
    }

    pub fn phase(&self) -> (r: Phase)
        ensures
            r == self@,
    {
        self.phase
    }

    /// Takes in the outcome of outside work and answers what to do next.
    pub fn step(&mut self, e: Event) -> (r: Action)
        ensures
            (final(self)@, r) == transition(old(self)@, e),
    {
        let (next, action) = match (self.phase, e) {
            (Phase::Dialing, Event::Dialed) => (Phase::Handshaking, Action::Handshake),
            (Phase::Dialing, Event::DialFailed) => (Phase::Failed(Failure::Dial), Action::Close),
            (Phase::Handshaking, Event::HandshakeDone) => (
                Phase::Relaying { to_upstream: true, to_client: true },
                Action::Relay,
            ),
            (Phase::Handshaking, Event::HandshakeFailed(f)) => (
                Phase::Failed(Failure::Handshake(f)),
                Action::Close,
            ),
            (Phase::Relaying { to_upstream, to_client }, Event::Finished(d)) => {
                let up = to_upstream && d != Direction::ClientToUpstream;
                let down = to_client && d != Direction::UpstreamToClient;
                if !up && !down {
                    (Phase::Closed, Action::Close)
                } else {
                    (Phase::Relaying { to_upstream: up, to_client: down }, Action::Wait)
                }
            },
            (Phase::Relaying { .. }, Event::IoError(d)) => (
                Phase::Failed(Failure::Relay(d)),
                Action::Close,
            ),
            (p, _) => (p, Action::Wait),
        };
        self.phase = next;
        action
    }
}

} // verus!

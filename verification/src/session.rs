//! The relay session: connect, run the connection, back off, connect again.

use vstd::arithmetic::power2::{lemma2_to64, lemma_pow2_pos, lemma_pow2_unfold, pow2};
use vstd::prelude::*;

verus! {

/// The shortest wait before connecting again, in milliseconds.
pub const RECONNECT_BASE_DELAY: u64 = 500;

/// The longest wait before connecting again, in milliseconds.
pub const RECONNECT_MAX_DELAY: u64 = 30_000;

/// What the session is waiting for.
#[derive(Clone, Copy, Debug, PartialEq, Eq, Structural)]
pub enum SessionStage {
    /// Whether it was cancelled before an attempt.
    Checking,
    /// The outcome of an attempt to connect.
    Connecting,
    /// That the connection is over.
    Driving,
    /// Whether it was cancelled since the attempt.
    Rechecking,
    /// The end of the wait, or that it was cancelled meanwhile.
    Sleeping,
    /// Nothing more.
    Stopped,
}

/// What can happen to the session.
#[derive(Clone, Copy, Debug, PartialEq, Eq, Structural)]
pub enum SessionEvent {
    /// Whether the session is cancelled.
    Polled { cancelled: bool },
    /// The relay accepted the connection and its authentication.
    Connected,
    /// The attempt to connect failed.
    ConnectFailed,
    /// The connection is over.
    ConnectionEnded,
    /// The wait is over.
    Slept,
    /// The session was cancelled during the wait.
    Cancelled,
}

/// What is to be done next.
#[derive(Clone, Copy, Debug, PartialEq, Eq, Structural)]
pub enum SessionAction {
    /// Look whether the session is cancelled.
    Poll,
    /// Connect to the relay.
    Connect,
    /// Run the connection until it is over.
    Drive,
    /// Wait this many milliseconds, or until the session is cancelled.
    Sleep(u64),
    /// End.
    Stop,
}

/// A relay session: what it waits for, and its next wait in milliseconds.
#[derive(Clone, Copy, Debug, PartialEq, Eq, Structural)]
pub struct Session {
    pub delay: u64,
    pub stage: SessionStage,
}

/// The wait that follows on a wait: twice as long, up to the longest.
pub open spec fn longer(delay: int) -> int {
    if 2 * delay <= RECONNECT_MAX_DELAY {
        2 * delay
    } else {
        RECONNECT_MAX_DELAY as int
    }
}

/// Doubles a wait, up to the longest.
pub fn next_delay(delay: u64) -> (next: u64)
    ensures
        next == longer(delay as int),
        next <= 2 * delay,
        next <= RECONNECT_MAX_DELAY,
        next == 2 * delay || next == RECONNECT_MAX_DELAY,
{
    if delay <= RECONNECT_MAX_DELAY / 2 {
        delay * 2
    } else {
        RECONNECT_MAX_DELAY
    }
}

impl Session {
    /// Whether the event is one that the session is waiting for.
    pub open spec fn awaits(self, event: SessionEvent) -> bool {
        match event {
            SessionEvent::Polled { .. } => self.stage is Checking || self.stage is Rechecking,
            SessionEvent::Connected => self.stage is Connecting,
            SessionEvent::ConnectFailed => self.stage is Connecting,
            SessionEvent::ConnectionEnded => self.stage is Driving,
            SessionEvent::Slept => self.stage is Sleeping,
            SessionEvent::Cancelled => self.stage is Sleeping,
        }
    }

    /// A new session, and its first action: to look whether it is cancelled.
    pub fn start() -> (started: (Session, SessionAction))
        ensures
            started == session_start(),
            started.0.stage is Checking,
            started.0.delay == RECONNECT_BASE_DELAY,
            started.1 is Poll,
    {
        (Session { delay: RECONNECT_BASE_DELAY, stage: SessionStage::Checking }, SessionAction::Poll)
    }

    /// Whether the event is one that the session is waiting for.
    pub fn accepts(&self, event: SessionEvent) -> (accepted: bool)
        ensures
            accepted == self.awaits(event),
    {
        match (event, self.stage) {
            (SessionEvent::Polled { .. }, SessionStage::Checking) => true,
            (SessionEvent::Polled { .. }, SessionStage::Rechecking) => true,
            (SessionEvent::Connected, SessionStage::Connecting) => true,
            (SessionEvent::ConnectFailed, SessionStage::Connecting) => true,
            (SessionEvent::ConnectionEnded, SessionStage::Driving) => true,
            (SessionEvent::Slept, SessionStage::Sleeping) => true,
            (SessionEvent::Cancelled, SessionStage::Sleeping) => true,
            _ => false,
        }
    }

    /// Moves on an event that the session is waiting for.
    ///
    /// A connection that authenticated is healthy however long it then lived,
    /// so the wait goes back to the shortest as soon as it stands: a socket
    /// that drops after one event does not inherit an earlier failure's wait.
    pub fn step(self, event: SessionEvent) -> (next: (Session, SessionAction))
        requires
            self.awaits(event),
        ensures
            next == session_next(self, event),
    {
        match event {
            SessionEvent::Polled { cancelled } => {
                if cancelled {
                    (
                        Session { delay: self.delay, stage: SessionStage::Stopped },
                        SessionAction::Stop,
                    )
                } else {
                    match self.stage {
                        SessionStage::Checking => (
                            Session { delay: self.delay, stage: SessionStage::Connecting },
                            SessionAction::Connect,
                        ),
                        _ => (
                            Session { delay: self.delay, stage: SessionStage::Sleeping },
                            SessionAction::Sleep(self.delay),
                        ),
                    }
                }
            },
            SessionEvent::Connected => (
                Session { delay: RECONNECT_BASE_DELAY, stage: SessionStage::Driving },
                SessionAction::Drive,
            ),
            SessionEvent::ConnectFailed => (
                Session { delay: self.delay, stage: SessionStage::Rechecking },
                SessionAction::Poll,
            ),
            SessionEvent::ConnectionEnded => (
                Session { delay: self.delay, stage: SessionStage::Rechecking },
                SessionAction::Poll,
            ),
            SessionEvent::Slept => (
                Session { delay: next_delay(self.delay), stage: SessionStage::Checking },
                SessionAction::Poll,
            ),
            SessionEvent::Cancelled => (
                Session { delay: self.delay, stage: SessionStage::Stopped },
                SessionAction::Stop,
            ),
        }
    }
}

/// A session before anything has happened, and its first action.
pub open spec fn session_start() -> (Session, SessionAction) {
    (Session { delay: RECONNECT_BASE_DELAY, stage: SessionStage::Checking }, SessionAction::Poll)
}

/// The state and the action that follow on an event.
pub open spec fn session_next(session: Session, event: SessionEvent) -> (Session, SessionAction) {
    match event {
        SessionEvent::Polled { cancelled: true } => (
            Session { stage: SessionStage::Stopped, ..session },
            SessionAction::Stop,
        ),
        SessionEvent::Polled { cancelled: false } => if session.stage is Checking {
            (Session { stage: SessionStage::Connecting, ..session }, SessionAction::Connect)
        } else {
            (
                Session { stage: SessionStage::Sleeping, ..session },
                SessionAction::Sleep(session.delay),
            )
        },
        SessionEvent::Connected => (
            Session { delay: RECONNECT_BASE_DELAY, stage: SessionStage::Driving },
            SessionAction::Drive,
        ),
        SessionEvent::ConnectFailed => (
            Session { stage: SessionStage::Rechecking, ..session },
            SessionAction::Poll,
        ),
        SessionEvent::ConnectionEnded => (
            Session { stage: SessionStage::Rechecking, ..session },
            SessionAction::Poll,
        ),
        SessionEvent::Slept => (
            Session {
                delay: longer(session.delay as int) as u64,
                stage: SessionStage::Checking,
            },
            SessionAction::Poll,
        ),
        SessionEvent::Cancelled => (
            Session { stage: SessionStage::Stopped, ..session },
            SessionAction::Stop,
        ),
    }
}

/// The state after a run of events.
pub open spec fn session_after(events: Seq<SessionEvent>) -> Session
    decreases events.len(),
{
    if events.len() == 0 {
        session_start().0
    } else {
        session_next(session_after(events.drop_last()), events.last()).0
    }
}

/// Whether the session was waiting for each event when it came.
pub open spec fn is_session_run(events: Seq<SessionEvent>) -> bool
    decreases events.len(),
{
    events.len() == 0 || (is_session_run(events.drop_last()) && session_after(
        events.drop_last(),
    ).awaits(events.last()))
}

/// How many waits are over since the last connection, or since the start.
pub open spec fn waits_since_connected(events: Seq<SessionEvent>) -> nat
    decreases events.len(),
{
    if events.len() == 0 {
        0
    } else {
        match events.last() {
            SessionEvent::Connected => 0,
            SessionEvent::Slept => waits_since_connected(events.drop_last()) + 1,
            _ => waits_since_connected(events.drop_last()),
        }
    }
}

/// The wait after so many waits in a row: the shortest doubled as often, up to
/// the longest.
pub open spec fn backoff(waits: nat) -> int {
    let doubled = RECONNECT_BASE_DELAY * pow2(waits);
    if doubled <= RECONNECT_MAX_DELAY {
        doubled
    } else {
        RECONNECT_MAX_DELAY as int
    }
}

/// One more wait in a row makes the wait longer.
proof fn lemma_backoff_step(waits: nat)
    ensures
        backoff(waits + 1) == longer(backoff(waits)),
        RECONNECT_BASE_DELAY <= backoff(waits),
{
    lemma_pow2_unfold(waits + 1);
    lemma_pow2_pos(waits);
}

/// The wait is always the backoff for the waits since the last connection.
pub proof fn law_wait_doubles_until_a_connection_resets_it(events: Seq<SessionEvent>)
    requires
        is_session_run(events),
    ensures
        session_after(events).delay == backoff(waits_since_connected(events)),
    decreases events.len(),
{
    lemma2_to64();
    if events.len() > 0 {
        law_wait_doubles_until_a_connection_resets_it(events.drop_last());
        lemma_backoff_step(waits_since_connected(events.drop_last()));
    }
}

/// The backoff starts at the shortest wait, never shrinks from one wait to the
/// next, and never passes the longest, which it reaches.
pub proof fn law_backoff_stays_within_its_bounds(waits: nat)
    ensures
        backoff(0) == RECONNECT_BASE_DELAY,
        backoff(waits) <= backoff(waits + 1) <= RECONNECT_MAX_DELAY,
        waits >= 6 ==> backoff(waits) == RECONNECT_MAX_DELAY,
    decreases waits,
{
    lemma2_to64();
    lemma_backoff_step(waits);
    if waits > 6 {
        law_backoff_stays_within_its_bounds((waits - 1) as nat);
        lemma_backoff_step((waits - 1) as nat);
    }
}

/// A session connects only on a look that found it not cancelled.
pub proof fn law_connects_only_when_not_cancelled(session: Session, event: SessionEvent)
    requires
        session_next(session, event).1 is Connect,
    ensures
        event == (SessionEvent::Polled { cancelled: false }),
{
}

/// A session that finds itself cancelled stops, for good.
pub proof fn law_cancelled_session_stops(session: Session, event: SessionEvent)
    requires
        session.awaits(event),
        event == (SessionEvent::Polled { cancelled: true }) || event is Cancelled,
    ensures
        session_next(session, event).1 is Stop,
        forall|later: SessionEvent| !session_next(session, event).0.awaits(later),
{
}

/// A connection that stands is run: whenever an attempt succeeds, whatever the
/// wait was, the connection is driven, its end is all that is waited for, and
/// the next wait is the shortest.
pub proof fn law_connected_session_is_driven(session: Session)
    requires
        session.awaits(SessionEvent::Connected),
    ensures
        ({
            let (driving, action) = session_next(session, SessionEvent::Connected);
            &&& action is Drive
            &&& driving.stage is Driving
            &&& driving.delay == RECONNECT_BASE_DELAY
            &&& forall|event: SessionEvent| driving.awaits(event) <==> event is ConnectionEnded
        }),
{
}

/// Whatever becomes of an attempt, the session tries again unless it is
/// cancelled: after a failed attempt, and after a connection that ended, it
/// looks whether it is cancelled, waits for as long as its wait is, looks
/// again, and connects. The wait after that is twice as long, up to the
/// longest.
pub proof fn law_session_tries_again(session: Session, over: SessionEvent)
    requires
        session.awaits(over),
        over is ConnectFailed || over is ConnectionEnded,
    ensures
        ({
            let go_on = SessionEvent::Polled { cancelled: false };
            let (over, look) = session_next(session, over);
            let (sleeping, sleep) = session_next(over, go_on);
            let (rested, look_again) = session_next(sleeping, SessionEvent::Slept);
            let (connecting, connect) = session_next(rested, go_on);
            &&& look is Poll
            &&& over.awaits(go_on)
            &&& sleep == SessionAction::Sleep(session.delay)
            &&& sleeping.awaits(SessionEvent::Slept)
            &&& sleeping.awaits(SessionEvent::Cancelled)
            &&& look_again is Poll
            &&& rested.awaits(go_on)
            &&& connect is Connect
            &&& connecting.awaits(SessionEvent::Connected)
            &&& connecting.awaits(SessionEvent::ConnectFailed)
            &&& 2 * session.delay <= RECONNECT_MAX_DELAY ==> connecting.delay == 2 * session.delay
            &&& 2 * session.delay > RECONNECT_MAX_DELAY ==> connecting.delay
                == RECONNECT_MAX_DELAY
        }),
{
}

/// The action that is due after a run of events.
pub open spec fn session_action_after(events: Seq<SessionEvent>) -> SessionAction {
    if events.len() == 0 {
        session_start().1
    } else {
        session_next(session_after(events.drop_last()), events.last()).1
    }
}

/// In every run the session waits for the outcomes of the action that is due,
/// for each of them and for nothing else. The first is to look whether it is
/// cancelled.
pub proof fn law_session_awaits_what_its_action_brings(
    events: Seq<SessionEvent>,
    event: SessionEvent,
)
    requires
        is_session_run(events),
    ensures
        events.len() == 0 ==> session_action_after(events) is Poll,
        session_after(events).awaits(event) <==> match session_action_after(events) {
            SessionAction::Poll => event is Polled,
            SessionAction::Connect => event is Connected || event is ConnectFailed,
            SessionAction::Drive => event is ConnectionEnded,
            SessionAction::Sleep(_) => event is Slept || event is Cancelled,
            SessionAction::Stop => false,
        },
    decreases events.len(),
{
    if events.len() > 0 {
        law_session_awaits_what_its_action_brings(events.drop_last(), event);
    }
}

/// The first look at a session that is not cancelled leads to an attempt.
pub proof fn law_session_begins_with_an_attempt()
    ensures
        ({
            let go_on = SessionEvent::Polled { cancelled: false };
            let (connecting, action) = session_next(session_start().0, go_on);
            &&& session_start().0.awaits(go_on)
            &&& action is Connect
            &&& connecting.awaits(SessionEvent::Connected)
            &&& connecting.awaits(SessionEvent::ConnectFailed)
        }),
{
}

/// A session stops only when it is cancelled.
pub proof fn law_session_stops_only_when_cancelled(events: Seq<SessionEvent>)
    requires
        is_session_run(events),
        session_action_after(events) is Stop,
    ensures
        events.len() > 0,
        events.last() == (SessionEvent::Polled { cancelled: true }) || events.last() is Cancelled,
{
}

/// In every run each wait is half a second, doubled for each wait since the
/// last connection, and half a minute at most.
pub proof fn law_waits_are_half_a_second_doubled(events: Seq<SessionEvent>)
    requires
        is_session_run(events),
        session_action_after(events) is Sleep,
    ensures
        ({
            let wait = session_action_after(events)->Sleep_0;
            let doubled = 500 * pow2(waits_since_connected(events));
            &&& doubled <= 30_000 ==> wait == doubled
            &&& doubled > 30_000 ==> wait == 30_000
        }),
{
    law_wait_doubles_until_a_connection_resets_it(events);
}

} // verus!

//! When the proxy takes connections and when it ends.
use vstd::prelude::*;

verus! {

/// How long open connections may go on after a signal to stop, in seconds.
pub const SHUTDOWN_GRACE_PERIOD_SECS: u64 = 10;

/// What the server is about.
#[derive(Clone, Copy, Debug, PartialEq, Eq, Structural)]
pub enum ServerPhase {
    /// Taking connections.
    Accepting,
    /// Waiting for open connections to end.
    Draining,
    /// Nothing more.
    Stopped,
}

/// What happens to the server.
#[derive(Clone, Copy, Debug, PartialEq, Eq, Structural)]
pub enum ServerEvent {
    /// A client connected.
    Connected,
    /// A connection could not be taken.
    AcceptFailed,
    /// A signal to stop came.
    ShutdownSignal,
    /// The last open connection ended.
    Drained,
    /// The grace period is over.
    GraceElapsed,
}

/// What the server does.
#[derive(Clone, Copy, Debug, PartialEq, Eq, Structural)]
pub enum ServerAction {
    /// Serve the connection, besides those that are open.
    Serve,
    /// Wait for what comes next.
    Wait,
    /// Take no more connections; let the open ones go on for the grace period.
    Drain,
    /// End; all connections have ended.
    Exit,
    /// End, with connections still open.
    ForceExit,
}

impl ServerPhase {
    /// The phase after an event.
    pub open spec fn after(self, event: ServerEvent) -> ServerPhase {
        match (self, event) {
            (ServerPhase::Accepting, ServerEvent::ShutdownSignal) => ServerPhase::Draining,
            (
                ServerPhase::Draining,
                ServerEvent::Drained | ServerEvent::GraceElapsed,
            ) => ServerPhase::Stopped,
            _ => self,
        }
    }

    /// What is done on an event.
    pub open spec fn action(self, event: ServerEvent) -> ServerAction {
        match (self, event) {
            (ServerPhase::Accepting, ServerEvent::Connected) => ServerAction::Serve,
            (ServerPhase::Accepting, ServerEvent::ShutdownSignal) => ServerAction::Drain,
            (ServerPhase::Draining, ServerEvent::Drained) => ServerAction::Exit,
            (ServerPhase::Draining, ServerEvent::GraceElapsed) => ServerAction::ForceExit,
            _ => ServerAction::Wait,
        }
    }

    /// Takes an event: moves on and says what to do. A connection that cannot be
    /// taken is passed over; a signal ends the taking of connections, not the
    /// serving of those that are open.
    pub fn handle(self, event: ServerEvent) -> (r: (ServerPhase, ServerAction))
        ensures
            r.0 == self.after(event),
            r.1 == self.action(event),
    {
        match self {
            ServerPhase::Accepting => match event {
                ServerEvent::Connected => (self, ServerAction::Serve),
                ServerEvent::ShutdownSignal => (ServerPhase::Draining, ServerAction::Drain),
                _ => (self, ServerAction::Wait),
            },
            ServerPhase::Draining => match event {
                ServerEvent::Drained => (ServerPhase::Stopped, ServerAction::Exit),
                ServerEvent::GraceElapsed => (ServerPhase::Stopped, ServerAction::ForceExit),
                _ => (self, ServerAction::Wait),
            },
            ServerPhase::Stopped => (self, ServerAction::Wait),
        }
    }

    /// The phase after several events.
    pub open spec fn after_all(self, events: Seq<ServerEvent>) -> ServerPhase
        decreases events.len(),
    {
        if events.len() == 0 {
            self
        } else {
            self.after_all(events.drop_last()).after(events.last())
        }
    }
}

/// Once a signal to stop has come, no further connection is served, whatever
/// happens.
pub proof fn law_no_connection_after_signal(events: Seq<ServerEvent>, event: ServerEvent)
    requires
        exists|i: int| 0 <= i < events.len() && #[trigger] events[i] == ServerEvent::ShutdownSignal,
    ensures
        ServerPhase::Accepting.after_all(events) != ServerPhase::Accepting,
        ServerPhase::Accepting.after_all(events).action(event) != ServerAction::Serve,
    decreases events.len(),
{
    let front = events.drop_last();
    if events.last() != ServerEvent::ShutdownSignal {
        let i = choose|i: int|
            0 <= i < events.len() && #[trigger] events[i] == ServerEvent::ShutdownSignal;
        assert(front[i] == ServerEvent::ShutdownSignal);
        law_no_connection_after_signal(front, event);
    }
}

/// The server ends only after a signal to stop, and leaves connections open only
/// when the grace period is over.
pub proof fn law_ends_only_after_signal(events: Seq<ServerEvent>, event: ServerEvent)
    ensures
        ({
            let phase = ServerPhase::Accepting.after_all(events);
            let action = phase.action(event);
            &&& phase != ServerPhase::Accepting ==> exists|i: int|
                0 <= i < events.len() && #[trigger] events[i] == ServerEvent::ShutdownSignal
            &&& action == ServerAction::Exit || action == ServerAction::ForceExit ==> phase
                == ServerPhase::Draining
            &&& action == ServerAction::ForceExit ==> event == ServerEvent::GraceElapsed
        }),
    decreases events.len(),
{
    if events.len() > 0 {
        let front = events.drop_last();
        law_ends_only_after_signal(front, event);
        if ServerPhase::Accepting.after_all(front) != ServerPhase::Accepting {
            let i = choose|i: int|
                0 <= i < front.len() && #[trigger] front[i] == ServerEvent::ShutdownSignal;
            assert(events[i] == ServerEvent::ShutdownSignal);
        } else if ServerPhase::Accepting.after_all(events) != ServerPhase::Accepting {
            assert(events[events.len() - 1] == ServerEvent::ShutdownSignal);
        }
    }
}

} // verus!

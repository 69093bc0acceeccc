//! When files are reloaded and when the server ends, told from what happened so far.
use vstd::prelude::*;

use crate::hot_reload::{WatchAction, WatchEvent, WatchState, QUIET_PERIOD_MS};
use crate::server::{ServerAction, ServerEvent, ServerPhase, SHUTDOWN_GRACE_PERIOD_SECS};

verus! {

// ---------------------------------------------------------------------------
// Reloading
// ---------------------------------------------------------------------------
/// Whether something changed and has not been quiet since.
pub open spec fn unsettled(events: Seq<WatchEvent>) -> bool {
    exists|i: int| #[trigger] unsettled_since(events, i)
}

/// Whether something changed at a place and has not been quiet since.
pub open spec fn unsettled_since(events: Seq<WatchEvent>, i: int) -> bool {
    &&& 0 <= i < events.len()
    &&& events[i] == WatchEvent::Changed
    &&& forall|j: int|
        i < j < events.len() ==> #[trigger] events[j] == WatchEvent::Changed || events[j]
            == WatchEvent::Fault
}

/// Whether a watcher came through these states by these events, from idle.
pub open spec fn watched(states: Seq<WatchState>, events: Seq<WatchEvent>) -> bool {
    &&& states.len() == events.len() + 1
    &&& states[0] == WatchState::Idle
    &&& forall|i: int|
        0 <= i < events.len() ==> states[i + 1] == states[i].after(#[trigger] events[i])
}

/// One more event leaves things unsettled exactly where it is a change, or a fault
/// while they are unsettled.
proof fn lemma_unsettled(events: Seq<WatchEvent>, event: WatchEvent)
    ensures
        unsettled(events.push(event)) <==> event == WatchEvent::Changed || (event
            == WatchEvent::Fault && unsettled(events)),
{
    let all = events.push(event);
    let last = events.len() as int;
    if event == WatchEvent::Changed {
        assert(unsettled_since(all, last));
    }
    if event == WatchEvent::Fault && unsettled(events) {
        let i = choose|i: int| #[trigger] unsettled_since(events, i);
        assert forall|j: int| i < j < all.len() implies #[trigger] all[j] == WatchEvent::Changed
            || all[j] == WatchEvent::Fault by {
            if j < last {
                assert(all[j] == events[j]);
            }
        }
        assert(unsettled_since(all, i));
    }
    if unsettled(all) && event != WatchEvent::Changed {
        let i = choose|i: int| #[trigger] unsettled_since(all, i);
        assert(all[last] == event);
        assert(i < last);
        assert forall|j: int| i < j < events.len() implies #[trigger] events[j]
            == WatchEvent::Changed || events[j] == WatchEvent::Fault by {
            assert(all[j] == events[j]);
        }
        assert(unsettled_since(events, i));
    }
}

/// The watcher reloads exactly where something changed and nothing has happened since
/// for a fifth of a second, or watching ends before that. It stops exactly where
/// watching ends with nothing left to reload. It waits for quiet exactly while things
/// are unsettled.
pub proof fn law_reloads_follow_changes(
    states: Seq<WatchState>,
    events: Seq<WatchEvent>,
    event: WatchEvent,
)
    requires
        watched(states, events),
    ensures
        QUIET_PERIOD_MS == 200,
        states.last() == WatchState::Settling <==> unsettled(events),
        states.last().action(event) == WatchAction::Reload <==> unsettled(events) && (event
            == WatchEvent::Quiet || event == WatchEvent::Closed),
        states.last().action(event) == WatchAction::Stop <==> !unsettled(events) && event
            == WatchEvent::Closed,
        states.last().action(event) == WatchAction::WaitForQuiet <==> unsettled(
            events.push(event),
        ),
    decreases events.len(),
{
    lemma_unsettled(events, event);
    if events.len() > 0 {
        let front = events.drop_last();
        let before = states.drop_last();
        assert forall|i: int| 0 <= i < front.len() implies before[i + 1] == before[i].after(
            #[trigger] front[i],
        ) by {
            assert(front[i] == events[i]);
        }
        law_reloads_follow_changes(before, front, event);
        lemma_unsettled(front, events.last());
        assert(front.push(events.last()) =~= events);
        assert(states[events.len() - 1 + 1] == states[events.len() - 1].after(
            events[events.len() - 1],
        ));
    } else if unsettled(events) {
        let i = choose|i: int| #[trigger] unsettled_since(events, i);
    }
}

// ---------------------------------------------------------------------------
// Ending
// ---------------------------------------------------------------------------
/// Whether a signal to stop came.
pub open spec fn signalled(events: Seq<ServerEvent>) -> bool {
    exists|i: int| 0 <= i < events.len() && #[trigger] events[i] == ServerEvent::ShutdownSignal
}

/// Whether a signal came at one place and the end of the wait for connections at a
/// later one.
pub open spec fn ended_at(events: Seq<ServerEvent>, i: int, j: int) -> bool {
    &&& 0 <= i < j < events.len()
    &&& events[i] == ServerEvent::ShutdownSignal
    &&& events[j] == ServerEvent::Drained || events[j] == ServerEvent::GraceElapsed
}

/// Whether the wait for connections is over.
pub open spec fn ended(events: Seq<ServerEvent>) -> bool {
    exists|i: int, j: int| #[trigger] ended_at(events, i, j)
}

/// Whether a server came through these phases by these events, from its start.
pub open spec fn served(phases: Seq<ServerPhase>, events: Seq<ServerEvent>) -> bool {
    &&& phases.len() == events.len() + 1
    &&& phases[0] == ServerPhase::Accepting
    &&& forall|i: int|
        0 <= i < events.len() ==> phases[i + 1] == phases[i].after(#[trigger] events[i])
}

/// What one more event makes of the signal and of the end.
proof fn lemma_one_more_event(events: Seq<ServerEvent>, event: ServerEvent)
    ensures
        signalled(events.push(event)) <==> signalled(events) || event
            == ServerEvent::ShutdownSignal,
        ended(events.push(event)) <==> ended(events) || (signalled(events) && (event
            == ServerEvent::Drained || event == ServerEvent::GraceElapsed)),
{
    let all = events.push(event);
    let last = events.len() as int;
    assert(all[last] == event);
    if signalled(events) {
        let i = choose|i: int|
            0 <= i < events.len() && #[trigger] events[i] == ServerEvent::ShutdownSignal;
        assert(all[i] == ServerEvent::ShutdownSignal);
        if event == ServerEvent::Drained || event == ServerEvent::GraceElapsed {
            assert(ended_at(all, i, last));
        }
    }
    if signalled(all) && event != ServerEvent::ShutdownSignal {
        let i = choose|i: int|
            0 <= i < all.len() && #[trigger] all[i] == ServerEvent::ShutdownSignal;
        assert(events[i] == ServerEvent::ShutdownSignal);
    }
    if ended(events) {
        let (i, j) = choose|i: int, j: int| #[trigger] ended_at(events, i, j);
        assert(ended_at(all, i, j));
    }
    if ended(all) {
        let (i, j) = choose|i: int, j: int| #[trigger] ended_at(all, i, j);
        assert(events[i] == ServerEvent::ShutdownSignal);
        if j < last {
            assert(ended_at(events, i, j));
        }
    }
}

/// A connection is served exactly where no signal to stop has come yet. The first
/// signal, and no other, ends the taking of connections. After it the server ends with
/// the last connection, or with ten seconds over; until then, and after that, it waits.
pub proof fn law_the_server_ends_after_a_signal(
    phases: Seq<ServerPhase>,
    events: Seq<ServerEvent>,
    event: ServerEvent,
)
    requires
        served(phases, events),
    ensures
        SHUTDOWN_GRACE_PERIOD_SECS == 10,
        phases.last() == ServerPhase::Accepting <==> !signalled(events),
        phases.last() == ServerPhase::Stopped <==> ended(events),
        phases.last().action(event) == ServerAction::Serve <==> !signalled(events) && event
            == ServerEvent::Connected,
        phases.last().action(event) == ServerAction::Drain <==> !signalled(events) && event
            == ServerEvent::ShutdownSignal,
        phases.last().action(event) == ServerAction::Exit <==> signalled(events) && !ended(events)
            && event == ServerEvent::Drained,
        phases.last().action(event) == ServerAction::ForceExit <==> signalled(events) && !ended(
            events,
        ) && event == ServerEvent::GraceElapsed,
    decreases events.len(),
{
    if events.len() > 0 {
        let front = events.drop_last();
        let before = phases.drop_last();
        assert forall|i: int| 0 <= i < front.len() implies before[i + 1] == before[i].after(
            #[trigger] front[i],
        ) by {
            assert(front[i] == events[i]);
        }
        law_the_server_ends_after_a_signal(before, front, event);
        lemma_one_more_event(front, events.last());
        assert(front.push(events.last()) =~= events);
        assert(phases[events.len() - 1 + 1] == phases[events.len() - 1].after(
            events[events.len() - 1],
        ));
    } else if ended(events) {
        let (i, j) = choose|i: int, j: int| #[trigger] ended_at(events, i, j);
    }
}

} // verus!

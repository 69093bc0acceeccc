//! What holds of a proxy that serves many requests at once.
//!
//! Clones of a proxy are handles to one state. Requests arrive through any of them,
//! and their steps interleave in any order with each other and with replacements of
//! the snapshot.
use vstd::prelude::*;

use crate::laws::{in_bounds, is_last, leads, lemma_step_in_bounds, Event};
use crate::metrics::{counted, Metrics};
use crate::plugin::PluginDecision;
use crate::proxy::{
    admits, replaced, BackendReply, ProxySnapshot, ProxyState, RequestHead, Step,
};

verus! {

/// What a request came to, as far as it is counted.
pub enum Outcome {
    /// A plugin blocked it.
    Blocked,
    /// Its backend could not be reached.
    Unreachable,
    /// Its backend did not answer in time.
    TimedOut,
    /// Something else, or nothing yet.
    Other,
}

/// What a step of a request comes to with an event.
pub open spec fn outcome_of(step: Step, event: Event) -> Outcome {
    match (step, event) {
        (
            Step::Decode(pending),
            Event::Decided(Some(PluginDecision::Block { .. })),
        ) => if pending.pass().stage() is Request {
            Outcome::Blocked
        } else {
            Outcome::Other
        },
        (Step::Forward(_), Event::Replied(BackendReply::Unreachable)) => Outcome::Unreachable,
        (Step::Forward(_), Event::Replied(BackendReply::TimedOut)) => Outcome::TimedOut,
        _ => Outcome::Other,
    }
}

/// A request that has arrived: the snapshot that was active then, how far it is, what
/// it came to.
pub struct Served {
    pub snapshot: ProxySnapshot,
    pub step: Step,
    pub outcome: Outcome,
}

/// A proxy as its handles share it: the state, how many handles there are, the
/// snapshots that were taken and are still held, the requests in order of arrival.
pub struct Shared {
    pub state: ProxyState,
    pub handles: nat,
    pub held: Seq<ProxySnapshot>,
    pub requests: Seq<Served>,
}

/// What can happen to a shared proxy.
pub enum Move<'a> {
    /// A handle is cloned.
    Clone { by: nat },
    /// The active snapshot is taken through a handle.
    Load { by: nat },
    /// The snapshot is replaced through a handle.
    Replace { by: nat, snapshot: ProxySnapshot },
    /// A request arrives through a handle.
    Arrive { by: nat, req: RequestHead<'a> },
    /// A request moves on.
    Advance { request: int, event: Event },
}

impl Shared {
    /// A proxy that has just been made, with one handle.
    pub open spec fn fresh(self) -> bool {
        &&& self.state.metrics == (Metrics {
            requests_total: 0,
            requests_blocked_by_plugin: 0,
            backend_errors_total: 0,
            backend_timeouts_total: 0,
        })
        &&& self.handles == 1
        &&& self.held.len() == 0
        &&& self.requests.len() == 0
    }

    /// What a handle shows: every one shows the state that they share.
    pub open spec fn shows(self, handle: nat) -> ProxyState
        recommends
            handle < self.handles,
    {
        self.state
    }

    /// Whether a move leads to another state of affairs.
    pub open spec fn moves_to(self, mv: Move, after: Shared) -> bool {
        match mv {
            Move::Clone { by } => {
                &&& by < self.handles
                &&& after == (Shared { handles: self.handles + 1, ..self })
            },
            Move::Load { by } => {
                &&& by < self.handles
                &&& after == (Shared { held: self.held.push(*self.shows(by).snapshot), ..self })
            },
            Move::Replace { by, snapshot } => {
                &&& by < self.handles
                &&& replaced(self.shows(by), snapshot, after.state)
                &&& after == (Shared { state: after.state, ..self })
            },
            Move::Arrive { by, req } => {
                let served = after.requests.last();
                &&& by < self.handles
                &&& admits(self.shows(by), req, after.state, served.step)
                &&& served.snapshot == *self.shows(by).snapshot
                &&& served.outcome == Outcome::Other
                &&& after == (Shared {
                    state: after.state,
                    requests: self.requests.push(served),
                    ..self
                })
            },
            Move::Advance { request, event } => {
                let before = self.requests[request];
                let served = after.requests[request];
                &&& 0 <= request < self.requests.len()
                &&& leads(
                    before.step,
                    event,
                    self.state.metrics,
                    after.state.metrics,
                    served.step,
                )
                &&& after.state.snapshot == self.state.snapshot
                &&& served.snapshot == before.snapshot
                &&& served.outcome == outcome_of(before.step, event)
                &&& after == (Shared {
                    state: after.state,
                    requests: self.requests.update(request, served),
                    ..self
                })
            },
        }
    }
}

/// The course of a shared proxy: what happened, and how things stood before and after.
pub struct History<'a> {
    pub states: Seq<Shared>,
    pub moves: Seq<Move<'a>>,
}

impl<'a> History<'a> {
    /// Whether a proxy that was just made can have this history.
    pub open spec fn possible(self) -> bool {
        &&& self.states.len() == self.moves.len() + 1
        &&& self.states[0].fresh()
        &&& forall|i: int|
            0 <= i < self.moves.len() ==> self.states[i].moves_to(
                #[trigger] self.moves[i],
                self.states[i + 1],
            )
    }
}

// ---------------------------------------------------------------------------
// Counters
// ---------------------------------------------------------------------------
/// How many requests came to an outcome.
pub open spec fn how_many(requests: Seq<Served>, outcome: Outcome) -> nat
    decreases requests.len(),
{
    if requests.len() == 0 {
        0
    } else {
        how_many(requests.drop_last(), outcome) + if requests.last().outcome == outcome {
            1nat
        } else {
            0nat
        }
    }
}

/// A number as a counter shows it, which wraps around at 64 bits.
pub open spec fn shown(n: nat) -> u64 {
    (n % 0x1_0000_0000_0000_0000) as u64
}

/// The counters that some requests account for.
pub open spec fn tally(requests: Seq<Served>) -> Metrics {
    Metrics {
        requests_total: shown(requests.len()),
        requests_blocked_by_plugin: shown(how_many(requests, Outcome::Blocked)),
        backend_errors_total: shown(how_many(requests, Outcome::Unreachable)),
        backend_timeouts_total: shown(how_many(requests, Outcome::TimedOut)),
    }
}

/// A counter counts on.
proof fn lemma_counted(n: nat)
    ensures
        counted(shown(n)) == shown(n + 1),
{
    let m: nat = 0x1_0000_0000_0000_0000;
    let r = n % m;
    assert(n == m * (n / m) + r) by (nonlinear_arith)
        requires
            r == n % m,
            m == 0x1_0000_0000_0000_0000,
    ;
    if r + 1 < m {
        assert((n + 1) % m == r + 1) by (nonlinear_arith)
            requires
                n == m * (n / m) + r,
                0 <= r,
                r + 1 < m,
        ;
    } else {
        assert((n + 1) % m == 0) by (nonlinear_arith)
            requires
                n == m * (n / m) + r,
                r + 1 == m,
                m > 0,
        ;
    }
}

/// One more request.
proof fn lemma_how_many_push(requests: Seq<Served>, served: Served, outcome: Outcome)
    ensures
        how_many(requests.push(served), outcome) == how_many(requests, outcome) + if served.outcome
            == outcome {
            1nat
        } else {
            0nat
        },
{
    assert(requests.push(served).drop_last() =~= requests);
}

/// A request that comes to something else.
proof fn lemma_how_many_update(requests: Seq<Served>, k: int, served: Served, outcome: Outcome)
    requires
        0 <= k < requests.len(),
    ensures
        how_many(requests.update(k, served), outcome) + (if requests[k].outcome == outcome {
            1int
        } else {
            0int
        }) == how_many(requests, outcome) + (if served.outcome == outcome {
            1int
        } else {
            0int
        }),
    decreases requests.len(),
{
    let updated = requests.update(k, served);
    if k == requests.len() - 1 {
        assert(updated.drop_last() =~= requests.drop_last());
    } else {
        assert(updated.drop_last() =~= requests.drop_last().update(k, served));
        lemma_how_many_update(requests.drop_last(), k, served, outcome);
    }
}

/// No request is counted under two outcomes.
proof fn lemma_how_many_sum(requests: Seq<Served>)
    ensures
        how_many(requests, Outcome::Blocked) + how_many(requests, Outcome::Unreachable) + how_many(
            requests,
            Outcome::TimedOut,
        ) <= requests.len(),
    decreases requests.len(),
{
    if requests.len() > 0 {
        lemma_how_many_sum(requests.drop_last());
    }
}

/// What a step does to the counters is what its outcome says.
proof fn lemma_outcome_counts(
    step: Step,
    event: Event,
    before: Metrics,
    after: Metrics,
    next: Step,
)
    requires
        leads(step, event, before, after, next),
    ensures
        !is_last(step),
        match outcome_of(step, event) {
            Outcome::Blocked => after == before.with_block() && next is Respond,
            Outcome::Unreachable => after == before.with_backend_error() && next is Respond,
            Outcome::TimedOut => after == before.with_backend_timeout() && next is Respond,
            Outcome::Other => after == before,
        },
{
}

/// Whether the counters account for the requests, and what is counted has been
/// answered.
pub open spec fn adds_up(shared: Shared) -> bool {
    &&& shared.state.metrics == tally(shared.requests)
    &&& forall|k: int|
        0 <= k < shared.requests.len() && (#[trigger] shared.requests[k]).outcome != Outcome::Other
            ==> is_last(shared.requests[k].step)
}

/// One move keeps the counters right.
proof fn lemma_move_adds_up(before: Shared, mv: Move, after: Shared)
    requires
        before.moves_to(mv, after),
        adds_up(before),
    ensures
        adds_up(after),
{
    let requests = before.requests;
    match mv {
        Move::Arrive { by, req } => {
            let served = after.requests.last();
            lemma_how_many_push(requests, served, Outcome::Blocked);
            lemma_how_many_push(requests, served, Outcome::Unreachable);
            lemma_how_many_push(requests, served, Outcome::TimedOut);
            lemma_counted(requests.len());
            assert forall|k: int|
                0 <= k < after.requests.len() && (#[trigger] after.requests[k]).outcome
                    != Outcome::Other implies is_last(after.requests[k].step) by {
                assert(after.requests[k] == requests[k]);
            }
        },
        Move::Advance { request, event } => {
            let served = after.requests[request];
            let old_step = requests[request].step;
            lemma_outcome_counts(
                old_step,
                event,
                before.state.metrics,
                after.state.metrics,
                served.step,
            );
            assert(requests[request].outcome == Outcome::Other);
            lemma_how_many_update(requests, request, served, Outcome::Blocked);
            lemma_how_many_update(requests, request, served, Outcome::Unreachable);
            lemma_how_many_update(requests, request, served, Outcome::TimedOut);
            lemma_counted(how_many(requests, Outcome::Blocked));
            lemma_counted(how_many(requests, Outcome::Unreachable));
            lemma_counted(how_many(requests, Outcome::TimedOut));
            assert forall|k: int|
                0 <= k < after.requests.len() && (#[trigger] after.requests[k]).outcome
                    != Outcome::Other implies is_last(after.requests[k].step) by {
                if k != request {
                    assert(after.requests[k] == requests[k]);
                }
            }
        },
        _ => {},
    }
}

/// The counters add up, whatever requests were served through whatever handles, in
/// whatever order their steps came: they show how many requests arrived and how many
/// of these a plugin blocked, found their backend out of reach, or waited for it in
/// vain. Any other request adds to the first counter alone, and none to two of the
/// other three. The counters are shown in this order, and wrap around at 64 bits.
pub proof fn law_counters_add_up(history: History, i: int)
    requires
        history.possible(),
        0 <= i < history.states.len(),
    ensures
        ({
            let shared = history.states[i];
            let requests = shared.requests;
            let b = how_many(requests, Outcome::Blocked);
            let e = how_many(requests, Outcome::Unreachable);
            let t = how_many(requests, Outcome::TimedOut);
            &&& adds_up(shared)
            &&& b + e + t <= requests.len()
            &&& forall|handle: nat|
                handle < shared.handles ==> (#[trigger] shared.shows(handle)).metrics == (Metrics {
                    requests_total: shown(requests.len()),
                    requests_blocked_by_plugin: shown(b),
                    backend_errors_total: shown(e),
                    backend_timeouts_total: shown(t),
                })
            &&& shared.state.metrics.prometheus() == tally(requests).prometheus()
        }),
    decreases i,
{
    if i > 0 {
        law_counters_add_up(history, i - 1);
        let _ = history.moves[i - 1];
        lemma_move_adds_up(history.states[i - 1], history.moves[i - 1], history.states[i]);
    }
    lemma_how_many_sum(history.states[i].requests);
}

// ---------------------------------------------------------------------------
// Snapshots
// ---------------------------------------------------------------------------
/// Every request is served under the snapshot that was active when it arrived.
pub proof fn law_requests_keep_their_snapshot(history: History, i: int, k: int)
    requires
        history.possible(),
        0 <= i < history.states.len(),
        0 <= k < history.states[i].requests.len(),
    ensures
        in_bounds(
            history.states[i].requests[k].step,
            history.states[i].requests[k].snapshot,
            false,
        ),
    decreases i,
{
    if i > 0 {
        let before = history.states[i - 1];
        let after = history.states[i];
        let mv = history.moves[i - 1];
        assert(before.moves_to(mv, after));
        if k < before.requests.len() {
            law_requests_keep_their_snapshot(history, i - 1, k);
        }
        if let Move::Advance { request, event } = mv {
            if request == k {
                lemma_step_in_bounds(
                    before.requests[k].step,
                    event,
                    before.state.metrics,
                    after.state.metrics,
                    after.requests[k].step,
                    before.requests[k].snapshot,
                    false,
                );
            }
        }
    }
}

/// A replaced snapshot is seen whole, and by all: until the next replacement, every
/// handle, cloned before or after, shows the new configuration with the new plugins,
/// and every request that arrives is served under both. Snapshots that were taken
/// before stay as they were, requests that arrived before keep theirs, and the
/// counters are untouched.
pub proof fn law_a_replacement_is_seen_by_all(
    history: History,
    i: int,
    j: int,
    by: nat,
    new_snapshot: ProxySnapshot,
)
    requires
        history.possible(),
        0 <= i < j < history.states.len(),
        history.moves[i] == (Move::Replace { by, snapshot: new_snapshot }),
        forall|k: int| i < k < j ==> !(#[trigger] history.moves[k] is Replace),
    ensures
        ({
            let before = history.states[i];
            let later = history.states[j];
            &&& history.states[i + 1].state.metrics == before.state.metrics
            &&& forall|handle: nat|
                handle < later.handles ==> *(#[trigger] later.shows(handle)).snapshot
                    == new_snapshot
            &&& before.handles <= later.handles
            &&& before.held.len() <= later.held.len()
            &&& forall|g: int|
                0 <= g < later.held.len() ==> #[trigger] later.held[g] == (if g < before.held.len() {
                    before.held[g]
                } else {
                    new_snapshot
                })
            &&& before.requests.len() <= later.requests.len()
            &&& forall|k: int|
                0 <= k < later.requests.len() ==> (#[trigger] later.requests[k]).snapshot == (if k
                    < before.requests.len() {
                    before.requests[k].snapshot
                } else {
                    new_snapshot
                })
        }),
    decreases j,
{
    let before = history.states[i];
    let last = history.states[j - 1];
    let later = history.states[j];
    assert(before.moves_to(history.moves[i], history.states[i + 1]));
    if j > i + 1 {
        law_a_replacement_is_seen_by_all(history, i, j - 1, by, new_snapshot);
        let mv = history.moves[j - 1];
        assert(last.moves_to(mv, later));
        assert(*last.shows(0).snapshot == new_snapshot) by {
            lemma_a_handle_stays(history, j - 1);
        }
        assert forall|k: int| 0 <= k < later.requests.len() implies (
        #[trigger] later.requests[k]).snapshot == (if k < before.requests.len() {
            before.requests[k].snapshot
        } else {
            new_snapshot
        }) by {
            if k < last.requests.len() {
                assert(later.requests[k].snapshot == last.requests[k].snapshot);
            }
        }
        assert forall|g: int| 0 <= g < later.held.len() implies #[trigger] later.held[g] == (if g
            < before.held.len() {
            before.held[g]
        } else {
            new_snapshot
        }) by {
            if g < last.held.len() {
                assert(later.held[g] == last.held[g]);
            }
        }
    }
}

/// There is always a handle.
proof fn lemma_a_handle_stays(history: History, i: int)
    requires
        history.possible(),
        0 <= i < history.states.len(),
    ensures
        history.states[i].handles > 0,
    decreases i,
{
    if i > 0 {
        lemma_a_handle_stays(history, i - 1);
        assert(history.states[i - 1].moves_to(history.moves[i - 1], history.states[i]));
    }
}

} // verus!

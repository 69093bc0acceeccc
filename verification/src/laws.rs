//! What holds of a request from its arrival to its answer.
use vstd::prelude::*;
use vstd::utf8::*;

use crate::config::first_match;
use crate::headers::{
    header_count, header_name, header_values, is_header_value, with_headers, SAFE_HEADER_COUNT,
};
use crate::metrics::Metrics;
use crate::plugin::{Plugin, PluginDecision};
use crate::proxy::{
    decides, ends, is_request_input, is_response_input, may_all_pass, merged, option_text, reads,
    replies, runs_to, skips_to, takes_in, takes_turn, target_uri, BackendReply, Forwarding,
    HookPass, Passed, PendingDecision, ProxyResponse, ProxySnapshot, Reading, RequestHead, Stage,
    Step,
};
use crate::string_map::{pairs_map, StringMap};

verus! {

// ---------------------------------------------------------------------------
// Runs
// ---------------------------------------------------------------------------
/// What happens between two steps of a request.
pub enum Event {
    /// The plugins ran.
    Ran,
    /// A plugin's reply was decoded.
    Decided(Option<PluginDecision>),
    /// The backend was asked.
    Replied(BackendReply),
    /// The body was read.
    BodyRead(Option<Vec<u8>>),
}

/// Whether an event can lead from one step to the next, with the counters as
/// this request changes them.
pub open spec fn leads(
    step: Step,
    event: Event,
    before: Metrics,
    after: Metrics,
    next: Step,
) -> bool {
    match (step, event) {
        (Step::RunHooks(pass), Event::Ran) => after == before && runs_to(pass, next),
        (Step::Decode(pending), Event::Decided(decision)) => decides(
            pending,
            decision,
            before,
            after,
            next,
        ),
        (Step::Forward(forwarding), Event::Replied(reply)) => replies(
            forwarding,
            reply,
            before,
            after,
            next,
        ),
        (Step::ReadBody(reading), Event::BodyRead(body)) => after == before && reads(
            reading,
            body,
            next,
        ),
        _ => false,
    }
}

/// The course of one request: its steps, the events between them, and the
/// counters at each step.
pub struct Course {
    pub steps: Seq<Step>,
    pub events: Seq<Event>,
    pub metrics: Seq<Metrics>,
}

impl Course {
    /// Whether the course is one that a request can take under a snapshot.
    pub open spec fn possible(self, snapshot: ProxySnapshot, req: RequestHead) -> bool {
        &&& self.steps.len() > 0
        &&& self.events.len() == self.steps.len() - 1
        &&& self.metrics.len() == self.steps.len()
        &&& takes_in(snapshot, self.metrics[0], req, self.steps[0])
        &&& forall|i: int|
            0 <= i < self.events.len() ==> leads(
                self.steps[i],
                #[trigger] self.events[i],
                self.metrics[i],
                self.metrics[i + 1],
                self.steps[i + 1],
            )
    }

    /// Whether backends answered with status codes.
    pub open spec fn backends_are_sound(self) -> bool {
        forall|i: int|
            0 <= i < self.events.len() ==> (#[trigger] self.events[i] matches Event::Replied(
                BackendReply::Answered { status, .. },
            ) ==> 100 <= status <= 999)
    }
}

/// Whether a step is the last of a request.
pub open spec fn is_last(step: Step) -> bool {
    step is Respond || step is HeaderOverflow
}

/// Whether a pass is under a snapshot, and about a response only if that is
/// within the limits.
pub open spec fn pass_in_bounds(pass: HookPass, snapshot: ProxySnapshot, sound: bool) -> bool {
    &&& pass.snapshot() == snapshot
    &&& pass.stage() matches Stage::Response { status, body, .. } ==> {
        &&& body@.len() <= snapshot.config.max_body_bytes
        &&& sound ==> 100 <= status <= 999
    }
}

/// Whether a step is under a snapshot and within the limits. `sound` says that
/// backends answer with status codes.
pub open spec fn in_bounds(step: Step, snapshot: ProxySnapshot, sound: bool) -> bool {
    match step {
        Step::Respond(r) => {
            &&& r.relayed ==> r.body@.len() <= snapshot.config.max_body_bytes
            &&& sound ==> 100 <= r.status <= 999
        },
        Step::RunHooks(pass) => pass_in_bounds(pass, snapshot, sound),
        Step::Decode(pending) => pass_in_bounds(pending.pass(), snapshot, sound),
        Step::Forward(forwarding) => forwarding.snapshot() == snapshot,
        Step::ReadBody(reading) => {
            &&& reading.snapshot() == snapshot
            &&& sound ==> 100 <= reading.status() <= 999
        },
        Step::HeaderOverflow => true,
    }
}

/// One step keeps to the snapshot and the limits.
pub(crate) proof fn lemma_step_in_bounds(
    step: Step,
    event: Event,
    before: Metrics,
    after: Metrics,
    next: Step,
    snapshot: ProxySnapshot,
    sound: bool,
)
    requires
        leads(step, event, before, after, next),
        in_bounds(step, snapshot, sound),
        sound ==> (event matches Event::Replied(BackendReply::Answered { status, .. }) ==> 100
            <= status <= 999),
    ensures
        in_bounds(next, snapshot, sound),
        after == before || (next is Respond && (after == before.with_block() || after
            == before.with_backend_error() || after == before.with_backend_timeout())),
{
    match (step, event) {
        (Step::RunHooks(pass), Event::Ran) => {
            let later = choose|later: HookPass| #[trigger]
                skips_to(pass, later) && takes_turn(later, next);
            assert(later.same_subject(pass));
        },
        _ => {},
    }
}

/// A request is served to its end under the snapshot that it began with; a
/// response of a backend that is carried along or passed on is within the size
/// limit; and, where backends answer with status codes, so does the proxy.
pub proof fn law_one_snapshot_per_request(
    course: Course,
    snapshot: ProxySnapshot,
    req: RequestHead,
    i: int,
)
    requires
        course.possible(snapshot, req),
        0 <= i < course.steps.len(),
    ensures
        in_bounds(course.steps[i], snapshot, course.backends_are_sound()),
    decreases i,
{
    if i > 0 {
        law_one_snapshot_per_request(course, snapshot, req, i - 1);
        let _ = course.events[i - 1];
        lemma_step_in_bounds(
            course.steps[i - 1],
            course.events[i - 1],
            course.metrics[i - 1],
            course.metrics[i],
            course.steps[i],
            snapshot,
            course.backends_are_sound(),
        );
    }
}

/// A request is counted once when it is taken in. After that it touches the
/// counters at most once, and only with its answer: as blocked by a plugin, as
/// a failure of the backend or as a timeout.
pub proof fn law_a_request_counts_once(
    course: Course,
    snapshot: ProxySnapshot,
    req: RequestHead,
    i: int,
)
    requires
        course.possible(snapshot, req),
        0 <= i < course.steps.len(),
    ensures
        !is_last(course.steps[i]) ==> course.metrics[i] == course.metrics[0],
        ({
            let first = course.metrics[0];
            let now = course.metrics[i];
            ||| now == first
            ||| now == first.with_block()
            ||| now == first.with_backend_error()
            ||| now == first.with_backend_timeout()
        }),
    decreases i,
{
    if i > 0 {
        law_a_request_counts_once(course, snapshot, req, i - 1);
        law_one_snapshot_per_request(course, snapshot, req, i - 1);
        let _ = course.events[i - 1];
        lemma_step_in_bounds(
            course.steps[i - 1],
            course.events[i - 1],
            course.metrics[i - 1],
            course.metrics[i],
            course.steps[i],
            snapshot,
            course.backends_are_sound(),
        );
    }
}

/// Nothing follows an answer.
pub proof fn law_an_answer_is_final(
    course: Course,
    snapshot: ProxySnapshot,
    req: RequestHead,
    i: int,
)
    requires
        course.possible(snapshot, req),
        0 <= i < course.steps.len(),
        is_last(course.steps[i]),
    ensures
        i == course.steps.len() - 1,
{
    if i < course.steps.len() - 1 {
        let _ = course.events[i];
        assert(leads(
            course.steps[i],
            course.events[i],
            course.metrics[i],
            course.metrics[i + 1],
            course.steps[i + 1],
        ));
    }
}

/// How far a request is: with the plugins, at the backend, at the backend's body,
/// with the plugins again, answered.
pub open spec fn progress(step: Step) -> int {
    match step {
        Step::RunHooks(pass) => if pass.stage() is Request {
            0
        } else {
            3
        },
        Step::Decode(pending) => if pending.pass().stage() is Request {
            0
        } else {
            3
        },
        Step::Forward(_) => 1,
        Step::ReadBody(_) => 2,
        Step::Respond(_) | Step::HeaderOverflow => 4,
    }
}

/// A step does not set a request back, and only the plugins take several steps.
proof fn lemma_progress(step: Step, event: Event, before: Metrics, after: Metrics, next: Step)
    requires
        leads(step, event, before, after, next),
    ensures
        progress(step) <= progress(next),
        progress(step) == progress(next) ==> progress(step) == 0 || progress(step) == 3,
{
    match (step, event) {
        (Step::RunHooks(pass), Event::Ran) => {
            let later = choose|later: HookPass| #[trigger]
                skips_to(pass, later) && takes_turn(later, next);
            assert(later.same_subject(pass));
        },
        _ => {},
    }
}

/// A request moves on through its stages and never back.
pub proof fn law_no_step_back(
    course: Course,
    snapshot: ProxySnapshot,
    req: RequestHead,
    i: int,
    j: int,
)
    requires
        course.possible(snapshot, req),
        0 <= i <= j < course.steps.len(),
    ensures
        progress(course.steps[i]) <= progress(course.steps[j]),
        i < j && progress(course.steps[i]) == progress(course.steps[j]) ==> progress(
            course.steps[i],
        ) == 0 || progress(course.steps[i]) == 3,
    decreases j - i,
{
    if i < j {
        law_no_step_back(course, snapshot, req, i, j - 1);
        let _ = course.events[j - 1];
        lemma_progress(
            course.steps[j - 1],
            course.events[j - 1],
            course.metrics[j - 1],
            course.metrics[j],
            course.steps[j],
        );
    }
}

/// A backend is asked at most once for a request.
pub proof fn law_one_backend_call(
    course: Course,
    snapshot: ProxySnapshot,
    req: RequestHead,
    i: int,
    j: int,
)
    requires
        course.possible(snapshot, req),
        0 <= i < course.steps.len(),
        0 <= j < course.steps.len(),
        course.steps[i] is Forward,
        course.steps[j] is Forward,
    ensures
        i == j,
{
    if i < j {
        law_no_step_back(course, snapshot, req, i, j);
    } else if j < i {
        law_no_step_back(course, snapshot, req, j, i);
    }
}

// ---------------------------------------------------------------------------
// Plugins
// ---------------------------------------------------------------------------
/// Whether every plugin can have let an input pass, in the order of the
/// configuration, so that these headers are to be added: a plugin lacks the hook,
/// or its reply was decoded as leave to go on. A later plugin decides over an
/// earlier one and over `base`.
pub open spec fn cleared(
    plugins: Seq<Plugin>,
    hook: Seq<char>,
    input: Seq<u8>,
    base: Map<Seq<char>, Seq<char>>,
    added: Map<Seq<char>, Seq<char>>,
) -> bool {
    exists|passed: Seq<Passed>|
        {
            &&& passed.len() == plugins.len()
            &&& #[trigger] may_all_pass(plugins, hook, input, passed)
            &&& added == merged(base, passed)
        }
}

/// Whether every plugin can have let a request pass, with these headers to add.
pub open spec fn request_cleared(
    snapshot: ProxySnapshot,
    req: RequestHead,
    added: Map<Seq<char>, Seq<char>>,
) -> bool {
    exists|input: Seq<u8>|
        {
            &&& #[trigger] is_request_input(input, req.method@, req.path@, *req.headers)
            &&& cleared(snapshot.plugins@, "filter_request"@, input, Map::empty(), added)
        }
}

/// The URI that a request is meant for: at the backend of the first route that
/// matches.
pub open spec fn destination(snapshot: ProxySnapshot, req: RequestHead) -> Option<Seq<char>> {
    match first_match(snapshot.config.routes@, req.path@) {
        Some(i) => Some(
            target_uri(snapshot.config.routes@[i].backend@, option_text(req.path_and_query)),
        ),
        None => None,
    }
}

impl Course {
    /// Whether a backend has answered so by a step.
    pub open spec fn answered_before(self, i: int, status: u16, headers: hyper::HeaderMap) -> bool {
        exists|j: int|
            0 <= j < i && #[trigger] self.events[j] == Event::Replied(
                BackendReply::Answered { status, headers },
            )
    }

    /// Whether a body has been read by a step.
    pub open spec fn read_before(self, i: int, body: Vec<u8>) -> bool {
        exists|j: int| 0 <= j < i && #[trigger] self.events[j] == Event::BodyRead(Some(body))
    }

    /// Whether a pass by a step is about this request, or about the response to
    /// it, which every plugin let go out.
    pub open spec fn knows_pass(
        self,
        i: int,
        snapshot: ProxySnapshot,
        req: RequestHead,
        pass: HookPass,
    ) -> bool {
        &&& pass.valid()
        &&& pass.snapshot() == snapshot
        &&& match pass.stage() {
            Stage::Request { backend, path_and_query } => {
                &&& destination(snapshot, req) == Some(
                    target_uri(backend@, option_text(path_and_query)),
                )
                &&& is_request_input(pass.input(), req.method@, req.path@, *req.headers)
                &&& pass.base() == Map::<Seq<char>, Seq<char>>::empty()
            },
            Stage::Response { status, headers, body } => {
                &&& self.answered_before(i, status, headers)
                &&& self.read_before(i, body)
                &&& is_response_input(pass.input(), status, headers)
                &&& request_cleared(snapshot, req, pass.base())
            },
        }
    }

    /// Whether a response passes on what a backend has answered by a step, after
    /// every plugin let the request and the response pass; `added` are the headers
    /// that they added, `carried` those added to the request.
    pub open spec fn relays(
        self,
        i: int,
        snapshot: ProxySnapshot,
        req: RequestHead,
        response: ProxyResponse,
        headers: hyper::HeaderMap,
        input: Seq<u8>,
        carried: Map<Seq<char>, Seq<char>>,
        added: StringMap,
    ) -> bool {
        &&& self.answered_before(i, response.status, headers)
        &&& self.read_before(i, response.body)
        &&& request_cleared(snapshot, req, carried)
        &&& is_response_input(input, response.status, headers)
        &&& cleared(snapshot.plugins@, "filter_response"@, input, carried, added@)
        &&& header_values(response.headers) == with_headers(header_values(headers), added.pairs())
    }

    /// Whether a step is where the plugins let it come.
    pub open spec fn knows(self, i: int, snapshot: ProxySnapshot, req: RequestHead) -> bool {
        match self.steps[i] {
            Step::RunHooks(pass) => self.knows_pass(i, snapshot, req, pass),
            Step::Decode(pending) => {
                &&& self.knows_pass(i, snapshot, req, pending.pass())
                &&& pending.pass().passed().len() < snapshot.plugins@.len()
            },
            Step::Forward(forwarding) => {
                &&& destination(snapshot, req) == Some(forwarding.uri())
                &&& request_cleared(snapshot, req, forwarding.added()@)
            },
            Step::ReadBody(reading) => {
                &&& self.answered_before(i, reading.status(), reading.headers())
                &&& request_cleared(snapshot, req, reading.added()@)
            },
            Step::Respond(response) => response.relayed ==> exists|
                headers: hyper::HeaderMap,
                input: Seq<u8>,
                carried: Map<Seq<char>, Seq<char>>,
                added: StringMap,
            | #[trigger]
                self.relays(i, snapshot, req, response, headers, input, carried, added),
            Step::HeaderOverflow => true,
        }
    }
}

/// A pass that ends has cleared every plugin.
proof fn lemma_pass_clears(pass: HookPass)
    requires
        pass.valid(),
        pass.passed().len() == pass.snapshot().plugins@.len(),
    ensures
        cleared(
            pass.snapshot().plugins@,
            pass.stage().hook(),
            pass.input(),
            pass.base(),
            pass.added()@,
        ),
{
    pass.lemma_valid();
    assert(may_all_pass(
        pass.snapshot().plugins@,
        pass.stage().hook(),
        pass.input(),
        pass.passed(),
    ));
}

/// What a later step knows of the backend includes what an earlier one knew.
proof fn lemma_knowledge_lasts(
    course: Course,
    i: int,
    status: u16,
    headers: hyper::HeaderMap,
    body: Vec<u8>,
)
    requires
        0 <= i,
    ensures
        course.answered_before(i, status, headers) ==> course.answered_before(
            i + 1,
            status,
            headers,
        ),
        course.read_before(i, body) ==> course.read_before(i + 1, body),
{
    if course.answered_before(i, status, headers) {
        let j = choose|j: int|
            0 <= j < i && #[trigger] course.events[j] == Event::Replied(
                BackendReply::Answered { status, headers },
            );
        assert(0 <= j < i + 1);
    }
    if course.read_before(i, body) {
        let j = choose|j: int|
            0 <= j < i && #[trigger] course.events[j] == Event::BodyRead(Some(body));
        assert(0 <= j < i + 1);
    }
}

/// Running the plugins keeps what is known.
proof fn lemma_run_is_known(
    course: Course,
    i: int,
    snapshot: ProxySnapshot,
    req: RequestHead,
    pass: HookPass,
)
    requires
        0 <= i,
        course.steps[i] == Step::RunHooks(pass),
        course.knows(i, snapshot, req),
        runs_to(pass, course.steps[i + 1]),
    ensures
        course.knows(i + 1, snapshot, req),
{
    let next = course.steps[i + 1];
    let later = choose|later: HookPass| #[trigger]
        skips_to(pass, later) && takes_turn(later, next);
    later.lemma_valid();
    if let Stage::Response { status, headers, body } = pass.stage() {
        lemma_knowledge_lasts(course, i, status, headers, body);
    }
    assert(course.knows_pass(i + 1, snapshot, req, later));
    if later.passed().len() == snapshot.plugins@.len() {
        lemma_pass_clears(later);
        if let Stage::Response { status, headers, body } = pass.stage() {
            if let Step::Respond(response) = next {
                assert(course.relays(
                    i + 1,
                    snapshot,
                    req,
                    response,
                    headers,
                    later.input(),
                    later.base(),
                    later.added(),
                ));
            }
        }
    }
}

/// A decision keeps what is known.
proof fn lemma_decision_is_known(
    course: Course,
    i: int,
    snapshot: ProxySnapshot,
    req: RequestHead,
    pending: PendingDecision,
    decision: Option<PluginDecision>,
    before: Metrics,
    after: Metrics,
)
    requires
        0 <= i,
        course.steps[i] == Step::Decode(pending),
        course.knows(i, snapshot, req),
        decides(pending, decision, before, after, course.steps[i + 1]),
    ensures
        course.knows(i + 1, snapshot, req),
{
    let pass = pending.pass();
    if let Stage::Response { status, headers, body } = pass.stage() {
        lemma_knowledge_lasts(course, i, status, headers, body);
    }
    if let Step::RunHooks(next) = course.steps[i + 1] {
        assert(next.same_subject(pass));
        assert(course.knows_pass(i + 1, snapshot, req, next));
    }
}

/// A backend's answer keeps what is known.
proof fn lemma_reply_is_known(
    course: Course,
    i: int,
    snapshot: ProxySnapshot,
    req: RequestHead,
    forwarding: Forwarding,
    reply: BackendReply,
    before: Metrics,
    after: Metrics,
)
    requires
        0 <= i,
        course.steps[i] == Step::Forward(forwarding),
        course.events[i] == Event::Replied(reply),
        course.knows(i, snapshot, req),
        replies(forwarding, reply, before, after, course.steps[i + 1]),
    ensures
        course.knows(i + 1, snapshot, req),
{
    if let Step::ReadBody(reading) = course.steps[i + 1] {
        assert(course.events[i] == Event::Replied(
            BackendReply::Answered { status: reading.status(), headers: reading.headers() },
        ));
        assert(course.answered_before(i + 1, reading.status(), reading.headers()));
    }
}

/// A body that has been read keeps what is known.
proof fn lemma_body_is_known(
    course: Course,
    i: int,
    snapshot: ProxySnapshot,
    req: RequestHead,
    reading: Reading,
    body: Option<Vec<u8>>,
)
    requires
        0 <= i,
        course.steps[i] == Step::ReadBody(reading),
        course.events[i] == Event::BodyRead(body),
        course.knows(i, snapshot, req),
        in_bounds(course.steps[i], snapshot, false),
        reads(reading, body, course.steps[i + 1]),
    ensures
        course.knows(i + 1, snapshot, req),
{
    if let Step::RunHooks(pass) = course.steps[i + 1] {
        let bytes = body->0;
        assert(course.events[i] == Event::BodyRead(Some(bytes)));
        assert(course.read_before(i + 1, bytes));
        lemma_knowledge_lasts(course, i, reading.status(), reading.headers(), bytes);
        assert(course.knows_pass(i + 1, snapshot, req, pass));
    }
}

/// What is known of a request that has been taken in.
proof fn lemma_start_is_known(course: Course, snapshot: ProxySnapshot, req: RequestHead)
    requires
        takes_in(snapshot, course.metrics[0], req, course.steps[0]),
    ensures
        course.knows(0, snapshot, req),
{
    if let Step::RunHooks(pass) = course.steps[0] {
        assert(course.knows_pass(0, snapshot, req, pass));
    }
}

/// The backend is asked only if every plugin let the request pass, at the URI that
/// the routes give. A response is passed on only if it is the one that the backend
/// gave and every plugin let it pass too; it then has the headers that plugins
/// added to it, and keeps its status and its body.
pub proof fn law_every_plugin_is_heard(
    course: Course,
    snapshot: ProxySnapshot,
    req: RequestHead,
    i: int,
)
    requires
        course.possible(snapshot, req),
        0 <= i < course.steps.len(),
    ensures
        course.knows(i, snapshot, req),
    decreases i,
{
    if i == 0 {
        lemma_start_is_known(course, snapshot, req);
    } else {
        law_every_plugin_is_heard(course, snapshot, req, i - 1);
        law_one_snapshot_per_request(course, snapshot, req, i - 1);
        let event = course.events[i - 1];
        let before = course.metrics[i - 1];
        let after = course.metrics[i];
        assert(leads(course.steps[i - 1], event, before, after, course.steps[i]));
        match (course.steps[i - 1], event) {
            (Step::RunHooks(pass), Event::Ran) => {
                lemma_run_is_known(course, i - 1, snapshot, req, pass);
            },
            (Step::Decode(pending), Event::Decided(decision)) => {
                lemma_decision_is_known(
                    course,
                    i - 1,
                    snapshot,
                    req,
                    pending,
                    decision,
                    before,
                    after,
                );
            },
            (Step::Forward(forwarding), Event::Replied(reply)) => {
                lemma_reply_is_known(
                    course,
                    i - 1,
                    snapshot,
                    req,
                    forwarding,
                    reply,
                    before,
                    after,
                );
            },
            (Step::ReadBody(reading), Event::BodyRead(body)) => {
                lemma_body_is_known(course, i - 1, snapshot, req, reading, body);
            },
            _ => {
                assert(false);
            },
        }
    }
}

/// How many more steps a request can take, under a snapshot of `n` plugins.
pub open spec fn steps_left(step: Step, n: int) -> int {
    match step {
        Step::RunHooks(pass) => 2 * (n - pass.passed().len()) + if pass.stage() is Request {
            2 * n + 4
        } else {
            1
        },
        Step::Decode(pending) => {
            let pass = pending.pass();
            2 * (n - pass.passed().len()) + if pass.stage() is Request {
                2 * n + 3
            } else {
                0
            }
        },
        Step::Forward(_) => 2 * n + 3,
        Step::ReadBody(_) => 2 * n + 2,
        Step::Respond(_) | Step::HeaderOverflow => 0,
    }
}

/// Every request comes to its end: after `i` steps, a bounded number is left.
pub proof fn law_every_request_ends(
    course: Course,
    snapshot: ProxySnapshot,
    req: RequestHead,
    i: int,
)
    requires
        course.possible(snapshot, req),
        0 <= i < course.steps.len(),
    ensures
        0 <= steps_left(course.steps[i], snapshot.plugins@.len() as int),
        i + steps_left(course.steps[i], snapshot.plugins@.len() as int) <= 4
            * snapshot.plugins@.len() + 4,
    decreases i,
{
    let n = snapshot.plugins@.len() as int;
    law_every_plugin_is_heard(course, snapshot, req, i);
    match course.steps[i] {
        Step::RunHooks(pass) => {
            pass.lemma_valid();
        },
        _ => {},
    }
    if i > 0 {
        law_every_request_ends(course, snapshot, req, i - 1);
        law_every_plugin_is_heard(course, snapshot, req, i - 1);
        let event = course.events[i - 1];
        assert(leads(
            course.steps[i - 1],
            event,
            course.metrics[i - 1],
            course.metrics[i],
            course.steps[i],
        ));
        match (course.steps[i - 1], event) {
            (Step::RunHooks(pass), Event::Ran) => {
                let later = choose|later: HookPass| #[trigger]
                    skips_to(pass, later) && takes_turn(later, course.steps[i]);
                later.lemma_valid();
                assert(later.passed().len() >= pass.passed().len());
            },
            _ => {},
        }
    }
}

/// A response that every plugin let pass is passed on, as long as its headers and the
/// added ones are no more than a header map is sure to hold.
pub proof fn law_few_headers_are_relayed(pass: HookPass, step: Step)
    requires
        pass.valid(),
        ends(pass, step),
        pass.stage() matches Stage::Response { headers, .. } && header_count(headers)
            + pass.added()@.dom().len() <= SAFE_HEADER_COUNT,
    ensures
        step matches Step::Respond(r) && r.relayed,
{
    pass.lemma_valid();
}

/// A plugin that blocks a request ends it: the backend is not asked, no other
/// plugin runs, and the client gets the plugin's body.
pub proof fn law_a_block_is_the_answer(
    pending: PendingDecision,
    status: u16,
    body: String,
    before: Metrics,
    after: Metrics,
    step: Step,
)
    requires
        decides(
            pending,
            Some(PluginDecision::Block { status, body }),
            before,
            after,
            step,
        ),
    ensures
        step matches Step::Respond(r) && r.body@ == encode_utf8(body@),
        100 <= status <= 999 ==> (step matches Step::Respond(r) && r.status == status),
{
}

/// An empty map has no pairs.
proof fn lemma_empty_map_no_pairs(pairs: Seq<(Seq<char>, Seq<char>)>)
    requires
        pairs_map(pairs) == Map::<Seq<char>, Seq<char>>::empty(),
    ensures
        pairs.len() == 0,
{
    if pairs.len() > 0 {
        assert(pairs_map(pairs).dom().contains(pairs.last().0));
    }
}

/// Without plugins, running them leads straight to the end of the pass.
proof fn lemma_no_plugins(pass: HookPass, step: Step)
    requires
        pass.valid(),
        pass.snapshot().plugins@.len() == 0,
        runs_to(pass, step),
    ensures
        ends(pass, step),
{
    let later = choose|later: HookPass| #[trigger]
        skips_to(pass, later) && takes_turn(later, step);
    later.lemma_valid();
    pass.lemma_valid();
}

/// Without plugins the proxy is transparent: a request goes to the backend of
/// the first route that matches, with its path and query, and the client gets
/// the backend's status, headers and body.
pub proof fn law_transparent_without_plugins(
    snapshot: ProxySnapshot,
    metrics: Metrics,
    req: RequestHead,
    out_pass: HookPass,
    forwarding: Forwarding,
    status: u16,
    headers: hyper::HeaderMap,
    before: Metrics,
    after: Metrics,
    reading: Reading,
    body: Vec<u8>,
    back_pass: HookPass,
    last: Step,
)
    requires
        snapshot.plugins@.len() == 0,
        takes_in(snapshot, metrics, req, Step::RunHooks(out_pass)),
        runs_to(out_pass, Step::Forward(forwarding)),
        replies(
            forwarding,
            BackendReply::Answered { status, headers },
            before,
            after,
            Step::ReadBody(reading),
        ),
        reads(reading, Some(body), Step::RunHooks(back_pass)),
        runs_to(back_pass, last),
    ensures
        first_match(snapshot.config.routes@, req.path@) matches Some(i) && forwarding.uri()
            == target_uri(
            snapshot.config.routes@[i].backend@,
            option_text(req.path_and_query),
        ),
        last matches Step::Respond(r) && r.status == status && r.body == body && header_values(
            r.headers,
        ) == header_values(headers),
{
    lemma_no_plugins(out_pass, Step::Forward(forwarding));
    lemma_empty_map_no_pairs(out_pass.added().pairs());
    lemma_no_plugins(back_pass, last);
    assert(back_pass.added() == out_pass.added());
    assert(back_pass.added().pairs() =~= Seq::<(Seq<char>, Seq<char>)>::empty());
}

// ---------------------------------------------------------------------------
// Added headers
// ---------------------------------------------------------------------------
/// Whether a pair sets a header.
pub open spec fn sets(pair: (Seq<char>, Seq<char>), name: Seq<char>) -> bool {
    header_name(pair.0) == Some(name) && is_header_value(pair.1)
}

/// A header that no valid pair names keeps its values.
pub proof fn law_other_headers_stay(
    values: Map<Seq<char>, Seq<Seq<u8>>>,
    pairs: Seq<(Seq<char>, Seq<char>)>,
    name: Seq<char>,
)
    requires
        forall|i: int| 0 <= i < pairs.len() ==> !sets(#[trigger] pairs[i], name),
    ensures
        with_headers(values, pairs).dom().contains(name) == values.dom().contains(name),
        values.dom().contains(name) ==> with_headers(values, pairs)[name] == values[name],
    decreases pairs.len(),
{
    if pairs.len() > 0 {
        let front = pairs.drop_last();
        assert forall|i: int| 0 <= i < front.len() implies !sets(#[trigger] front[i], name) by {
            assert(front[i] == pairs[i]);
        }
        law_other_headers_stay(values, front, name);
        assert(!sets(pairs[pairs.len() - 1], name));
    }
}

/// The last valid pair that names a header sets it, to its value alone.
pub proof fn law_added_header_is_set(
    values: Map<Seq<char>, Seq<Seq<u8>>>,
    pairs: Seq<(Seq<char>, Seq<char>)>,
    name: Seq<char>,
    k: int,
)
    requires
        0 <= k < pairs.len(),
        sets(pairs[k], name),
        forall|i: int| k < i < pairs.len() ==> !sets(#[trigger] pairs[i], name),
    ensures
        with_headers(values, pairs).dom().contains(name),
        with_headers(values, pairs)[name] == seq![encode_utf8(pairs[k].1)],
    decreases pairs.len(),
{
    if k < pairs.len() - 1 {
        let front = pairs.drop_last();
        assert(front[k] == pairs[k]);
        assert forall|i: int| k < i < front.len() implies !sets(#[trigger] front[i], name) by {
            assert(front[i] == pairs[i]);
        }
        law_added_header_is_set(values, front, name, k);
        assert(!sets(pairs[pairs.len() - 1], name));
    }
}

} // verus!

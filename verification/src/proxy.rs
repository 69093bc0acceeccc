//! What becomes of a request.
//!
//! A request is carried from step to step. `handle_request` takes it in; each
//! `Step` says what is to be done outside (send a request to a backend, read a
//! body, decode a plugin's decision) and holds what goes on from there with the
//! outcome.
use std::sync::Arc;
use vstd::prelude::*;
use vstd::string::*;
use vstd::utf8::*;

use crate::config::{first_match, Config};
use crate::headers::{
    content_length, declared_length, header_count, header_values, headers_to_map, insert_header,
    last_text, lookup, lower, may_overflow, no_headers, no_values, parse_status, set_headers,
    values_under, with_headers, SAFE_HEADER_COUNT,
};
use crate::metrics::Metrics;
use crate::plugin::{
    hook_may_reply, request_json, response_json, Plugin, PluginDecision, PluginError,
    PluginRequestContext, PluginResponseContext,
};
use crate::string_map::{distinct_keys, pairs_map, StringMap};
use crate::text::{same_text, trim_slashes, without_trailing_slashes};

verus! {

/// What is replaced as one when the configuration is reloaded: a plugin is named
/// by the configuration, so neither is ever replaced without the other.
pub struct ProxySnapshot {
    pub config: Config,
    pub plugins: Vec<Plugin>,
}

/// The proxy between requests: the active snapshot and the counters. A request
/// keeps the snapshot that it began with.
pub struct ProxyState {
    pub snapshot: Arc<ProxySnapshot>,
    pub metrics: Metrics,
}

/// Whether a state is another with its snapshot replaced as one.
pub open spec fn replaced(
    before: ProxyState,
    new_snapshot: ProxySnapshot,
    after: ProxyState,
) -> bool {
    &&& *after.snapshot == new_snapshot
    &&& after.metrics == before.metrics
}

impl ProxyState {
    /// A proxy that has served nothing yet.
    pub fn new(config: Config, plugins: Vec<Plugin>) -> (r: Self)
        ensures
            r.snapshot.config == config,
            r.snapshot.plugins == plugins,
            r.metrics == (Metrics {
                requests_total: 0,
                requests_blocked_by_plugin: 0,
                backend_errors_total: 0,
                backend_timeouts_total: 0,
            }),
    {
        ProxyState {
            snapshot: Arc::new(ProxySnapshot { config, plugins }),
            metrics: Metrics::default(),
        }
    }

    /// Makes a snapshot the active one. The counters go on.
    pub fn replace_snapshot(&mut self, new_snapshot: ProxySnapshot)
        ensures
            replaced(*old(self), new_snapshot, *final(self)),
    {
        self.snapshot = Arc::new(new_snapshot);
    }
}

// ---------------------------------------------------------------------------
// Responses
// ---------------------------------------------------------------------------
/// A response to the client.
pub struct ProxyResponse {
    /// Whether this is the backend's response, passed on with added headers.
    pub relayed: bool,
    pub status: u16,
    pub headers: hyper::HeaderMap,
    pub body: Vec<u8>,
}

impl ProxyResponse {
    /// Whether the response is a text without headers.
    pub open spec fn is_text(self, status: int, body: Seq<char>) -> bool {
        &&& !self.relayed
        &&& self.status == status
        &&& header_values(self.headers) == no_values()
        &&& self.body@ == encode_utf8(body)
    }
}

/// A response that is a text without headers.
pub fn text_response(status: u16, msg: &str) -> (r: ProxyResponse)
    ensures
        r.is_text(status as int, msg@),
{
    ProxyResponse { relayed: false, status, headers: no_headers(), body: msg.as_bytes_vec() }
}

/// The counters as a response.
pub open spec fn is_metrics_response(r: ProxyResponse, metrics: Metrics) -> bool {
    &&& !r.relayed
    &&& r.status == 200
    &&& header_values(r.headers) == no_values().insert(
        "content-type"@,
        seq![encode_utf8("text/plain; version=0.0.4"@)],
    )
    &&& r.body@ == encode_utf8(metrics.prometheus())
}

/// The counters as a response.
fn metrics_response(metrics: &Metrics) -> (r: ProxyResponse)
    ensures
        is_metrics_response(r, *metrics),
{
    proof {
        reveal_strlit("content-type");
        reveal_strlit("text/plain; version=0.0.4");
        assert("content-type"@.map_values(|c: char| lower(c)) =~= "content-type"@);
    }
    let mut headers = no_headers();
    let _ = insert_header(&mut headers, "content-type", "text/plain; version=0.0.4");
    ProxyResponse {
        relayed: false,
        status: 200,
        headers,
        body: metrics.render_prometheus().as_str().as_bytes_vec(),
    }
}

/// A status code, or another in its place where it is none.
pub open spec fn status_or(status: u16, fallback: u16) -> u16 {
    if 100 <= status <= 999 {
        status
    } else {
        fallback
    }
}

// ---------------------------------------------------------------------------
// The target of a request
// ---------------------------------------------------------------------------
/// Whether `hyper` reads a text as a URI.
pub uninterp spec fn is_uri(text: Seq<char>) -> bool;

/// `hyper::Uri` parsing: whether a text is a URI.
#[verifier::external_body]
fn parses_as_uri(text: &str) -> (r: bool)
    ensures
        r == is_uri(text@),
{
    text.parse::<hyper::Uri>().is_ok()
}

/// The URI of a request at a backend: the backend, without slashes at its end,
/// then path and query.
pub open spec fn target_uri(backend: Seq<char>, path_and_query: Option<Seq<char>>) -> Seq<char> {
    without_trailing_slashes(backend) + match path_and_query {
        Some(text) => text,
        None => "/"@,
    }
}

/// The text in an option.
pub open spec fn option_text(text: Option<String>) -> Option<Seq<char>> {
    match text {
        Some(text) => Some(text@),
        None => None,
    }
}

/// The URI of a request at a backend. `None` when it is not a URI.
pub fn build_target_uri(backend: &str, path_and_query: &Option<String>) -> (r: Option<String>)
    ensures
        match r {
            Some(uri) => uri@ == target_uri(backend@, option_text(*path_and_query)) && is_uri(uri@),
            None => !is_uri(target_uri(backend@, option_text(*path_and_query))),
        },
{
    let mut full = trim_slashes(backend).to_owned();
    match path_and_query {
        Some(text) => full.append(text.as_str()),
        None => full.append("/"),
    }
    if parses_as_uri(full.as_str()) {
        Some(full)
    } else {
        None
    }
}

// ---------------------------------------------------------------------------
// Steps
// ---------------------------------------------------------------------------
/// What a request brings.
pub struct RequestHead<'a> {
    pub method: &'a str,
    pub path: &'a str,
    pub path_and_query: Option<String>,
    pub headers: &'a hyper::HeaderMap,
}

/// What comes of sending a request to a backend.
pub enum BackendReply {
    /// The backend answered; its body is still to be read.
    Answered { status: u16, headers: hyper::HeaderMap },
    /// The backend could not be reached.
    Unreachable,
    /// The backend did not answer in time.
    TimedOut,
    /// The body of the request turned out to be longer than the limit.
    RequestTooLarge,
}

/// What the plugins are asked about.
pub enum Stage {
    /// A request for a backend.
    Request { backend: String, path_and_query: Option<String> },
    /// A backend's response.
    Response { status: u16, headers: hyper::HeaderMap, body: Vec<u8> },
}

impl Stage {
    /// The hook that is run.
    pub open spec fn hook(self) -> Seq<char> {
        match self {
            Stage::Request { .. } => "filter_request"@,
            Stage::Response { .. } => "filter_response"@,
        }
    }
}

/// How a plugin let a request or a response pass.
pub enum Passed {
    /// It has no such hook.
    Skipped,
    /// It replied, and the reply was decoded as leave to go on with these
    /// headers.
    Continued { reply: Seq<u8>, add_headers: Map<Seq<char>, Seq<char>> },
}

/// The headers that plugins have added, on top of earlier ones; the later
/// plugin decides.
pub open spec fn merged(
    base: Map<Seq<char>, Seq<char>>,
    passed: Seq<Passed>,
) -> Map<Seq<char>, Seq<char>>
    decreases passed.len(),
{
    if passed.len() == 0 {
        base
    } else {
        match passed.last() {
            Passed::Skipped => merged(base, passed.drop_last()),
            Passed::Continued { add_headers, .. } => merged(
                base,
                passed.drop_last(),
            ).union_prefer_right(add_headers),
        }
    }
}

/// Whether a plugin can have let an input pass in this way.
pub open spec fn may_pass(plugin: Plugin, hook: Seq<char>, input: Seq<u8>, passed: Passed) -> bool {
    match passed {
        Passed::Skipped => hook_may_reply(plugin.code(), hook, input, Ok(None)),
        Passed::Continued { reply, .. } => hook_may_reply(
            plugin.code(),
            hook,
            input,
            Ok(Some(reply)),
        ),
    }
}

/// Whether the first plugins can have let an input pass in these ways.
pub open spec fn may_all_pass(
    plugins: Seq<Plugin>,
    hook: Seq<char>,
    input: Seq<u8>,
    passed: Seq<Passed>,
) -> bool {
    &&& passed.len() <= plugins.len()
    &&& forall|i: int|
        0 <= i < passed.len() ==> may_pass(plugins[i], hook, input, #[trigger] passed[i])
}

/// One more plugin that let the input pass.
proof fn lemma_one_more_passed(
    plugins: Seq<Plugin>,
    hook: Seq<char>,
    input: Seq<u8>,
    so_far: Seq<Passed>,
    passed: Passed,
)
    requires
        may_all_pass(plugins, hook, input, so_far),
        so_far.len() < plugins.len(),
        may_pass(plugins[so_far.len() as int], hook, input, passed),
    ensures
        may_all_pass(plugins, hook, input, so_far.push(passed)),
        so_far.push(passed).drop_last() == so_far,
{
    let all = so_far.push(passed);
    assert(all.drop_last() =~= so_far);
    assert forall|k: int| 0 <= k < all.len() implies may_pass(
        plugins[k],
        hook,
        input,
        #[trigger] all[k],
    ) by {
        if k < so_far.len() {
            assert(may_pass(plugins[k], hook, input, so_far[k]));
        }
    }
}

/// A pass over the plugins, in the order of the configuration. The first
/// plugin that blocks ends it.
pub struct HookPass {
    snapshot: Arc<ProxySnapshot>,
    stage: Stage,
    input: Vec<u8>,
    next: usize,
    added: StringMap,
    base: Ghost<Map<Seq<char>, Seq<char>>>,
    passed: Ghost<Seq<Passed>>,
}

impl HookPass {
    /// The snapshot that the request began with.
    pub closed spec fn snapshot(self) -> ProxySnapshot {
        *self.snapshot
    }

    /// What the plugins are asked about.
    pub closed spec fn stage(self) -> Stage {
        self.stage
    }

    /// The JSON that the plugins are handed.
    pub closed spec fn input(self) -> Seq<u8> {
        self.input@
    }

    /// The headers to add to the response.
    pub closed spec fn added(self) -> StringMap {
        self.added
    }

    /// The headers that had been added when the pass began.
    pub closed spec fn base(self) -> Map<Seq<char>, Seq<char>> {
        self.base@
    }

    /// How the plugins before the next one let the input pass.
    pub closed spec fn passed(self) -> Seq<Passed> {
        self.passed@
    }

    /// Whether the plugins so far let the input pass and their headers have
    /// been gathered.
    #[verifier::type_invariant]
    pub closed spec fn valid(self) -> bool {
        &&& self.next == self.passed@.len()
        &&& may_all_pass(self.snapshot.plugins@, self.stage.hook(), self.input@, self.passed@)
        &&& self.added@ == merged(self.base@, self.passed@)
        &&& self.added.keys_are_distinct()
    }

    /// What a valid pass holds.
    pub proof fn lemma_valid(self)
        requires
            self.valid(),
        ensures
            may_all_pass(
                self.snapshot().plugins@,
                self.stage().hook(),
                self.input(),
                self.passed(),
            ),
            self.added()@ == merged(self.base(), self.passed()),
            distinct_keys(self.added().pairs()),
            self.added().pairs().len() == self.added()@.dom().len(),
    {
        self.added.lemma_keys_are_distinct();
    }

    /// Whether two passes are about the same.
    pub open spec fn same_subject(self, other: HookPass) -> bool {
        &&& self.snapshot() == other.snapshot()
        &&& self.stage() == other.stage()
        &&& self.input() == other.input()
        &&& self.base() == other.base()
    }
}

/// A pass that waits for a plugin's reply to be decoded.
pub struct PendingDecision {
    pass: HookPass,
    reply: Vec<u8>,
}

impl PendingDecision {
    /// The pass.
    pub closed spec fn pass(self) -> HookPass {
        self.pass
    }

    /// The reply, as JSON.
    pub closed spec fn reply(self) -> Seq<u8> {
        self.reply@
    }

    /// Whether the reply is one that the next plugin can have given.
    #[verifier::type_invariant]
    pub closed spec fn valid(self) -> bool {
        &&& self.pass.valid()
        &&& self.pass.next < self.pass.snapshot.plugins@.len()
        &&& hook_may_reply(
            self.pass.snapshot.plugins@[self.pass.next as int].code(),
            self.pass.stage.hook(),
            self.pass.input@,
            Ok(Some(self.reply@)),
        )
    }

    /// The path of the plugin that replied.
    pub fn plugin_name(&self) -> (r: &str)
        ensures
            r@ == self.pass().snapshot().plugins@[self.pass().passed().len() as int].path(),
    {
        proof {
            use_type_invariant(self);
        }
        self.pass.snapshot.plugins[self.pass.next].name()
    }

    /// The reply, as JSON.
    pub fn reply_json(&self) -> (r: &[u8])
        ensures
            r@ == self.reply(),
    {
        self.reply.as_slice()
    }
}

/// A request that is ready for its backend.
pub struct Forwarding {
    snapshot: Arc<ProxySnapshot>,
    uri: String,
    added: StringMap,
}

impl Forwarding {
    /// The snapshot that the request began with.
    pub closed spec fn snapshot(self) -> ProxySnapshot {
        *self.snapshot
    }

    /// The URI to send the request to.
    pub closed spec fn uri(self) -> Seq<char> {
        self.uri@
    }

    /// The headers to add to the response.
    pub closed spec fn added(self) -> StringMap {
        self.added
    }

    /// The URI to send the request to.
    pub fn target(&self) -> (r: &str)
        ensures
            r@ == self.uri(),
    {
        self.uri.as_str()
    }

    /// How long the backend may take to answer, in milliseconds.
    pub fn timeout_ms(&self) -> (r: u64)
        ensures
            r == self.snapshot().config.request_timeout_ms,
    {
        self.snapshot.config.request_timeout_ms
    }

    /// How long the body of the request may be. One that did not declare its
    /// length is measured while it is sent.
    pub fn body_limit(&self) -> (r: u64)
        ensures
            r == self.snapshot().config.max_body_bytes,
    {
        self.snapshot.config.max_body_bytes
    }
}

/// A backend's response whose body is still to be read.
pub struct Reading {
    snapshot: Arc<ProxySnapshot>,
    status: u16,
    headers: hyper::HeaderMap,
    added: StringMap,
}

impl Reading {
    /// The snapshot that the request began with.
    pub closed spec fn snapshot(self) -> ProxySnapshot {
        *self.snapshot
    }

    /// The status of the response.
    pub closed spec fn status(self) -> u16 {
        self.status
    }

    /// The headers of the response.
    pub closed spec fn headers(self) -> hyper::HeaderMap {
        self.headers
    }

    /// The headers to add to the response.
    pub closed spec fn added(self) -> StringMap {
        self.added
    }
}

/// What is to be done next.
pub enum Step {
    /// Answer the client.
    Respond(ProxyResponse),
    /// Run the plugins.
    RunHooks(HookPass),
    /// Decode a plugin's reply.
    Decode(PendingDecision),
    /// Send the request to its backend.
    Forward(Forwarding),
    /// Read the body of the backend's response.
    ReadBody(Reading),
    /// Give up: the response has more headers than a header map can hold.
    HeaderOverflow,
}

impl Step {
    /// Whether the step answers with a text.
    pub open spec fn answers(self, status: int, body: Seq<char>) -> bool {
        self matches Step::Respond(r) && r.is_text(status, body)
    }
}

/// Whether a map holds the headers whose values are text, and of several such
/// values the last.
pub open spec fn describes(
    map: Map<Seq<char>, Seq<char>>,
    values: Map<Seq<char>, Seq<Seq<u8>>>,
) -> bool {
    forall|name: Seq<char>| #[trigger]
        lookup(map, name) == last_text(values_under(values, name))
}

/// Whether a JSON text is what plugins learn of a request.
pub open spec fn is_request_input(
    input: Seq<u8>,
    method: Seq<char>,
    path: Seq<char>,
    headers: hyper::HeaderMap,
) -> bool {
    exists|pairs: Seq<(Seq<char>, Seq<char>)>|
        {
            &&& distinct_keys(pairs)
            &&& describes(pairs_map(pairs), header_values(headers))
            &&& input == #[trigger] request_json(method, path, pairs)
        }
}

/// Whether a JSON text is what plugins learn of a response.
pub open spec fn is_response_input(
    input: Seq<u8>,
    status: u16,
    headers: hyper::HeaderMap,
) -> bool {
    exists|pairs: Seq<(Seq<char>, Seq<char>)>|
        {
            &&& distinct_keys(pairs)
            &&& describes(pairs_map(pairs), header_values(headers))
            &&& input == #[trigger] response_json(status, pairs)
        }
}

/// Whether a declared length exceeds the limit.
pub open spec fn declares_more_than(headers: hyper::HeaderMap, max: u64) -> bool {
    declared_length(header_values(headers)) matches Some(len) && len > max
}

// ---------------------------------------------------------------------------
// Taking a request in
// ---------------------------------------------------------------------------
/// What comes of taking a request in, under a snapshot, with the counters as
/// they are after it has been counted.
pub open spec fn takes_in(
    snapshot: ProxySnapshot,
    metrics: Metrics,
    req: RequestHead,
    step: Step,
) -> bool {
    if req.path@ == "/__metrics"@ {
        step matches Step::Respond(r) && is_metrics_response(r, metrics)
    } else {
        match first_match(snapshot.config.routes@, req.path@) {
            None => step.answers(404, "no matching route"@),
            Some(i) => if declares_more_than(*req.headers, snapshot.config.max_body_bytes) {
                step.answers(413, "request body too large"@)
            } else {
                &&& step matches Step::RunHooks(pass)
                &&& pass.valid()
                &&& pass.snapshot() == snapshot
                &&& pass.stage() matches Stage::Request { backend, path_and_query }
                &&& backend@ == snapshot.config.routes@[i].backend@
                &&& option_text(path_and_query) == option_text(req.path_and_query)
                &&& is_request_input(pass.input(), req.method@, req.path@, *req.headers)
                &&& pass.added()@ == Map::<Seq<char>, Seq<char>>::empty()
                &&& pass.base() == Map::<Seq<char>, Seq<char>>::empty()
                &&& pass.passed() == Seq::<Passed>::empty()
            },
        }
    }
}

/// Whether a state takes a request in with this step: it counts the request and
/// handles it under the active snapshot.
pub open spec fn admits(
    before: ProxyState,
    req: RequestHead,
    after: ProxyState,
    step: Step,
) -> bool {
    &&& after.snapshot == before.snapshot
    &&& after.metrics == before.metrics.with_request()
    &&& takes_in(*before.snapshot, after.metrics, req, step)
}

/// Takes a request in: counts it; answers `/__metrics` at once; finds its route;
/// refuses a body that declares to be too large; else hands it to the plugins.
pub fn handle_request(state: &mut ProxyState, req: &RequestHead) -> (r: Step)
    ensures
        admits(*old(state), *req, *final(state), r),
{
    state.metrics.count_request();
    if same_text(req.path, "/__metrics") {
        return Step::Respond(metrics_response(&state.metrics));
    }
    let snapshot = state.snapshot.clone();
    let backend: String = match snapshot.config.match_route(req.path) {
        Some(route) => route.backend.clone(),
        None => {
            return Step::Respond(text_response(404, "no matching route"));
        },
    };
    match content_length(req.headers) {
        Some(len) => {
            if len > snapshot.config.max_body_bytes {
                return Step::Respond(text_response(413, "request body too large"));
            }
        },
        None => {},
    }
    let ctx = PluginRequestContext {
        method: req.method,
        path: req.path,
        headers: headers_to_map(req.headers),
    };
    let input = ctx.to_json();
    let added = StringMap::new();
    proof {
        use_type_invariant(&added);
    }
    let pass = HookPass {
        snapshot,
        stage: Stage::Request { backend, path_and_query: req.path_and_query.clone() },
        input,
        next: 0,
        added,
        base: Ghost(Map::empty()),
        passed: Ghost(Seq::empty()),
    };
    Step::RunHooks(pass)
}

// ---------------------------------------------------------------------------
// Running the plugins
// ---------------------------------------------------------------------------
/// Whether a pass has come to `later` by plugins that lack the hook.
pub open spec fn skips_to(pass: HookPass, later: HookPass) -> bool {
    &&& later.valid()
    &&& later.same_subject(pass)
    &&& later.added() == pass.added()
    &&& pass.passed().is_prefix_of(later.passed())
    &&& forall|i: int|
        pass.passed().len() <= i < later.passed().len() ==> #[trigger] later.passed()[i]
            == Passed::Skipped
}

/// What comes of a pass once every plugin has let the input pass: a request goes
/// to its backend; a response goes to the client, with the headers that plugins
/// added.
pub open spec fn ends(pass: HookPass, step: Step) -> bool {
    match pass.stage() {
        Stage::Request { backend, path_and_query } => {
            let uri = target_uri(backend@, option_text(path_and_query));
            if is_uri(uri) {
                &&& step matches Step::Forward(f)
                &&& f.snapshot() == pass.snapshot()
                &&& f.uri() == uri
                &&& f.added() == pass.added()
            } else {
                step.answers(502, "invalid backend URI"@)
            }
        },
        Stage::Response { status, headers, body } => {
            ||| {
                &&& step matches Step::Respond(r)
                &&& r.relayed
                &&& r.status == status
                &&& r.body == body
                &&& header_values(r.headers) == with_headers(
                    header_values(headers),
                    pass.added().pairs(),
                )
            }
            ||| {
                &&& step is HeaderOverflow
                &&& may_overflow(headers, pass.added().pairs())
                &&& header_count(headers) + pass.added().pairs().len() > SAFE_HEADER_COUNT
            }
        },
    }
}

/// What comes of the next plugin's turn: the pass ends when there is none; a
/// plugin that fails ends the request; a reply is to be decoded.
pub open spec fn takes_turn(pass: HookPass, step: Step) -> bool {
    let plugins = pass.snapshot().plugins@;
    let i = pass.passed().len() as int;
    if i == plugins.len() {
        ends(pass, step)
    } else {
        ||| {
            &&& step.answers(500, "plugin error"@)
            &&& exists|e: PluginError| #[trigger]
                hook_may_reply(plugins[i].code(), pass.stage().hook(), pass.input(), Err(e))
        }
        ||| {
            &&& step matches Step::Decode(pending)
            &&& pending.valid()
            &&& pending.pass() == pass
            &&& hook_may_reply(
                plugins[i].code(),
                pass.stage().hook(),
                pass.input(),
                Ok(Some(pending.reply())),
            )
        }
    }
}

/// What comes of running the plugins: those that lack the hook are passed over,
/// then one of the others takes its turn.
pub open spec fn runs_to(pass: HookPass, step: Step) -> bool {
    exists|later: HookPass| #[trigger] skips_to(pass, later) && takes_turn(later, step)
}

impl HookPass {
    /// Ends a pass that every plugin has let pass.
    fn finish(self) -> (r: Step)
        ensures
            ends(self, r),
    {
        match self.stage {
            Stage::Request { backend, path_and_query } => {
                match build_target_uri(backend.as_str(), &path_and_query) {
                    Some(uri) => Step::Forward(
                        Forwarding { snapshot: self.snapshot, uri, added: self.added },
                    ),
                    None => Step::Respond(text_response(502, "invalid backend URI")),
                }
            },
            Stage::Response { status, headers, body } => {
                let mut headers = headers;
                if set_headers(&mut headers, &self.added) {
                    Step::Respond(ProxyResponse { relayed: true, status, headers, body })
                } else {
                    Step::HeaderOverflow
                }
            },
        }
    }

    /// Runs the plugins whose turn it is, up to the first that replies.
    pub fn run(self) -> (r: Step)
        ensures
            runs_to(self, r),
    {
        proof {
            use_type_invariant(&self);
        }
        let ghost whole = self;
        let HookPass { snapshot, stage, input, next, added, base, passed } = self;
        let hook_name: &str = match &stage {
            Stage::Request { .. } => "filter_request",
            Stage::Response { .. } => "filter_response",
        };
        let mut i: usize = next;
        let mut passed: Ghost<Seq<Passed>> = passed;
        while i < snapshot.plugins.len()
            invariant
                next <= i <= snapshot.plugins@.len(),
                hook_name@ == stage.hook(),
                whole == self,
                whole == (HookPass {
                    snapshot,
                    stage,
                    input,
                    next,
                    added,
                    base,
                    passed: whole.passed,
                }),
                skips_to(whole, HookPass { snapshot, stage, input, next: i, added, base, passed }),
            decreases snapshot.plugins@.len() - i,
        {
            let ghost here = HookPass { snapshot, stage, input, next: i, added, base, passed };
            match snapshot.plugins[i].call_hook(hook_name, input.as_slice()) {
                Ok(None) => {
                    proof {
                        let so_far = passed@;
                        passed@ = so_far.push(Passed::Skipped);
                        lemma_one_more_passed(
                            snapshot.plugins@,
                            stage.hook(),
                            input@,
                            so_far,
                            Passed::Skipped,
                        );
                        let there = HookPass {
                            snapshot,
                            stage,
                            input,
                            next: (i + 1) as usize,
                            added,
                            base,
                            passed,
                        };
                        assert(skips_to(whole, there));
                    }
                    i += 1;
                },
                Ok(Some(reply)) => {
                    let pass = HookPass { snapshot, stage, input, next: i, added, base, passed };
                    let r = Step::Decode(PendingDecision { pass, reply });
                    assert(takes_turn(here, r));
                    return r;
                },
                Err(_) => {
                    let r = Step::Respond(text_response(500, "plugin error"));
                    assert(takes_turn(here, r));
                    return r;
                },
            }
        }
        let pass = HookPass { snapshot, stage, input, next: i, added, base, passed };
        let ghost last = pass;
        let r = pass.finish();
        assert(takes_turn(last, r));
        r
    }
}

// ---------------------------------------------------------------------------
// A plugin's decision
// ---------------------------------------------------------------------------
/// What comes of a plugin's decision. `None` stands for a reply that is no
/// decision.
pub open spec fn decides(
    pending: PendingDecision,
    decision: Option<PluginDecision>,
    before: Metrics,
    after: Metrics,
    step: Step,
) -> bool {
    let pass = pending.pass();
    match decision {
        None => after == before && step.answers(500, "plugin error"@),
        Some(PluginDecision::Continue { add_headers }) => {
            &&& after == before
            &&& step matches Step::RunHooks(next)
            &&& next.valid()
            &&& next.same_subject(pass)
            &&& next.added()@ == pass.added()@.union_prefer_right(add_headers@)
            &&& next.passed() == pass.passed().push(
                Passed::Continued { reply: pending.reply(), add_headers: add_headers@ },
            )
        },
        Some(PluginDecision::Block { status, body }) => match pass.stage() {
            Stage::Request { .. } => {
                &&& after == before.with_block()
                &&& step.answers(status_or(status, 403) as int, body@)
            },
            Stage::Response { .. } => {
                &&& after == before
                &&& step.answers(status_or(status, 502) as int, body@)
            },
        },
    }
}

impl PendingDecision {
    /// Goes on with a plugin's decision: `None` where its reply was not one. A
    /// block answers the client at once; on a request it is counted.
    pub fn decided(self, metrics: &mut Metrics, decision: Option<PluginDecision>) -> (r: Step)
        ensures
            decides(self, decision, *old(metrics), *final(metrics), r),
    {
        proof {
            use_type_invariant(&self);
        }
        let PendingDecision { pass, reply } = self;
        match decision {
            None => Step::Respond(text_response(500, "plugin error")),
            Some(PluginDecision::Block { status, body }) => {
                let fallback: u16 = match &pass.stage {
                    Stage::Request { .. } => {
                        metrics.count_block();
                        403
                    },
                    Stage::Response { .. } => 502,
                };
                let code: u16 = match parse_status(status) {
                    Some(code) => code,
                    None => fallback,
                };
                Step::Respond(text_response(code, body.as_str()))
            },
            Some(PluginDecision::Continue { add_headers }) => {
                let HookPass { snapshot, stage, input, next, added, base, passed } = pass;
                let mut added = added;
                added.extend(&add_headers);
                proof {
                    use_type_invariant(&added);
                }
                let ghost so_far = passed@;
                let ghost mine = Passed::Continued {
                    reply: reply@,
                    add_headers: add_headers@,
                };
                let passed: Ghost<Seq<Passed>> = Ghost(so_far.push(mine));
                proof {
                    assert(next < snapshot.plugins.len());
                    lemma_one_more_passed(snapshot.plugins@, stage.hook(), input@, so_far, mine);
                }
                let next = HookPass {
                    snapshot,
                    stage,
                    input,
                    next: next + 1,
                    added,
                    base,
                    passed,
                };
                Step::RunHooks(next)
            },
        }
    }
}

// ---------------------------------------------------------------------------
// The backend's response
// ---------------------------------------------------------------------------
/// What comes of sending a request to its backend.
pub open spec fn replies(
    forwarding: Forwarding,
    reply: BackendReply,
    before: Metrics,
    after: Metrics,
    step: Step,
) -> bool {
    match reply {
        BackendReply::Unreachable => {
            &&& after == before.with_backend_error()
            &&& step.answers(502, "backend unreachable"@)
        },
        BackendReply::TimedOut => {
            &&& after == before.with_backend_timeout()
            &&& step.answers(504, "backend timeout"@)
        },
        BackendReply::RequestTooLarge => {
            &&& after == before
            &&& step.answers(413, "request body too large"@)
        },
        BackendReply::Answered { status, headers } => {
            &&& after == before
            &&& if declares_more_than(headers, forwarding.snapshot().config.max_body_bytes) {
                step.answers(502, "backend response too large"@)
            } else {
                &&& step matches Step::ReadBody(reading)
                &&& reading.snapshot() == forwarding.snapshot()
                &&& reading.status() == status
                &&& reading.headers() == headers
                &&& reading.added() == forwarding.added()
            }
        },
    }
}

impl Forwarding {
    /// Goes on with what the backend did. A failure is counted and answered; a
    /// request whose body was too large is refused; so is a response that declares
    /// to be too large; of any other the body is to be read.
    pub fn replied(self, metrics: &mut Metrics, reply: BackendReply) -> (r: Step)
        ensures
            replies(self, reply, *old(metrics), *final(metrics), r),
    {
        match reply {
            BackendReply::Unreachable => {
                metrics.count_backend_error();
                Step::Respond(text_response(502, "backend unreachable"))
            },
            BackendReply::TimedOut => {
                metrics.count_backend_timeout();
                Step::Respond(text_response(504, "backend timeout"))
            },
            BackendReply::RequestTooLarge => {
                Step::Respond(text_response(413, "request body too large"))
            },
            BackendReply::Answered { status, headers } => {
                match content_length(&headers) {
                    Some(len) => {
                        if len > self.snapshot.config.max_body_bytes {
                            return Step::Respond(text_response(502, "backend response too large"));
                        }
                    },
                    None => {},
                }
                Step::ReadBody(
                    Reading { snapshot: self.snapshot, status, headers, added: self.added },
                )
            },
        }
    }
}

/// What comes of reading the body of a backend's response. `None` stands for a
/// body that could not be read.
pub open spec fn reads(reading: Reading, body: Option<Vec<u8>>, step: Step) -> bool {
    match body {
        None => step.answers(502, "backend read error"@),
        Some(bytes) => if bytes@.len() > reading.snapshot().config.max_body_bytes {
            step.answers(502, "backend response too large"@)
        } else {
            &&& step matches Step::RunHooks(pass)
            &&& pass.valid()
            &&& pass.snapshot() == reading.snapshot()
            &&& pass.stage() == (Stage::Response {
                status: reading.status(),
                headers: reading.headers(),
                body: bytes,
            })
            &&& is_response_input(pass.input(), reading.status(), reading.headers())
            &&& pass.added() == reading.added()
            &&& pass.base() == reading.added()@
            &&& pass.passed() == Seq::<Passed>::empty()
        },
    }
}

impl Reading {
    /// Goes on with the body of the backend's response: `None` where it could
    /// not be read. A body that is too large is refused; any other response is
    /// handed to the plugins.
    pub fn body_read(self, body: Option<Vec<u8>>) -> (r: Step)
        ensures
            reads(self, body, r),
    {
        let bytes: Vec<u8> = match body {
            Some(bytes) => bytes,
            None => {
                return Step::Respond(text_response(502, "backend read error"));
            },
        };
        if bytes.len() as u64 > self.snapshot.config.max_body_bytes {
            return Step::Respond(text_response(502, "backend response too large"));
        }
        let ctx = PluginResponseContext {
            status: self.status,
            headers: headers_to_map(&self.headers),
        };
        let input = ctx.to_json();
        let ghost carried = self.added@;
        proof {
            use_type_invariant(&self.added);
        }
        let pass = HookPass {
            snapshot: self.snapshot,
            stage: Stage::Response { status: self.status, headers: self.headers, body: bytes },
            input,
            next: 0,
            added: self.added,
            base: Ghost(carried),
            passed: Ghost(Seq::empty()),
        };
        Step::RunHooks(pass)
    }
}

} // verus!

//! What each step of a request does, told from what goes in and what comes out.
use vstd::prelude::*;
use vstd::string::*;
use vstd::utf8::*;

use crate::config::law_first_match_wins;
use crate::header_laws::{
    all_visible, is_last_text, law_headers_are_described_right,
    law_the_declared_length_is_the_number,
};
use crate::headers::{
    declared_length, header_count, header_name, header_values, insert_may, is_header_value,
    may_overflow, may_set_one, may_set_through, overflows_after, with_headers,
};
use crate::metrics::Metrics;
use crate::plugin::{
    hook_may_reply, request_json, response_json, Plugin, PluginDecision, PluginError,
};
use crate::proxy::{
    admits, decides, declares_more_than, describes, ends, is_request_input, is_response_input,
    is_uri, may_all_pass, may_pass, merged, option_text, reads, replaced, replies, runs_to,
    skips_to, takes_in, takes_turn, target_uri, BackendReply, Forwarding, HookPass, Passed,
    PendingDecision, ProxyResponse, ProxySnapshot, ProxyState, Reading, RequestHead, Stage, Step,
};
use crate::string_map::{
    distinct_keys, lemma_pairs_map_keys, lemma_pairs_map_value, pairs_map,
};
use crate::text_laws::{law_only_slashes_are_trimmed, spells};

verus! {

// ---------------------------------------------------------------------------
// Answers
// ---------------------------------------------------------------------------
/// Whether a step answers the client with a status and a text, and no header.
pub open spec fn tells(step: Step, status: int, text: Seq<char>) -> bool {
    &&& step matches Step::Respond(r)
    &&& !r.relayed
    &&& r.status == status
    &&& r.body@ == encode_utf8(text)
    &&& forall|name: Seq<char>| !(#[trigger] header_values(r.headers).dom().contains(name))
}

/// A text response has the status and the bytes of the text, is none of a backend and
/// has no header.
pub proof fn law_a_text_response_is_its_text(r: ProxyResponse, status: int, body: Seq<char>)
    requires
        r.is_text(status, body),
    ensures
        tells(Step::Respond(r), status, body),
{
}

/// Whether a step answers with the counters as Prometheus text.
pub open spec fn tells_metrics(step: Step, metrics: Metrics) -> bool {
    &&& step matches Step::Respond(r)
    &&& !r.relayed
    &&& r.status == 200
    &&& r.body@ == encode_utf8(metrics.prometheus())
    &&& header_values(r.headers).dom() == set!["content-type"@]
    &&& header_values(r.headers)["content-type"@].len() == 1
    &&& header_values(r.headers)["content-type"@][0] == encode_utf8("text/plain; version=0.0.4"@)
}

/// A replaced snapshot is the new one, and no counter starts again.
pub proof fn law_a_replaced_snapshot_is_the_new_one(
    before: ProxyState,
    new_snapshot: ProxySnapshot,
    after: ProxyState,
)
    requires
        replaced(before, new_snapshot, after),
    ensures
        after.snapshot.config == new_snapshot.config,
        after.snapshot.plugins == new_snapshot.plugins,
        after.metrics.requests_total == before.metrics.requests_total,
        after.metrics.requests_blocked_by_plugin == before.metrics.requests_blocked_by_plugin,
        after.metrics.backend_errors_total == before.metrics.backend_errors_total,
        after.metrics.backend_timeouts_total == before.metrics.backend_timeouts_total,
{
}

// ---------------------------------------------------------------------------
// Counters
// ---------------------------------------------------------------------------
/// Whether counters have grown by these numbers, around the end of their range.
pub open spec fn grown(
    before: Metrics,
    requests: int,
    blocks: int,
    errors: int,
    timeouts: int,
    after: Metrics,
) -> bool {
    let end = 0x1_0000_0000_0000_0000int;
    &&& after.requests_total as int == (before.requests_total + requests) % end
    &&& after.requests_blocked_by_plugin as int == (before.requests_blocked_by_plugin + blocks)
        % end
    &&& after.backend_errors_total as int == (before.backend_errors_total + errors) % end
    &&& after.backend_timeouts_total as int == (before.backend_timeouts_total + timeouts) % end
}

/// Each event is counted by its own counter, once, and by no other.
pub proof fn law_each_event_has_its_counter(before: Metrics)
    ensures
        grown(before, 0, 0, 0, 0, before),
        grown(before, 1, 0, 0, 0, before.with_request()),
        grown(before, 0, 1, 0, 0, before.with_block()),
        grown(before, 0, 0, 1, 0, before.with_backend_error()),
        grown(before, 0, 0, 0, 1, before.with_backend_timeout()),
{
}

// ---------------------------------------------------------------------------
// What plugins are shown
// ---------------------------------------------------------------------------
/// Whether pairs are what plugins are to see of headers: no name twice; each name with
/// its last value that is text, byte for byte; and every name that has such a value.
pub open spec fn lists_last_texts(
    pairs: Seq<(Seq<char>, Seq<char>)>,
    values: Map<Seq<char>, Seq<Seq<u8>>>,
) -> bool {
    &&& forall|i: int, j: int|
        0 <= i < j < pairs.len() ==> (#[trigger] pairs[i]).0 != (#[trigger] pairs[j]).0
    &&& forall|i: int|
        0 <= i < pairs.len() ==> values.dom().contains((#[trigger] pairs[i]).0) && exists|k: int|
            #[trigger] is_last_text(values[pairs[i].0], k, pairs[i].1)
    &&& forall|name: Seq<char>, k: int|
        values.dom().contains(name) && 0 <= k < values[name].len() && all_visible(
            #[trigger] values[name][k],
        ) ==> exists|i: int| 0 <= i < pairs.len() && (#[trigger] pairs[i]).0 == name
}

/// Pairs without repeated names that describe headers list the last text of each name.
proof fn lemma_described_pairs(
    pairs: Seq<(Seq<char>, Seq<char>)>,
    values: Map<Seq<char>, Seq<Seq<u8>>>,
)
    requires
        distinct_keys(pairs),
        describes(pairs_map(pairs), values),
    ensures
        lists_last_texts(pairs, values),
{
    let map = pairs_map(pairs);
    law_headers_are_described_right(map, values);
    assert forall|i: int| 0 <= i < pairs.len() implies values.dom().contains(
        (#[trigger] pairs[i]).0,
    ) && exists|k: int| #[trigger] is_last_text(values[pairs[i].0], k, pairs[i].1) by {
        lemma_pairs_map_value(pairs, i);
        assert(map.dom().contains(pairs[i].0));
    }
    assert forall|name: Seq<char>, k: int|
        values.dom().contains(name) && 0 <= k < values[name].len() && all_visible(
            #[trigger] values[name][k],
        ) implies exists|i: int| 0 <= i < pairs.len() && (#[trigger] pairs[i]).0 == name by {
        lemma_pairs_map_keys(pairs, name);
        if !map.dom().contains(name) {
            assert(!all_visible(values[name][k]));
        }
    }
}

/// Whether a text is the JSON of a request with these pairs for its headers.
pub open spec fn shows_request(
    input: Seq<u8>,
    method: Seq<char>,
    path: Seq<char>,
    headers: hyper::HeaderMap,
    pairs: Seq<(Seq<char>, Seq<char>)>,
) -> bool {
    &&& lists_last_texts(pairs, header_values(headers))
    &&& input == request_json(method, path, pairs)
}

/// Whether a text is the JSON of a response with these pairs for its headers.
pub open spec fn shows_response(
    input: Seq<u8>,
    status: u16,
    headers: hyper::HeaderMap,
    pairs: Seq<(Seq<char>, Seq<char>)>,
) -> bool {
    &&& lists_last_texts(pairs, header_values(headers))
    &&& input == response_json(status, pairs)
}

/// What plugins learn of a request is its method, its path and the last text of each
/// of its headers.
pub proof fn law_a_request_is_shown_whole(
    input: Seq<u8>,
    method: Seq<char>,
    path: Seq<char>,
    headers: hyper::HeaderMap,
)
    requires
        is_request_input(input, method, path, headers),
    ensures
        exists|pairs: Seq<(Seq<char>, Seq<char>)>| #[trigger]
            shows_request(input, method, path, headers, pairs),
{
    let pairs = choose|pairs: Seq<(Seq<char>, Seq<char>)>|
        {
            &&& distinct_keys(pairs)
            &&& describes(pairs_map(pairs), header_values(headers))
            &&& input == #[trigger] request_json(method, path, pairs)
        };
    lemma_described_pairs(pairs, header_values(headers));
    assert(shows_request(input, method, path, headers, pairs));
}

/// What plugins learn of a response is its status and the last text of each of its
/// headers.
pub proof fn law_a_response_is_shown_whole(
    input: Seq<u8>,
    status: u16,
    headers: hyper::HeaderMap,
)
    requires
        is_response_input(input, status, headers),
    ensures
        exists|pairs: Seq<(Seq<char>, Seq<char>)>| #[trigger]
            shows_response(input, status, headers, pairs),
{
    let pairs = choose|pairs: Seq<(Seq<char>, Seq<char>)>|
        {
            &&& distinct_keys(pairs)
            &&& describes(pairs_map(pairs), header_values(headers))
            &&& input == #[trigger] response_json(status, pairs)
        };
    lemma_described_pairs(pairs, header_values(headers));
    assert(shows_response(input, status, headers, pairs));
}

// ---------------------------------------------------------------------------
// Taking a request in
// ---------------------------------------------------------------------------
/// Whether headers declare a length: the first `content-length` spells it.
pub open spec fn declares(headers: hyper::HeaderMap, n: u64) -> bool {
    let values = header_values(headers);
    &&& values.dom().contains("content-length"@)
    &&& exists|plus: bool, k: nat| #[trigger]
        spells(values["content-length"@][0], plus, k, n as nat)
}

/// A declared length is too large exactly where it is a number above the limit.
pub proof fn law_too_large_is_above_the_limit(headers: hyper::HeaderMap, max: u64)
    ensures
        declares_more_than(headers, max) <==> exists|n: u64| #[trigger] declares(headers, n) && n
            > max,
{
    let values = header_values(headers);
    if let Some(n) = declared_length(values) {
        law_the_declared_length_is_the_number(values, n);
        assert(declares(headers, n));
    }
    if exists|n: u64| #[trigger] declares(headers, n) && n > max {
        let n = choose|n: u64| #[trigger] declares(headers, n) && n > max;
        law_the_declared_length_is_the_number(values, n);
    }
}

/// Whether a path begins with the prefix of a route, and with that of no route before
/// it.
pub open spec fn routed(snapshot: ProxySnapshot, path: Seq<char>, i: int) -> bool {
    let routes = snapshot.config.routes@;
    &&& 0 <= i < routes.len()
    &&& routes[i].path_prefix@.is_prefix_of(path)
    &&& forall|j: int| 0 <= j < i ==> !(#[trigger] routes[j]).path_prefix@.is_prefix_of(path)
}

/// Whether a step hands a request to the plugins of a snapshot, bound for the backend
/// of a route with its own path and query.
pub open spec fn hands_to_plugins(
    snapshot: ProxySnapshot,
    req: RequestHead,
    i: int,
    step: Step,
) -> bool {
    &&& step matches Step::RunHooks(pass)
    &&& pass.snapshot() == snapshot
    &&& pass.stage() matches Stage::Request { backend, path_and_query }
    &&& backend@ == snapshot.config.routes@[i].backend@
    &&& match (path_and_query, req.path_and_query) {
        (Some(there), Some(here)) => there@ == here@,
        (None, None) => true,
        _ => false,
    }
    &&& pass.passed().len() == 0
    &&& forall|name: Seq<char>| !(#[trigger] pass.added()@.dom().contains(name))
    &&& exists|pairs: Seq<(Seq<char>, Seq<char>)>| #[trigger]
        shows_request(pass.input(), req.method@, req.path@, *req.headers, pairs)
}

/// A request is counted. The path of the counters gets them; a path that no route
/// takes gets a 404; a routed request gets a 413 exactly where it declares a length
/// above the configured limit, and goes to the plugins where it declares none, no
/// number or one up to the limit.
pub proof fn law_requests_are_taken_in(
    before: ProxyState,
    req: RequestHead,
    after: ProxyState,
    step: Step,
)
    requires
        admits(before, req, after, step),
    ensures
        *after.snapshot == *before.snapshot,
        grown(before.metrics, 1, 0, 0, 0, after.metrics),
        req.path@ == "/__metrics"@ ==> tells_metrics(step, after.metrics),
        req.path@ != "/__metrics"@ && (forall|i: int|
            !(#[trigger] routed(*before.snapshot, req.path@, i))) ==> tells(
            step,
            404,
            "no matching route"@,
        ),
        forall|i: int|
            #[trigger] routed(*before.snapshot, req.path@, i) && req.path@ != "/__metrics"@
                ==> if exists|n: u64| #[trigger]
                declares(*req.headers, n) && n > before.snapshot.config.max_body_bytes {
                tells(step, 413, "request body too large"@)
            } else {
                hands_to_plugins(*before.snapshot, req, i, step)
            },
{
    let snapshot = *before.snapshot;
    law_each_event_has_its_counter(before.metrics);
    law_first_match_wins(snapshot.config.routes@, req.path@);
    law_too_large_is_above_the_limit(*req.headers, snapshot.config.max_body_bytes);
    assert(takes_in(snapshot, after.metrics, req, step));
    if req.path@ == "/__metrics"@ {
        let values = header_values(step->Respond_0.headers);
        assert(values.dom() =~= set!["content-type"@]);
    } else {
        match crate::config::first_match(snapshot.config.routes@, req.path@) {
            None => {},
            Some(first) => {
                assert(routed(snapshot, req.path@, first));
                assert forall|i: int| #[trigger] routed(snapshot, req.path@, i) implies i == first
                    by {
                    let routes = snapshot.config.routes@;
                    if i < first {
                        assert(!routes[i].path_prefix@.is_prefix_of(req.path@));
                    } else if first < i {
                        assert(!routes[first].path_prefix@.is_prefix_of(req.path@));
                    }
                }
                if !declares_more_than(*req.headers, snapshot.config.max_body_bytes) {
                    let pass = step->RunHooks_0;
                    law_a_request_is_shown_whole(
                        pass.input(),
                        req.method@,
                        req.path@,
                        *req.headers,
                    );
                    assert(hands_to_plugins(snapshot, req, first, step));
                }
            },
        }
    }
}

/// What comes of taking a request in tells of it alone: the same step is owed whatever
/// the counters are, except where it shows them.
pub proof fn law_taking_in_is_decided_by_the_request(
    snapshot: ProxySnapshot,
    metrics: Metrics,
    other: Metrics,
    req: RequestHead,
    step: Step,
)
    requires
        takes_in(snapshot, metrics, req, step),
        req.path@ != "/__metrics"@,
    ensures
        takes_in(snapshot, other, req, step),
{
}

// ---------------------------------------------------------------------------
// The target
// ---------------------------------------------------------------------------
/// Whether a URI is a backend, without slashes at its end, and then a path.
pub open spec fn leads_to(uri: Seq<char>, backend: Seq<char>, path: Seq<char>) -> bool {
    let kept = uri.len() - path.len();
    &&& path.is_suffix_of(uri)
    &&& 0 <= kept <= backend.len()
    &&& uri.subrange(0, kept) == backend.subrange(0, kept)
    &&& kept > 0 ==> uri[kept - 1] != '/'
    &&& forall|i: int| kept <= i < backend.len() ==> #[trigger] backend[i] == '/'
}

/// The target ends with the path and query, character for character, or a slash where
/// there is none; before it stands the backend with nothing but slashes taken off its
/// end.
pub proof fn law_the_target_keeps_the_path(
    backend: Seq<char>,
    path_and_query: Option<Seq<char>>,
)
    ensures
        leads_to(
            target_uri(backend, path_and_query),
            backend,
            match path_and_query {
                Some(text) => text,
                None => seq!['/'],
            },
        ),
{
    reveal_strlit("/");
    assert("/"@ =~= seq!['/']);
    law_only_slashes_are_trimmed(backend);
    let kept = crate::text::without_trailing_slashes(backend);
    let uri = target_uri(backend, path_and_query);
    let path = match path_and_query {
        Some(text) => text,
        None => seq!['/'],
    };
    assert(uri == kept + path);
    assert(uri.subrange(uri.len() - path.len(), uri.len() as int) =~= path);
    assert(uri.subrange(0, kept.len() as int) =~= kept);
    assert(backend.subrange(0, kept.len() as int) =~= kept);
}

/// An option holds its text, and none where it holds nothing.
pub proof fn law_an_option_holds_its_text(text: Option<String>)
    ensures
        match text {
            Some(text_inside) => option_text(text) == Some(text_inside@),
            None => option_text(text) is None,
        },
{
}

// ---------------------------------------------------------------------------
// The plugins' turns
// ---------------------------------------------------------------------------
/// Whether a plugin was run on an input, with the hook of a stage, and came to a
/// result.
pub open spec fn heard(
    plugin: Plugin,
    stage: Stage,
    input: Seq<u8>,
    result: Result<Option<Seq<u8>>, PluginError>,
) -> bool {
    match stage {
        Stage::Request { .. } => hook_may_reply(
            plugin.code(),
            "filter_request"@,
            input,
            result,
        ),
        Stage::Response { .. } => hook_may_reply(
            plugin.code(),
            "filter_response"@,
            input,
            result,
        ),
    }
}

/// Every plugin that a pass has behind it was run on the input, and lacks the hook or
/// gave the reply that was decoded.
pub proof fn law_passed_plugins_were_heard(pass: HookPass, i: int)
    requires
        pass.valid(),
        0 <= i < pass.passed().len(),
    ensures
        i < pass.snapshot().plugins@.len(),
        match pass.passed()[i] {
            Passed::Skipped => heard(
                pass.snapshot().plugins@[i],
                pass.stage(),
                pass.input(),
                Ok(None),
            ),
            Passed::Continued { reply, .. } => heard(
                pass.snapshot().plugins@[i],
                pass.stage(),
                pass.input(),
                Ok(Some(reply)),
            ),
        },
{
    pass.lemma_valid();
    assert(may_pass(
        pass.snapshot().plugins@[i],
        pass.stage().hook(),
        pass.input(),
        pass.passed()[i],
    ));
}

/// Whether the plugin at a place added a header.
pub open spec fn adds(passed: Seq<Passed>, i: int, name: Seq<char>) -> bool {
    &&& 0 <= i < passed.len()
    &&& passed[i] matches Passed::Continued { add_headers, .. } && add_headers.dom().contains(name)
}

/// A header that plugins added has the value of the last of them; one that none added
/// is as it was.
pub proof fn law_the_last_plugin_decides(
    base: Map<Seq<char>, Seq<char>>,
    passed: Seq<Passed>,
    name: Seq<char>,
)
    ensures
        (forall|i: int| !(#[trigger] adds(passed, i, name))) ==> {
            &&& merged(base, passed).dom().contains(name) == base.dom().contains(name)
            &&& base.dom().contains(name) ==> merged(base, passed)[name] == base[name]
        },
        forall|i: int|
            #[trigger] adds(passed, i, name) && (forall|j: int|
                i < j < passed.len() ==> !(#[trigger] adds(passed, j, name))) ==> {
                &&& merged(base, passed).dom().contains(name)
                &&& merged(base, passed)[name] == passed[i]->add_headers[name]
            },
    decreases passed.len(),
{
    if passed.len() > 0 {
        let front = passed.drop_last();
        let last = passed.len() - 1;
        law_the_last_plugin_decides(base, front, name);
        assert forall|i: int| i != last implies #[trigger] adds(front, i, name) == adds(
            passed,
            i,
            name,
        ) by {}
        assert(!adds(front, last, name));
        if adds(passed, last, name) {
        } else {
            if forall|i: int| !(#[trigger] adds(passed, i, name)) {
                assert forall|i: int| !(#[trigger] adds(front, i, name)) by {
                    if i != last {
                        assert(adds(front, i, name) == adds(passed, i, name));
                    }
                }
            }
            assert forall|i: int|
                #[trigger] adds(passed, i, name) && (forall|j: int|
                    i < j < passed.len() ==> !(#[trigger] adds(passed, j, name))) implies {
                &&& merged(base, passed).dom().contains(name)
                &&& merged(base, passed)[name] == passed[i]->add_headers[name]
            } by {
                assert(adds(front, i, name));
                assert forall|j: int| i < j < front.len() implies !(#[trigger] adds(
                    front,
                    j,
                    name,
                )) by {
                    assert(!adds(passed, j, name));
                }
            }
        }
    }
}

/// The headers of a pass are those it began with and those that the plugins it has
/// behind it added, the later ones over the earlier.
pub proof fn law_a_pass_holds_what_was_added(pass: HookPass, name: Seq<char>)
    requires
        pass.valid(),
    ensures
        (forall|i: int| !(#[trigger] adds(pass.passed(), i, name))) ==> {
            &&& pass.added()@.dom().contains(name) == pass.base().dom().contains(name)
            &&& pass.base().dom().contains(name) ==> pass.added()@[name] == pass.base()[name]
        },
        forall|i: int|
            #[trigger] adds(pass.passed(), i, name) && (forall|j: int|
                i < j < pass.passed().len() ==> !(#[trigger] adds(pass.passed(), j, name))) ==> {
                &&& pass.added()@.dom().contains(name)
                &&& pass.added()@[name] == pass.passed()[i]->add_headers[name]
            },
{
    pass.lemma_valid();
    law_the_last_plugin_decides(pass.base(), pass.passed(), name);
}

/// Whether setting headers one after the other, passing over those that are not valid,
/// came to a valid one that the header map refused.
pub open spec fn refused_after(
    headers: hyper::HeaderMap,
    pairs: Seq<(Seq<char>, Seq<char>)>,
    maps: Seq<hyper::HeaderMap>,
    after: hyper::HeaderMap,
) -> bool {
    let k = maps.len() - 1;
    &&& 0 <= k < pairs.len()
    &&& maps[0] == headers
    &&& forall|i: int|
        0 <= i < k ==> if header_name((#[trigger] pairs[i]).0) is Some && is_header_value(
            pairs[i].1,
        ) {
            insert_may(maps[i], header_name(pairs[i].0)->0, pairs[i].1, maps[i + 1], true)
        } else {
            maps[i + 1] == maps[i]
        }
    &&& header_name(pairs[k].0) is Some
    &&& is_header_value(pairs[k].1)
    &&& insert_may(maps[k], header_name(pairs[k].0)->0, pairs[k].1, after, false)
}

/// Headers overflow only where a header map refused one.
pub proof fn law_an_overflow_is_a_refusal(
    headers: hyper::HeaderMap,
    pairs: Seq<(Seq<char>, Seq<char>)>,
)
    requires
        may_overflow(headers, pairs),
    ensures
        exists|maps: Seq<hyper::HeaderMap>, after: hyper::HeaderMap| #[trigger]
            refused_after(headers, pairs, maps, after),
{
    let (maps, after) = choose|maps: Seq<hyper::HeaderMap>, after: hyper::HeaderMap|
        #[trigger] overflows_after(pairs, maps, after) && maps[0] == headers;
    let k = maps.len() - 1;
    let front = pairs.subrange(0, k);
    assert(may_set_through(front, maps));
    assert forall|i: int| 0 <= i < k implies if header_name((#[trigger] pairs[i]).0) is Some
        && is_header_value(pairs[i].1) {
        insert_may(maps[i], header_name(pairs[i].0)->0, pairs[i].1, maps[i + 1], true)
    } else {
        maps[i + 1] == maps[i]
    } by {
        assert(front[i] == pairs[i]);
        assert(may_set_one(maps[i], front[i], maps[i + 1]));
    }
    assert(refused_after(headers, pairs, maps, after));
}

/// Whether a request that every plugin let pass goes on as it should: to its backend,
/// or refused where that is no URI.
pub open spec fn goes_to_backend(
    pass: HookPass,
    backend: Seq<char>,
    path_and_query: Option<String>,
    uri: Seq<char>,
    step: Step,
) -> bool {
    &&& match path_and_query {
        Some(text) => leads_to(uri, backend, text@),
        None => leads_to(uri, backend, seq!['/']),
    }
    &&& if is_uri(uri) {
        &&& step matches Step::Forward(f)
        &&& f.snapshot() == pass.snapshot()
        &&& f.uri() == uri
        &&& f.added() == pass.added()
    } else {
        tells(step, 502, "invalid backend URI"@)
    }
}

/// Whether a response that every plugin let pass goes on as it should: the backend's
/// status and body with the headers that plugins added.
pub open spec fn goes_to_client(
    pass: HookPass,
    status: u16,
    headers: hyper::HeaderMap,
    body: Seq<u8>,
    step: Step,
) -> bool {
    let pairs = pass.added().pairs();
    match step {
        Step::Respond(r) => {
            &&& r.relayed
            &&& r.status == status
            &&& r.body@ == body
            &&& header_values(r.headers) == with_headers(header_values(headers), pairs)
        },
        Step::HeaderOverflow => {
            &&& header_count(headers) + pairs.len() > 6554
            &&& exists|maps: Seq<hyper::HeaderMap>, after: hyper::HeaderMap| #[trigger]
                refused_after(headers, pairs, maps, after)
        },
        _ => false,
    }
}

/// Whether a pass goes on as it should once every plugin has let the input pass.
pub open spec fn goes_on(pass: HookPass, step: Step) -> bool {
    match pass.stage() {
        Stage::Request { backend, path_and_query } => exists|uri: Seq<char>| #[trigger]
            goes_to_backend(pass, backend@, path_and_query, uri, step),
        Stage::Response { status, headers, body } => goes_to_client(
            pass,
            status,
            headers,
            body@,
            step,
        ),
    }
}

/// A request that every plugin let pass goes to its backend, under its own path and
/// query; a response goes to the client, with its own status and body.
pub proof fn law_a_pass_goes_on(pass: HookPass, step: Step)
    requires
        ends(pass, step),
    ensures
        goes_on(pass, step),
{
    match pass.stage() {
        Stage::Request { backend, path_and_query } => {
            let text = option_text(path_and_query);
            let uri = target_uri(backend@, text);
            law_the_target_keeps_the_path(backend@, text);
            assert(goes_to_backend(pass, backend@, path_and_query, uri, step));
        },
        Stage::Response { status, headers, body } => {
            if step is HeaderOverflow {
                law_an_overflow_is_a_refusal(headers, pass.added().pairs());
            }
        },
    }
}

/// Whether a step is what the next plugin's turn comes to, after some that lack the
/// hook.
pub open spec fn comes_to(pass: HookPass, later: HookPass, step: Step) -> bool {
    let plugins = pass.snapshot().plugins@;
    let from = pass.passed().len() as int;
    let to = later.passed().len() as int;
    &&& later.snapshot() == pass.snapshot()
    &&& later.stage() == pass.stage()
    &&& later.input() == pass.input()
    &&& later.base() == pass.base()
    &&& later.added() == pass.added()
    &&& from <= to <= plugins.len()
    &&& forall|i: int| 0 <= i < from ==> #[trigger] later.passed()[i] == pass.passed()[i]
    &&& forall|i: int|
        from <= i < to ==> #[trigger] later.passed()[i] == Passed::Skipped && heard(
            plugins[i],
            pass.stage(),
            pass.input(),
            Ok(None),
        )
    &&& if to == plugins.len() {
        goes_on(later, step)
    } else {
        match step {
            Step::Decode(pending) => {
                &&& pending.pass() == later
                &&& heard(plugins[to], pass.stage(), pass.input(), Ok(Some(pending.reply())))
            },
            _ => {
                &&& tells(step, 500, "plugin error"@)
                &&& exists|e: PluginError| #[trigger]
                    heard(plugins[to], pass.stage(), pass.input(), Err(e))
            },
        }
    }
}

/// Plugins are run in order, from the first that has not been. One that lacks the hook
/// is passed over; the first that replies has its reply decoded; the first that fails
/// ends the request with a 500; after the last the pass goes on.
pub proof fn law_plugins_take_turns(pass: HookPass, step: Step)
    requires
        runs_to(pass, step),
    ensures
        exists|later: HookPass| #[trigger] comes_to(pass, later, step),
{
    let later = choose|later: HookPass| #[trigger]
        skips_to(pass, later) && takes_turn(later, step);
    let plugins = pass.snapshot().plugins@;
    let from = pass.passed().len() as int;
    let to = later.passed().len() as int;
    later.lemma_valid();
    assert(may_all_pass(plugins, pass.stage().hook(), pass.input(), later.passed()));
    assert forall|i: int| 0 <= i < from implies #[trigger] later.passed()[i] == pass.passed()[i]
        by {
        assert(pass.passed() == later.passed().subrange(0, from));
    }
    assert forall|i: int| from <= i < to implies #[trigger] later.passed()[i] == Passed::Skipped
        && heard(plugins[i], pass.stage(), pass.input(), Ok(None)) by {
        law_passed_plugins_were_heard(later, i);
    }
    if to == plugins.len() {
        law_a_pass_goes_on(later, step);
    } else if step is Respond {
        let e = choose|e: PluginError| #[trigger]
            hook_may_reply(plugins[to].code(), later.stage().hook(), later.input(), Err(e));
        assert(heard(plugins[to], pass.stage(), pass.input(), Err(e)));
    }
    assert(comes_to(pass, later, step));
}

// ---------------------------------------------------------------------------
// A plugin's decision
// ---------------------------------------------------------------------------
/// A reply that is no decision ends the request with a 500. Leave to go on makes the
/// next plugin's turn, with the plugin's headers over the earlier ones. A block ends
/// the request with the plugin's text and its status, or with 403 or 502 where that is
/// no status; on a request it is counted.
pub proof fn law_a_decision_is_carried_out(
    pending: PendingDecision,
    decision: Option<PluginDecision>,
    before: Metrics,
    after: Metrics,
    step: Step,
)
    requires
        decides(pending, decision, before, after, step),
    ensures
        grown(
            before,
            0,
            if decision matches Some(PluginDecision::Block { .. }) && pending.pass().stage()
                is Request {
                1
            } else {
                0
            },
            0,
            0,
            after,
        ),
        decision is None ==> tells(step, 500, "plugin error"@),
        decision matches Some(PluginDecision::Block { status, body }) ==> {
            &&& 100 <= status <= 999 ==> tells(step, status as int, body@)
            &&& !(100 <= status <= 999) && pending.pass().stage() is Request ==> tells(
                step,
                403,
                body@,
            )
            &&& !(100 <= status <= 999) && pending.pass().stage() is Response ==> tells(
                step,
                502,
                body@,
            )
        },
        decision matches Some(PluginDecision::Continue { add_headers }) ==> {
            &&& step matches Step::RunHooks(next)
            &&& next.snapshot() == pending.pass().snapshot()
            &&& next.stage() == pending.pass().stage()
            &&& next.input() == pending.pass().input()
            &&& next.base() == pending.pass().base()
            &&& next.passed().len() == pending.pass().passed().len() + 1
            &&& forall|i: int|
                0 <= i < pending.pass().passed().len() ==> #[trigger] next.passed()[i]
                    == pending.pass().passed()[i]
            &&& next.passed().last() == (Passed::Continued {
                reply: pending.reply(),
                add_headers: add_headers@,
            })
            &&& forall|name: Seq<char>| #[trigger]
                next.added()@.dom().contains(name) == (add_headers@.dom().contains(name)
                    || pending.pass().added()@.dom().contains(name))
            &&& forall|name: Seq<char>|
                next.added()@.dom().contains(name) ==> #[trigger] next.added()@[name] == (
                if add_headers@.dom().contains(name) {
                    add_headers@[name]
                } else {
                    pending.pass().added()@[name]
                })
        },
{
    law_each_event_has_its_counter(before);
}

// ---------------------------------------------------------------------------
// The backend's response
// ---------------------------------------------------------------------------
/// A backend that cannot be reached or is late is counted and answered with 502 or
/// 504, a request that turned out too long with 413. A response is refused with 502
/// exactly where it declares a length above the configured limit; of any other the
/// body is to be read.
pub proof fn law_a_backend_reply_is_carried_on(
    forwarding: Forwarding,
    reply: BackendReply,
    before: Metrics,
    after: Metrics,
    step: Step,
)
    requires
        replies(forwarding, reply, before, after, step),
    ensures
        reply is Unreachable ==> tells(step, 502, "backend unreachable"@) && grown(
            before,
            0,
            0,
            1,
            0,
            after,
        ),
        reply is TimedOut ==> tells(step, 504, "backend timeout"@) && grown(
            before,
            0,
            0,
            0,
            1,
            after,
        ),
        reply is RequestTooLarge ==> tells(step, 413, "request body too large"@) && grown(
            before,
            0,
            0,
            0,
            0,
            after,
        ),
        reply matches BackendReply::Answered { status, headers } ==> {
            &&& grown(before, 0, 0, 0, 0, after)
            &&& if exists|n: u64| #[trigger] declares(headers, n) && n
                > forwarding.snapshot().config.max_body_bytes {
                tells(step, 502, "backend response too large"@)
            } else {
                &&& step matches Step::ReadBody(reading)
                &&& reading.snapshot() == forwarding.snapshot()
                &&& reading.status() == status
                &&& reading.headers() == headers
                &&& reading.added() == forwarding.added()
            }
        },
{
    law_each_event_has_its_counter(before);
    if let BackendReply::Answered { status, headers } = reply {
        law_too_large_is_above_the_limit(headers, forwarding.snapshot().config.max_body_bytes);
    }
}

/// A body that cannot be read is answered with 502, and so is one that is longer than
/// the configured limit. Any other response is handed to the plugins, with its own
/// status, headers and body, and the plugins are shown its status and the last text of
/// each of its headers.
pub proof fn law_a_read_body_is_carried_on(reading: Reading, body: Option<Vec<u8>>, step: Step)
    requires
        reads(reading, body, step),
    ensures
        body is None ==> tells(step, 502, "backend read error"@),
        body matches Some(bytes) ==> if bytes@.len()
            > reading.snapshot().config.max_body_bytes as int {
            tells(step, 502, "backend response too large"@)
        } else {
            &&& step matches Step::RunHooks(pass)
            &&& pass.snapshot() == reading.snapshot()
            &&& pass.stage() matches Stage::Response { status, headers, body: kept }
            &&& status == reading.status()
            &&& headers == reading.headers()
            &&& kept@ == bytes@
            &&& pass.passed().len() == 0
            &&& pass.added() == reading.added()
            &&& pass.base() == reading.added()@
            &&& exists|pairs: Seq<(Seq<char>, Seq<char>)>| #[trigger]
                shows_response(pass.input(), reading.status(), reading.headers(), pairs)
        },
{
    if let Step::RunHooks(pass) = step {
        law_a_response_is_shown_whole(pass.input(), reading.status(), reading.headers());
    }
}

} // verus!

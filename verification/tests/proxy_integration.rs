//! Requests from end to end, with WebAssembly modules assembled here and a
//! backend that the test plays.

use hyper::header::{HeaderName, HeaderValue};
use hyper::HeaderMap;
use std::sync::Arc;
use wasm_proxy::admin_guard;
use wasm_proxy::config::{Config, Route};
use wasm_proxy::error_masker;
use wasm_proxy::guest::NO_MEMORY;
use wasm_proxy::hot_reload::{reload, ReloadOutcome};
use wasm_proxy::plugin::{
    load_plugins, plugin_sources, Plugin, PluginDecision, PluginError, PluginRequestContext,
    PluginResponseContext, PluginSource,
};
use wasm_proxy::proxy::{
    build_target_uri, handle_request, text_response, BackendReply, ProxyResponse, ProxySnapshot,
    ProxyState, RequestHead, Step,
};
use wasm_proxy::string_map::StringMap;

// ---------------------------------------------------------------------------
// Assembling modules
// ---------------------------------------------------------------------------

/// `(i32) -> i32`
const ALLOC: u8 = 0;
/// `(i32, i32) -> i64`
const HOOK: u8 = 1;
/// `(i32, i32) -> i32`
const FILTER: u8 = 2;
/// `(i32, i32, i32, i32) -> i32`
const SEARCH: u8 = 3;
/// `() -> ()`
const START: u8 = 4;

struct Function {
    kind: u8,
    export: &'static str,
    locals: u8,
    code: Vec<u8>,
}

struct Assembly {
    memory_pages: Option<u8>,
    import: bool,
    start: Option<u8>,
    functions: Vec<Function>,
    data: Vec<(i64, Vec<u8>)>,
}

fn uleb(mut n: usize) -> Vec<u8> {
    let mut out = Vec::new();
    loop {
        let low = (n & 0x7f) as u8;
        n >>= 7;
        if n == 0 {
            out.push(low);
            return out;
        }
        out.push(low | 0x80);
    }
}

fn sleb(mut n: i64) -> Vec<u8> {
    let mut out = Vec::new();
    loop {
        let low = (n & 0x7f) as u8;
        n >>= 7;
        if (n == 0 && low & 0x40 == 0) || (n == -1 && low & 0x40 != 0) {
            out.push(low);
            return out;
        }
        out.push(low | 0x80);
    }
}

fn sized(bytes: Vec<u8>) -> Vec<u8> {
    let mut out = uleb(bytes.len());
    out.extend(bytes);
    out
}

fn section(id: u8, entries: Vec<Vec<u8>>) -> Vec<u8> {
    if entries.is_empty() {
        return Vec::new();
    }
    let mut content = uleb(entries.len());
    for entry in entries {
        content.extend(entry);
    }
    let mut out = vec![id];
    out.extend(sized(content));
    out
}

fn i32_const(n: i64) -> Vec<u8> {
    let mut out = vec![0x41];
    out.extend(sleb(n));
    out
}

fn i64_const(n: i64) -> Vec<u8> {
    let mut out = vec![0x42];
    out.extend(sleb(n));
    out
}

fn join(parts: &[Vec<u8>]) -> Vec<u8> {
    parts.concat()
}

impl Assembly {
    fn new() -> Assembly {
        Assembly {
            memory_pages: Some(1),
            import: false,
            start: None,
            functions: Vec::new(),
            data: Vec::new(),
        }
    }

    fn function(mut self, kind: u8, export: &'static str, locals: u8, code: Vec<u8>) -> Assembly {
        self.functions.push(Function { kind, export, locals, code });
        self
    }

    /// `alloc` that returns a fixed address.
    fn alloc_at(self, address: i64) -> Assembly {
        self.function(ALLOC, "alloc", 0, i32_const(address))
    }

    fn data(mut self, address: i64, bytes: &[u8]) -> Assembly {
        self.data.push((address, bytes.to_vec()));
        self
    }

    fn bytes(&self) -> Vec<u8> {
        let types = vec![
            vec![0x60, 1, 0x7f, 1, 0x7f],
            vec![0x60, 2, 0x7f, 0x7f, 1, 0x7e],
            vec![0x60, 2, 0x7f, 0x7f, 1, 0x7f],
            vec![0x60, 4, 0x7f, 0x7f, 0x7f, 0x7f, 1, 0x7f],
            vec![0x60, 0, 0],
        ];
        let mut imports = Vec::new();
        if self.import {
            imports.push(vec![1, b'h', 1, b'f', 0x00, START]);
        }
        let shift = imports.len() as u8;
        let mut kinds = Vec::new();
        let mut exports = Vec::new();
        let mut bodies = Vec::new();
        if self.memory_pages.is_some() {
            let mut entry = sized(b"memory".to_vec());
            entry.extend([0x02, 0]);
            exports.push(entry);
        }
        for (i, function) in self.functions.iter().enumerate() {
            kinds.push(vec![function.kind]);
            if !function.export.is_empty() {
                let mut entry = sized(function.export.as_bytes().to_vec());
                entry.extend([0x00, i as u8 + shift]);
                exports.push(entry);
            }
            let mut body = if function.locals == 0 {
                vec![0]
            } else {
                vec![1, function.locals, 0x7f]
            };
            body.extend(&function.code);
            body.push(0x0b);
            bodies.push(sized(body));
        }
        let memories = match self.memory_pages {
            Some(pages) => vec![vec![0x00, pages]],
            None => Vec::new(),
        };
        let data = self
            .data
            .iter()
            .map(|(address, bytes)| {
                join(&[vec![0x00], i32_const(*address), vec![0x0b], sized(bytes.clone())])
            })
            .collect();
        let start = match self.start {
            Some(index) => vec![8, 1, index + shift],
            None => Vec::new(),
        };
        join(&[
            vec![0x00, 0x61, 0x73, 0x6d, 1, 0, 0, 0],
            section(1, types),
            section(2, imports),
            section(3, kinds),
            section(5, memories),
            section(7, exports),
            start,
            section(10, bodies),
            section(11, data),
        ])
    }

    fn source(&self, path: &str) -> PluginSource {
        PluginSource { path: path.to_string(), code: Some(self.bytes()) }
    }

    fn load(&self, path: &str) -> Plugin {
        match Plugin::load(&self.source(path)) {
            Ok(plugin) => plugin,
            Err(e) => panic!("{path}: {e:?}"),
        }
    }
}

fn packed(address: i64, len: usize) -> i64 {
    (address << 32) | len as i64
}

/// A search for a byte string: parameters 0 to 3 are where the text stands, its
/// length, where the byte string stands and its length.
fn search_code() -> Vec<u8> {
    join(&[
        vec![0x02, 0x40, 0x03, 0x40],
        // past the end: leave
        vec![0x20, 4, 0x20, 3, 0x6a, 0x20, 1, 0x4b, 0x0d, 1],
        vec![0x41, 0, 0x21, 5],
        vec![0x02, 0x40, 0x03, 0x40],
        // all bytes agree: found
        vec![0x20, 5, 0x20, 3, 0x46, 0x04, 0x40, 0x41, 1, 0x0f, 0x0b],
        vec![0x20, 0, 0x20, 4, 0x6a, 0x20, 5, 0x6a, 0x2d, 0, 0],
        vec![0x20, 2, 0x20, 5, 0x6a, 0x2d, 0, 0],
        vec![0x47, 0x0d, 1],
        vec![0x20, 5, 0x41, 1, 0x6a, 0x21, 5, 0x0c, 0],
        vec![0x0b, 0x0b],
        vec![0x20, 4, 0x41, 1, 0x6a, 0x21, 4, 0x0c, 0],
        vec![0x0b, 0x0b],
        vec![0x41, 0],
    ])
}

const CONTINUE: &[u8] = b"{\"action\":\"continue\"}";
const CHECKED: &[u8] =
    b"{\"action\":\"continue\",\"add_headers\":{\"x-plugin-checked\":\"admin_guard\"}}";
const REFUSED: &[u8] =
    b"{\"action\":\"block\",\"status\":403,\"body\":\"missing or invalid api key\"}";
const MASKED: &[u8] = b"{\"action\":\"block\",\"status\":502,\"body\":\"upstream error\"}";

/// Where a reply is kept.
const REPLY: i64 = 2048;

/// `/admin` takes the header `x-api-key: secret123`.
fn admin_guard_module() -> Assembly {
    let path: &[u8] = b"\"path\":\"/admin\"";
    let key: &[u8] = b"\"x-api-key\":\"secret123\"";
    let found = |at: i64, len: usize| {
        join(&[vec![0x20, 0, 0x20, 1], i32_const(at), i32_const(len as i64), vec![0x10, 1]])
    };
    Assembly::new()
        .alloc_at(8192)
        .function(SEARCH, "", 2, search_code())
        .function(
            HOOK,
            "filter_request",
            0,
            join(&[
                found(1024, path.len()),
                vec![0x04, 0x7e],
                found(1100, key.len()),
                vec![0x04, 0x7e],
                i64_const(packed(REPLY + 200, CHECKED.len())),
                vec![0x05],
                i64_const(packed(REPLY + 400, REFUSED.len())),
                vec![0x0b, 0x05],
                i64_const(packed(REPLY, CONTINUE.len())),
                vec![0x0b],
            ]),
        )
        .data(1024, path)
        .data(1100, key)
        .data(REPLY, CONTINUE)
        .data(REPLY + 200, CHECKED)
        .data(REPLY + 400, REFUSED)
}

/// Masks a response whose status begins with a 5 or more.
fn error_masker_module() -> Assembly {
    Assembly::new()
        .alloc_at(8192)
        .function(
            HOOK,
            "filter_response",
            0,
            join(&[
                vec![0x20, 0, 0x2d, 0, 10],
                i32_const(i64::from(b'5')),
                vec![0x4f, 0x04, 0x7e],
                i64_const(packed(REPLY + 200, MASKED.len())),
                vec![0x05],
                i64_const(packed(REPLY, CONTINUE.len())),
                vec![0x0b],
            ]),
        )
        .data(REPLY, CONTINUE)
        .data(REPLY + 200, MASKED)
}

/// Refuses the path `/admin` and no other.
fn admin_blocker_module() -> Assembly {
    Assembly::new()
        .alloc_at(1024)
        .function(SEARCH, "", 2, search_code())
        .function(
            FILTER,
            "filter_request",
            0,
            vec![
                0x20, 1, 0x41, 6, 0x46, 0x20, 0, 0x20, 1, 0x41, 16, 0x41, 6, 0x10, 1, 0x71,
            ],
        )
        .data(16, b"/admin")
}

/// A module whose hook always gives the same reply.
fn constant_module(hook: &'static str, reply: &[u8]) -> Assembly {
    Assembly::new()
        .alloc_at(8192)
        .function(HOOK, hook, 0, i64_const(packed(REPLY, reply.len())))
        .data(REPLY, reply)
}

/// A module whose hook replies with its input.
fn echo_module(hook: &'static str) -> Assembly {
    Assembly::new().alloc_at(64).function(
        HOOK,
        hook,
        0,
        vec![0x20, 0, 0xad, 0x42, 32, 0x86, 0x20, 1, 0xad, 0x84],
    )
}

// ---------------------------------------------------------------------------
// Playing the outside
// ---------------------------------------------------------------------------

fn decode(reply: &[u8]) -> Option<PluginDecision> {
    let value: serde_json::Value = serde_json::from_slice(reply).ok()?;
    match value.get("action")?.as_str()? {
        "continue" => {
            let mut add_headers = StringMap::new();
            if let Some(headers) = value.get("add_headers") {
                for (name, text) in headers.as_object()? {
                    add_headers.insert(name.clone(), text.as_str()?.to_string());
                }
            }
            Some(PluginDecision::Continue { add_headers })
        }
        "block" => {
            let status = u16::try_from(value.get("status")?.as_u64()?).ok()?;
            let body = match value.get("body") {
                Some(body) => body.as_str()?.to_string(),
                None => String::new(),
            };
            Some(PluginDecision::Block { status, body })
        }
        _ => None,
    }
}

fn header_map(headers: &[(&str, &str)]) -> HeaderMap {
    let mut map = HeaderMap::new();
    for (name, value) in headers {
        map.append(
            HeaderName::from_bytes(name.as_bytes()).unwrap(),
            HeaderValue::from_str(value).unwrap(),
        );
    }
    map
}

fn answer(status: u16, headers: &[(&str, &str)], body: &[u8]) -> (BackendReply, Option<Vec<u8>>) {
    (BackendReply::Answered { status, headers: header_map(headers) }, Some(body.to_vec()))
}

/// Carries a request through. `backend` is told the URI and the time it has.
fn serve<F>(
    state: &mut ProxyState,
    method: &str,
    path: &str,
    headers: &[(&str, &str)],
    backend: F,
) -> ProxyResponse
where
    F: Fn(&str, u64) -> (BackendReply, Option<Vec<u8>>),
{
    let map = header_map(headers);
    let head = RequestHead {
        method,
        path,
        path_and_query: Some(path.to_string()),
        headers: &map,
    };
    let mut body = None;
    let mut step = handle_request(state, &head);
    loop {
        step = match step {
            Step::Respond(response) => return response,
            Step::RunHooks(pass) => pass.run(),
            Step::Decode(pending) => {
                let decision = decode(pending.reply_json());
                pending.decided(&mut state.metrics, decision)
            }
            Step::Forward(forwarding) => {
                let (reply, content) = backend(forwarding.target(), forwarding.timeout_ms());
                body = content;
                forwarding.replied(&mut state.metrics, reply)
            }
            Step::ReadBody(reading) => reading.body_read(body.take()),
            Step::HeaderOverflow => panic!("too many headers"),
        };
    }
}

fn not_reached(_uri: &str, _timeout: u64) -> (BackendReply, Option<Vec<u8>>) {
    panic!("the backend must not be reached")
}

fn config_with_routes(routes: Vec<Route>) -> Config {
    Config {
        listen_addr: "127.0.0.1:0".to_string(),
        routes,
        plugins: Vec::new(),
        request_timeout_ms: 5_000,
        max_body_bytes: 10 * 1024 * 1024,
    }
}

fn route(path_prefix: &str, backend: &str) -> Route {
    Route { path_prefix: path_prefix.to_string(), backend: backend.to_string() }
}

fn proxy_to(backend: &str, plugins: Vec<Plugin>) -> ProxyState {
    ProxyState::new(config_with_routes(vec![route("/", backend)]), plugins)
}

// ---------------------------------------------------------------------------
// Scenarios
// ---------------------------------------------------------------------------

#[test]
fn admin_route_without_key_is_blocked() {
    let mut state =
        proxy_to("http://127.0.0.1:9002", vec![admin_guard_module().load("admin_guard.wasm")]);
    let resp = serve(&mut state, "GET", "/admin", &[], |_, _| {
        answer(200, &[], b"should not be reached")
    });
    assert_eq!(resp.status, 403);
    assert_eq!(resp.body, b"missing or invalid api key");
    assert_eq!(state.metrics.requests_total, 1);
    assert_eq!(state.metrics.requests_blocked_by_plugin, 1);
}

#[test]
fn admin_route_with_wrong_key_is_blocked() {
    let mut state =
        proxy_to("http://127.0.0.1:9002", vec![admin_guard_module().load("admin_guard.wasm")]);
    let resp = serve(&mut state, "GET", "/admin", &[("x-api-key", "wrong")], |_, _| {
        answer(200, &[], b"should not be reached")
    });
    assert_eq!(resp.status, 403);
}

#[test]
fn admin_route_with_correct_key_passes_through() {
    let mut state =
        proxy_to("http://127.0.0.1:9002", vec![admin_guard_module().load("admin_guard.wasm")]);
    let resp = serve(&mut state, "GET", "/admin", &[("x-api-key", "secret123")], |uri, _| {
        assert_eq!(uri, "http://127.0.0.1:9002/admin");
        answer(200, &[], b"admin panel")
    });
    assert_eq!(resp.status, 200);
    assert_eq!(resp.body, b"admin panel");
    assert_eq!(resp.headers.get("x-plugin-checked").unwrap(), "admin_guard");
    assert_eq!(state.metrics.requests_blocked_by_plugin, 0);
}

#[test]
fn non_admin_route_is_unaffected_by_admin_guard() {
    let mut state =
        proxy_to("http://127.0.0.1:9002", vec![admin_guard_module().load("admin_guard.wasm")]);
    let resp =
        serve(&mut state, "GET", "/api/users", &[], |_, _| answer(200, &[], b"users list"));
    assert_eq!(resp.status, 200);
    assert_eq!(resp.body, b"users list");
    assert!(resp.headers.is_empty());
}

#[test]
fn backend_5xx_is_masked_by_error_masker() {
    let mut state =
        proxy_to("http://127.0.0.1:9002", vec![error_masker_module().load("error_masker.wasm")]);
    let resp = serve(&mut state, "GET", "/anything", &[], |_, _| {
        answer(503, &[], b"panic: internal stack trace at db.rs:42")
    });
    assert_eq!(resp.status, 502);
    assert_eq!(resp.body, b"upstream error");
    // A masked response is no blocked request.
    assert_eq!(state.metrics.requests_blocked_by_plugin, 0);
}

#[test]
fn unmatched_route_returns_404() {
    let config = config_with_routes(vec![route("/api", "http://127.0.0.1:9001")]);
    let mut state = ProxyState::new(config, Vec::new());
    let resp = serve(&mut state, "GET", "/other", &[], not_reached);
    assert_eq!(resp.status, 404);
    assert_eq!(resp.body, b"no matching route");
}

#[test]
fn unreachable_backend_returns_502() {
    let mut state = proxy_to("http://127.0.0.1:1", Vec::new());
    let resp =
        serve(&mut state, "GET", "/anything", &[], |_, _| (BackendReply::Unreachable, None));
    assert_eq!(resp.status, 502);
    assert_eq!(resp.body, b"backend unreachable");
    assert_eq!(state.metrics.backend_errors_total, 1);
    assert_eq!(state.metrics.backend_timeouts_total, 0);
}

#[test]
fn slow_backend_times_out_with_504() {
    let mut config = config_with_routes(vec![route("/", "http://127.0.0.1:9002")]);
    config.request_timeout_ms = 100;
    let mut state = ProxyState::new(config, Vec::new());
    let resp = serve(&mut state, "GET", "/anything", &[], |_, timeout_ms| {
        assert_eq!(timeout_ms, 100);
        if timeout_ms < 500 {
            (BackendReply::TimedOut, None)
        } else {
            answer(200, &[], b"too late")
        }
    });
    assert_eq!(resp.status, 504);
    assert_eq!(resp.body, b"backend timeout");
    assert_eq!(state.metrics.backend_timeouts_total, 1);
    assert_eq!(state.metrics.backend_errors_total, 0);
}

#[test]
fn oversized_request_body_is_rejected() {
    let mut config = config_with_routes(vec![route("/", "http://127.0.0.1:9002")]);
    config.max_body_bytes = 10;
    let mut state = ProxyState::new(config, Vec::new());
    let resp = serve(&mut state, "POST", "/upload", &[("content-length", "1024")], not_reached);
    assert_eq!(resp.status, 413);
    assert_eq!(resp.body, b"request body too large");
}

#[test]
fn a_request_body_that_turns_out_too_large_is_rejected() {
    let mut config = config_with_routes(vec![route("/", "http://127.0.0.1:9002")]);
    config.max_body_bytes = 10;
    let mut state = ProxyState::new(config, Vec::new());
    let headers = HeaderMap::new();
    let head = RequestHead { method: "POST", path: "/", path_and_query: None, headers: &headers };
    let pass = match handle_request(&mut state, &head) {
        Step::RunHooks(pass) => pass,
        _ => panic!("the plugins come next"),
    };
    let forwarding = match pass.run() {
        Step::Forward(forwarding) => forwarding,
        _ => panic!("the request goes to its backend"),
    };
    assert_eq!(forwarding.body_limit(), 10);
    match forwarding.replied(&mut state.metrics, BackendReply::RequestTooLarge) {
        Step::Respond(resp) => {
            assert_eq!(resp.status, 413);
            assert_eq!(resp.body, b"request body too large");
            assert!(!resp.relayed);
        }
        _ => panic!("the request is refused"),
    }
    assert_eq!(state.metrics.backend_errors_total, 0);
    assert_eq!(state.metrics.backend_timeouts_total, 0);
}

#[test]
fn a_request_body_of_the_limit_is_forwarded() {
    let mut config = config_with_routes(vec![route("/", "http://127.0.0.1:9002")]);
    config.max_body_bytes = 10;
    let mut state = ProxyState::new(config, Vec::new());
    let resp = serve(&mut state, "POST", "/upload", &[("content-length", "10")], |_, _| {
        answer(200, &[], b"0123456789")
    });
    assert_eq!(resp.status, 200);
    assert_eq!(resp.body, b"0123456789");
}

#[test]
fn oversized_responses_are_refused() {
    let mut config = config_with_routes(vec![route("/", "http://127.0.0.1:9002")]);
    config.max_body_bytes = 10;
    let mut state = ProxyState::new(config, Vec::new());
    let declared = serve(&mut state, "GET", "/", &[], |_, _| {
        answer(200, &[("content-length", "11")], b"")
    });
    assert_eq!(declared.status, 502);
    assert_eq!(declared.body, b"backend response too large");
    let measured = serve(&mut state, "GET", "/", &[], |_, _| answer(200, &[], b"01234567890"));
    assert_eq!(measured.status, 502);
    assert_eq!(measured.body, b"backend response too large");
    assert_eq!(state.metrics.backend_errors_total, 0);
}

#[test]
fn an_unreadable_response_body_returns_502() {
    let mut state = proxy_to("http://127.0.0.1:9002", Vec::new());
    let resp = serve(&mut state, "GET", "/", &[], |_, _| {
        (BackendReply::Answered { status: 200, headers: HeaderMap::new() }, None)
    });
    assert_eq!(resp.status, 502);
    assert_eq!(resp.body, b"backend read error");
}

#[test]
fn an_invalid_backend_uri_returns_502() {
    let mut state = proxy_to("http://bad host", Vec::new());
    let resp = serve(&mut state, "GET", "/x", &[], not_reached);
    assert_eq!(resp.status, 502);
    assert_eq!(resp.body, b"invalid backend URI");
}

#[test]
fn metrics_are_answered_without_a_route() {
    let config = config_with_routes(vec![route("/api", "http://127.0.0.1:9001")]);
    let mut state = ProxyState::new(config, vec![constant_module("filter_request", REFUSED).load("p")]);
    let resp = serve(&mut state, "GET", "/__metrics", &[], not_reached);
    assert_eq!(resp.status, 200);
    assert_eq!(resp.headers.get("content-type").unwrap(), "text/plain; version=0.0.4");
    let text = String::from_utf8(resp.body).unwrap();
    assert!(text.contains("\nwasm_proxy_requests_total 1\n"));
    assert!(text.contains("\nwasm_proxy_requests_blocked_by_plugin_total 0\n"));
    // The path alone counts, and only in full.
    let other = serve(&mut state, "GET", "/__metrics/", &[], not_reached);
    assert_eq!(other.status, 404);
}

#[test]
fn without_plugins_a_response_passes_as_it_is() {
    let mut state = proxy_to("http://127.0.0.1:9002", Vec::new());
    let resp = serve(&mut state, "GET", "/a?b=c", &[], |uri, _| {
        assert_eq!(uri, "http://127.0.0.1:9002/a?b=c");
        answer(418, &[("set-cookie", "a=1"), ("set-cookie", "b=2")], b"\x00\xffbody")
    });
    assert_eq!(resp.status, 418);
    assert_eq!(resp.body, b"\x00\xffbody");
    let cookies: Vec<_> = resp.headers.get_all("set-cookie").iter().collect();
    assert_eq!(cookies, ["a=1", "b=2"]);
    assert_eq!(resp.headers.len(), 2);
    assert!(resp.relayed);
}

#[test]
fn a_request_takes_a_bounded_number_of_steps() {
    let plugins = vec![
        constant_module("filter_request", CONTINUE).load("0"),
        constant_module("filter_response", CONTINUE).load("1"),
        constant_module("filter_request", CHECKED).load("2"),
    ];
    let bound = 4 * plugins.len() + 5;
    let mut state = proxy_to("http://127.0.0.1:9002", plugins);
    let headers = HeaderMap::new();
    let head = RequestHead { method: "GET", path: "/", path_and_query: None, headers: &headers };
    let mut step = handle_request(&mut state, &head);
    let mut steps = 1;
    let mut calls = 0;
    loop {
        step = match step {
            Step::RunHooks(pass) => pass.run(),
            Step::Decode(pending) => {
                let decision = decode(pending.reply_json());
                pending.decided(&mut state.metrics, decision)
            }
            Step::Forward(forwarding) => {
                calls += 1;
                let (reply, _) = answer(200, &[], b"");
                forwarding.replied(&mut state.metrics, reply)
            }
            Step::ReadBody(reading) => reading.body_read(Some(Vec::new())),
            Step::Respond(resp) => {
                assert!(resp.relayed);
                break;
            }
            Step::HeaderOverflow => panic!("too many headers"),
        };
        steps += 1;
    }
    assert_eq!(calls, 1);
    assert_eq!(steps, 11);
    assert!(steps <= bound);
}

#[test]
fn the_counters_add_up_over_many_requests() {
    let mut state =
        proxy_to("http://127.0.0.1:9002", vec![admin_guard_module().load("admin_guard.wasm")]);
    // A request that is on its way while others come and go.
    let headers = HeaderMap::new();
    let head = RequestHead { method: "GET", path: "/", path_and_query: None, headers: &headers };
    let open = match handle_request(&mut state, &head) {
        Step::RunHooks(pass) => pass,
        _ => panic!("the plugins come next"),
    };
    for _ in 0..2 {
        serve(&mut state, "GET", "/admin", &[], not_reached);
    }
    for _ in 0..3 {
        serve(&mut state, "GET", "/x", &[], |_, _| (BackendReply::Unreachable, None));
    }
    for _ in 0..4 {
        serve(&mut state, "GET", "/x", &[], |_, _| (BackendReply::TimedOut, None));
    }
    serve(&mut state, "GET", "/x", &[], |_, _| answer(200, &[], b"ok"));
    serve(&mut state, "GET", "/x", &[("content-length", "99999999")], not_reached);
    state.replace_snapshot(ProxySnapshot {
        config: config_with_routes(vec![route("/api", "http://127.0.0.1:9001")]),
        plugins: Vec::new(),
    });
    serve(&mut state, "GET", "/x", &[], not_reached);
    let pending = match open.run() {
        Step::Decode(pending) => pending,
        _ => panic!("the plugin replies"),
    };
    let decision = decode(pending.reply_json());
    match pending.decided(&mut state.metrics, decision) {
        Step::RunHooks(_) => {}
        _ => panic!("the plugin lets the request pass"),
    }
    let resp = serve(&mut state, "GET", "/__metrics", &[], not_reached);
    let text = String::from_utf8(resp.body).unwrap();
    assert!(text.contains("\nwasm_proxy_requests_total 14\n"));
    assert!(text.contains("\nwasm_proxy_requests_blocked_by_plugin_total 2\n"));
    assert!(text.contains("\nwasm_proxy_backend_errors_total 3\n"));
    assert!(text.contains("\nwasm_proxy_backend_timeouts_total 4\n"));
}

#[test]
fn a_snapshot_that_was_taken_stays_as_it_was() {
    let mut state = proxy_to("http://127.0.0.1:9001", Vec::new());
    state.metrics.count_request();
    let taken = Arc::clone(&state.snapshot);
    state.replace_snapshot(ProxySnapshot {
        config: config_with_routes(vec![route("/", "http://127.0.0.1:9999")]),
        plugins: vec![constant_module("filter_request", REFUSED).load("p")],
    });
    assert_eq!(taken.config.routes[0].backend, "http://127.0.0.1:9001");
    assert!(taken.plugins.is_empty());
    assert_eq!(state.snapshot.config.routes[0].backend, "http://127.0.0.1:9999");
    assert_eq!(state.snapshot.plugins.len(), 1);
    assert_eq!(state.metrics.requests_total, 1);
}

#[test]
fn the_first_block_wins() {
    let first = constant_module("filter_request", b"{\"action\":\"block\",\"status\":401}");
    let second = constant_module("filter_request", REFUSED);
    let trap = Assembly::new().alloc_at(64).function(HOOK, "filter_request", 0, vec![0x00]);
    let mut state = proxy_to(
        "http://127.0.0.1:9002",
        vec![
            constant_module("filter_request", CHECKED).load("0"),
            first.load("1"),
            second.load("2"),
            trap.load("3"),
        ],
    );
    let resp = serve(&mut state, "GET", "/", &[], not_reached);
    assert_eq!(resp.status, 401);
    assert_eq!(resp.body, b"");
    assert!(resp.headers.is_empty());
    assert_eq!(state.metrics.requests_blocked_by_plugin, 1);
}

#[test]
fn a_block_with_an_invalid_status_falls_back() {
    let odd: &[u8] = b"{\"action\":\"block\",\"status\":42,\"body\":\"odd\"}";
    let mut state =
        proxy_to("http://127.0.0.1:9002", vec![constant_module("filter_request", odd).load("p")]);
    let resp = serve(&mut state, "GET", "/", &[], not_reached);
    assert_eq!(resp.status, 403);
    assert_eq!(resp.body, b"odd");
    let mut state =
        proxy_to("http://127.0.0.1:9002", vec![constant_module("filter_response", odd).load("p")]);
    let resp = serve(&mut state, "GET", "/", &[], |_, _| answer(200, &[], b"fine"));
    assert_eq!(resp.status, 502);
    assert_eq!(resp.body, b"odd");
}

#[test]
fn a_failing_plugin_ends_the_request() {
    let trap = |hook| Assembly::new().alloc_at(64).function(HOOK, hook, 0, vec![0x00]);
    let mut state = proxy_to("http://127.0.0.1:9002", vec![trap("filter_request").load("p")]);
    let resp = serve(&mut state, "GET", "/", &[], not_reached);
    assert_eq!(resp.status, 500);
    assert_eq!(resp.body, b"plugin error");
    assert_eq!(state.metrics.requests_blocked_by_plugin, 0);
    let mut state = proxy_to("http://127.0.0.1:9002", vec![trap("filter_response").load("p")]);
    let resp = serve(&mut state, "GET", "/", &[], |_, _| answer(200, &[], b"fine"));
    assert_eq!(resp.status, 500);
    assert_eq!(resp.body, b"plugin error");
}

#[test]
fn a_reply_that_is_no_decision_ends_the_request() {
    let mut state = proxy_to(
        "http://127.0.0.1:9002",
        vec![constant_module("filter_request", b"{\"action\":\"retry\"}").load("p")],
    );
    let resp = serve(&mut state, "GET", "/", &[], not_reached);
    assert_eq!(resp.status, 500);
    assert_eq!(resp.body, b"plugin error");
}

#[test]
fn added_headers_are_gathered_and_the_later_plugin_decides() {
    let early: &[u8] =
        b"{\"action\":\"continue\",\"add_headers\":{\"x-a\":\"1\",\"x-b\":\"1\",\"x-c\":\"1\"}}";
    let late: &[u8] = b"{\"action\":\"continue\",\"add_headers\":{\"x-b\":\"2\"}}";
    let last: &[u8] =
        b"{\"action\":\"continue\",\"add_headers\":{\"x-c\":\"3\",\"bad name\":\"4\",\"x-d\":\"\\n\"}}";
    let mut state = proxy_to(
        "http://127.0.0.1:9002",
        vec![
            constant_module("filter_request", early).load("early"),
            constant_module("filter_request", late).load("late"),
            constant_module("filter_response", last).load("last"),
        ],
    );
    let resp = serve(&mut state, "GET", "/", &[], |_, _| {
        answer(200, &[("x-a", "0"), ("x-a", "00"), ("x-e", "5")], b"ok")
    });
    assert_eq!(resp.status, 200);
    assert_eq!(resp.body, b"ok");
    let values: Vec<_> = resp.headers.get_all("x-a").iter().collect();
    assert_eq!(values, ["1"]);
    assert_eq!(resp.headers.get("x-b").unwrap(), "2");
    assert_eq!(resp.headers.get("x-c").unwrap(), "3");
    assert_eq!(resp.headers.get("x-e").unwrap(), "5");
    assert_eq!(resp.headers.len(), 4);
}

#[test]
fn a_request_keeps_the_snapshot_it_began_with() {
    let mut state = proxy_to("http://127.0.0.1:9001", Vec::new());
    let headers = HeaderMap::new();
    let head = RequestHead { method: "GET", path: "/", path_and_query: None, headers: &headers };
    let pass = match handle_request(&mut state, &head) {
        Step::RunHooks(pass) => pass,
        _ => panic!("the plugins come next"),
    };
    state.replace_snapshot(ProxySnapshot {
        config: config_with_routes(vec![route("/", "http://127.0.0.1:9999")]),
        plugins: vec![constant_module("filter_request", REFUSED).load("p")],
    });
    match pass.run() {
        Step::Forward(forwarding) => assert_eq!(forwarding.target(), "http://127.0.0.1:9001/"),
        _ => panic!("the request goes to its backend"),
    }
    let resp = serve(&mut state, "GET", "/", &[], not_reached);
    assert_eq!(resp.status, 403);
    assert_eq!(state.metrics.requests_total, 2);
}

#[test]
fn more_headers_than_a_map_can_hold_are_given_up() {
    let mut reply = String::from("{\"action\":\"continue\",\"add_headers\":{\"x\":\"y\"");
    for i in 0..40_000 {
        reply.push_str(&format!(",\"n{i}\":\"v\""));
    }
    reply.push_str("}}");
    let reply = reply.into_bytes();
    let mut module = constant_module("filter_request", &reply);
    module.memory_pages = Some(20);
    module.functions[0].code = i32_const(1_200_000);
    let mut state = proxy_to("http://127.0.0.1:9002", vec![module.load("p")]);
    let headers = HeaderMap::new();
    let head = RequestHead { method: "GET", path: "/", path_and_query: None, headers: &headers };
    let mut step = handle_request(&mut state, &head);
    loop {
        step = match step {
            Step::RunHooks(pass) => pass.run(),
            Step::Decode(pending) => {
                let decision = decode(pending.reply_json());
                pending.decided(&mut state.metrics, decision)
            }
            Step::Forward(forwarding) => forwarding.replied(
                &mut state.metrics,
                BackendReply::Answered { status: 200, headers: HeaderMap::new() },
            ),
            Step::ReadBody(reading) => reading.body_read(Some(Vec::new())),
            Step::HeaderOverflow => return,
            Step::Respond(_) => panic!("the headers cannot all fit"),
        };
    }
}

#[test]
fn target_uris_have_one_slash() {
    let query = Some("/a/b?c=d".to_string());
    assert_eq!(
        build_target_uri("http://h:1/", &query).as_deref(),
        Some("http://h:1/a/b?c=d")
    );
    assert_eq!(build_target_uri("http://h:1///", &None).as_deref(), Some("http://h:1/"));
    assert_eq!(
        build_target_uri("http://h:1/base", &query).as_deref(),
        Some("http://h:1/base/a/b?c=d")
    );
    assert_eq!(build_target_uri("http://h h", &query), None);
}

#[test]
fn text_responses_have_no_headers() {
    let resp = text_response(404, "no matching route");
    assert_eq!(resp.status, 404);
    assert!(resp.headers.is_empty());
    assert_eq!(resp.body, b"no matching route");
}

// ---------------------------------------------------------------------------
// Plugins
// ---------------------------------------------------------------------------

fn reply_of(module: &Assembly, input: &[u8]) -> Result<Option<Vec<u8>>, PluginError> {
    module.load("p").call_hook("filter_request", input)
}

#[test]
fn a_plugin_is_named_by_its_path() {
    assert_eq!(admin_guard_module().load("plugins/admin_guard.wasm").name(), "plugins/admin_guard.wasm");
}

#[test]
fn what_is_no_module_is_not_loaded() {
    let source = PluginSource { path: "p".to_string(), code: Some(b"(module)".to_vec()) };
    assert!(matches!(Plugin::load(&source), Err(PluginError::InvalidModule)));
    let mut cut = admin_guard_module().bytes();
    cut.truncate(40);
    let source = PluginSource { path: "p".to_string(), code: Some(cut) };
    assert!(matches!(Plugin::load(&source), Err(PluginError::InvalidModule)));
    let source = PluginSource { path: "p".to_string(), code: None };
    assert!(matches!(Plugin::load(&source), Err(PluginError::Unreadable)));
}

const GUARD_TEXT: &str = r#"
(module
  (memory (export "memory") 1)
  (data (i32.const 2048) "{\"action\":\"block\",\"status\":401}")
  (func (export "alloc") (param i32) (result i32) i32.const 8192)
  (func (export "filter_request") (param i32 i32) (result i64)
    i64.const 8796093022239))
"#;

fn text_source(path: &str, text: &str) -> PluginSource {
    PluginSource { path: path.to_string(), code: Some(text.as_bytes().to_vec()) }
}

#[test]
fn a_module_in_text_form_is_loaded() {
    let plugin = Plugin::load(&text_source("guard.wat", GUARD_TEXT)).ok().unwrap();
    assert_eq!(plugin.name(), "guard.wat");
    assert_eq!(
        plugin.call_hook("filter_request", b"{}"),
        Ok(Some(b"{\"action\":\"block\",\"status\":401}".to_vec()))
    );
    let mut state = proxy_to("http://127.0.0.1:9002", vec![plugin]);
    let resp = serve(&mut state, "GET", "/", &[], not_reached);
    assert_eq!(resp.status, 401);
}

#[test]
fn only_a_wat_file_is_read_as_text() {
    let load = |source: PluginSource| Plugin::load(&source).err();
    assert_eq!(load(text_source("p.wat", "(module)")), None);
    assert_eq!(load(text_source("p.wasm", "(module)")), Some(PluginError::InvalidModule));
    assert_eq!(load(text_source("p.wat", "(modul)")), Some(PluginError::InvalidModule));
    assert_eq!(load(text_source("p.wat", "")), Some(PluginError::InvalidModule));
    assert_eq!(load(text_source("p.wat", "(component)")), Some(PluginError::InvalidModule));
    // A binary module is one under any name.
    assert_eq!(load(admin_guard_module().source("p.wat")), None);
    let not_utf8 = PluginSource { path: "p.wat".to_string(), code: Some(vec![0xff, 0xfe]) };
    assert_eq!(load(not_utf8), Some(PluginError::InvalidModule));
    let unread = PluginSource { path: "p.wat".to_string(), code: None };
    assert_eq!(load(unread), Some(PluginError::Unreadable));
}

#[test]
fn the_first_fault_stops_loading() {
    let good = || admin_guard_module().source("good");
    let bad = || PluginSource { path: "bad".to_string(), code: Some(vec![1, 2, 3]) };
    let gone = || PluginSource { path: "gone".to_string(), code: None };
    assert_eq!(load_plugins(&vec![good(), gone(), bad()]).err(), Some(PluginError::Unreadable));
    assert_eq!(load_plugins(&vec![good(), bad(), gone()]).err(), Some(PluginError::InvalidModule));
    let plugins = load_plugins(&vec![good(), error_masker_module().source("masker")]);
    let names: Vec<String> =
        plugins.unwrap().iter().map(|plugin| plugin.name().to_string()).collect();
    assert_eq!(names, ["good", "masker"]);
    assert_eq!(load_plugins(&Vec::new()).map(|plugins| plugins.len()).ok(), Some(0));
}

#[test]
fn sources_pair_paths_and_contents() {
    let paths = vec!["a".to_string(), "b".to_string(), "c".to_string()];
    let sources = plugin_sources(&paths, &vec![Some(vec![1]), None]);
    assert_eq!(sources.len(), 3);
    assert_eq!(sources[0].path, "a");
    assert_eq!(sources[0].code, Some(vec![1]));
    assert_eq!(sources[1].path, "b");
    assert_eq!(sources[1].code, None);
    assert_eq!(sources[2].path, "c");
    assert_eq!(sources[2].code, None);
}

#[test]
fn a_hook_that_is_missing_is_no_error() {
    let guard = admin_guard_module().load("admin_guard.wasm");
    let ctx = PluginResponseContext { status: 503, headers: StringMap::new() };
    assert_eq!(guard.filter_response(&ctx), Ok(None));
    let masker = error_masker_module().load("error_masker.wasm");
    let ctx = PluginRequestContext { method: "GET", path: "/admin", headers: StringMap::new() };
    assert_eq!(masker.filter_request(&ctx), Ok(None));
    // A hook of another type counts as missing, whatever else is missing.
    let mut other = admin_blocker_module();
    other.memory_pages = None;
    other.data = Vec::new();
    other.functions = vec![Function {
        kind: FILTER,
        export: "filter_request",
        locals: 0,
        code: vec![0x41, 0],
    }];
    assert_eq!(reply_of(&other, b"{}"), Ok(None));
}

#[test]
fn a_plugin_without_memory_fails() {
    let mut module = constant_module("filter_request", CONTINUE);
    module.memory_pages = None;
    module.data = Vec::new();
    assert_eq!(reply_of(&module, b"{}"), Err(PluginError::NoMemory));
    // Something else under the name is no memory.
    let module = module.function(START, "memory", 0, Vec::new());
    assert_eq!(reply_of(&module, b"{}"), Err(PluginError::NoMemory));
}

#[test]
fn a_plugin_without_alloc_fails() {
    let module =
        Assembly::new().function(HOOK, "filter_request", 0, i64_const(packed(REPLY, 1)));
    assert_eq!(reply_of(&module, b"{}"), Err(PluginError::NoAlloc));
    let module = module.function(START, "alloc", 0, Vec::new());
    assert_eq!(reply_of(&module, b"{}"), Err(PluginError::NoAlloc));
}

#[test]
fn imports_cannot_be_met() {
    let mut module = constant_module("filter_request", CONTINUE);
    module.import = true;
    assert_eq!(reply_of(&module, b"{}"), Err(PluginError::Instantiation));
}

#[test]
fn a_trapping_start_function_fails() {
    let mut module =
        constant_module("filter_request", CONTINUE).function(START, "", 0, vec![0x00]);
    module.start = Some(2);
    assert_eq!(reply_of(&module, b"{}"), Err(PluginError::Start));
}

#[test]
fn traps_are_reported() {
    let hook = Assembly::new().alloc_at(64).function(HOOK, "filter_request", 0, vec![0x00]);
    assert_eq!(reply_of(&hook, b"{}"), Err(PluginError::Trapped));
    let alloc = Assembly::new()
        .function(ALLOC, "alloc", 0, vec![0x00])
        .function(HOOK, "filter_request", 0, i64_const(packed(REPLY, 1)));
    assert_eq!(reply_of(&alloc, b"{}"), Err(PluginError::Trapped));
}

#[test]
fn an_input_that_does_not_fit_is_reported() {
    let at = |address| {
        Assembly::new()
            .alloc_at(address)
            .function(HOOK, "filter_request", 0, i64_const(packed(REPLY, 1)))
    };
    assert_eq!(reply_of(&at(65535), b"{}"), Err(PluginError::WriteOutOfBounds));
    assert_eq!(
        reply_of(&at(i64::from(NO_MEMORY)), b"{}"),
        Err(PluginError::WriteOutOfBounds)
    );
    assert_eq!(reply_of(&at(65534), b"{}"), Ok(Some(vec![0])));
}

#[test]
fn replies_of_a_suspicious_length_are_refused() {
    let packed_reply = |value| {
        let mut module =
            Assembly::new().alloc_at(64).function(HOOK, "filter_request", 0, i64_const(value));
        module.memory_pages = Some(16);
        module
    };
    assert_eq!(
        reply_of(&packed_reply(packed(REPLY, 0)), b"{}"),
        Err(PluginError::SuspiciousLength(0))
    );
    assert_eq!(
        reply_of(&packed_reply(packed(0, 1_000_001)), b"{}"),
        Err(PluginError::SuspiciousLength(1_000_001))
    );
    assert_eq!(
        reply_of(&packed_reply(-1), b"{}"),
        Err(PluginError::SuspiciousLength(0xFFFF_FFFF))
    );
    let longest = reply_of(&packed_reply(packed(0, 1_000_000)), b"{}").unwrap().unwrap();
    assert_eq!(longest.len(), 1_000_000);
    assert_eq!(&longest[63..67], b"\x00{}\x00");
    assert_eq!(
        reply_of(&packed_reply(packed(48_577, 1_000_000)), b"{}"),
        Err(PluginError::ReadOutOfBounds)
    );
    assert_eq!(
        reply_of(&packed_reply(packed(0xFFFF_FFFF, 1)), b"{}"),
        Err(PluginError::ReadOutOfBounds)
    );
}

#[test]
fn every_call_has_an_instance_of_its_own() {
    // The hook counts its calls in memory and replies with the count.
    let module = Assembly::new().alloc_at(64).function(
        HOOK,
        "filter_request",
        0,
        join(&[
            vec![0x41, 0, 0x41, 0, 0x2d, 0, 0, 0x41, 1, 0x6a, 0x3a, 0, 0],
            i64_const(packed(0, 1)),
        ]),
    );
    let plugin = module.load("p");
    assert_eq!(plugin.call_hook("filter_request", b"{}"), Ok(Some(vec![1])));
    assert_eq!(plugin.call_hook("filter_request", b"{}"), Ok(Some(vec![1])));
}

#[test]
fn earlier_calls_leave_no_trace() {
    let counter = || {
        Assembly::new().alloc_at(64).function(
            HOOK,
            "filter_request",
            0,
            join(&[
                vec![0x41, 0, 0x41, 0, 0x2d, 0, 0, 0x41, 1, 0x6a, 0x3a, 0, 0],
                i64_const(packed(0, 1)),
            ]),
        )
    };
    let trap = Assembly::new().alloc_at(64).function(HOOK, "filter_request", 0, vec![0x00]);
    let used = counter().load("used");
    let other = trap.load("other");
    for _ in 0..3 {
        let _ = used.call_hook("filter_request", b"[]");
        let _ = other.call_hook("filter_request", b"{}");
        let _ = used.filter_request_v1("/admin");
    }
    let fresh = counter().load("fresh");
    assert_eq!(
        used.call_hook("filter_request", b"{}"),
        fresh.call_hook("filter_request", b"{}")
    );
    assert_eq!(used.filter_request_v1("/admin"), fresh.filter_request_v1("/admin"));
}

#[test]
fn a_plugin_is_handed_the_request_as_json() {
    let mut headers = StringMap::new();
    headers.insert("x-api-key".to_string(), "secret123".to_string());
    let ctx = PluginRequestContext { method: "GET", path: "/admin", headers };
    let reply = echo_module("filter_request").load("p").filter_request(&ctx);
    assert_eq!(
        reply,
        Ok(Some(
            b"{\"method\":\"GET\",\"path\":\"/admin\",\"headers\":{\"x-api-key\":\"secret123\"}}"
                .to_vec()
        ))
    );
}

#[test]
fn a_plugin_is_handed_the_response_as_json() {
    let mut headers = StringMap::new();
    headers.insert("content-type".to_string(), "text/plain".to_string());
    headers.insert("server".to_string(), "\"s\"".to_string());
    let ctx = PluginResponseContext { status: 503, headers };
    let reply = echo_module("filter_response").load("p").filter_response(&ctx);
    assert_eq!(
        reply,
        Ok(Some(
            b"{\"status\":503,\"headers\":{\"content-type\":\"text/plain\",\"server\":\"\\\"s\\\"\"}}"
                .to_vec()
        ))
    );
}

#[test]
fn the_json_of_a_context_is_read_back() {
    let path = "/a\"b\\c\u{8}\t\n\u{c}\r\u{1}\u{1f}\u{7f}é€😀";
    let mut headers = StringMap::new();
    headers.insert("x-é".to_string(), "\u{0}".to_string());
    headers.insert("x-empty".to_string(), String::new());
    let ctx = PluginRequestContext { method: "", path, headers };
    let json = ctx.to_json();
    let value: serde_json::Value = serde_json::from_slice(&json).unwrap();
    assert_eq!(value["method"], "");
    assert_eq!(value["path"], path);
    assert_eq!(value["headers"]["x-é"], "\u{0}");
    assert_eq!(value["headers"]["x-empty"], "");
    assert_eq!(value["headers"].as_object().unwrap().len(), 2);
    assert!(json.starts_with(b"{\"method\":\"\",\"path\":\"/a\\\"b\\\\c\\b\\t\\n\\f\\r\\u0001\\u001f"));
    let none = PluginRequestContext { method: "GET", path: "/", headers: StringMap::new() };
    assert_eq!(none.to_json(), b"{\"method\":\"GET\",\"path\":\"/\",\"headers\":{}}");
}

#[test]
fn the_proxy_hands_headers_to_plugins() {
    let mut state =
        proxy_to("http://127.0.0.1:9002", vec![echo_module("filter_request").load("p")]);
    let mut headers = header_map(&[("X-A", "first"), ("x-a", "last"), ("x-b", "2")]);
    headers.append("x-b", HeaderValue::from_bytes(b"\xff").unwrap());
    headers.append("x-c", HeaderValue::from_bytes(b"\xff").unwrap());
    let head = RequestHead {
        method: "PUT",
        path: "/p",
        path_and_query: Some("/p?q".to_string()),
        headers: &headers,
    };
    let pass = match handle_request(&mut state, &head) {
        Step::RunHooks(pass) => pass,
        _ => panic!("the plugins come next"),
    };
    let pending = match pass.run() {
        Step::Decode(pending) => pending,
        _ => panic!("the plugin replies"),
    };
    let value: serde_json::Value = serde_json::from_slice(pending.reply_json()).unwrap();
    assert_eq!(value["method"], "PUT");
    assert_eq!(value["path"], "/p");
    assert_eq!(value["headers"]["x-a"], "last");
    assert_eq!(value["headers"]["x-b"], "2");
    assert_eq!(value["headers"].as_object().unwrap().len(), 2);
}

#[test]
fn an_http2_header_cannot_pass_for_the_key() {
    let mut state =
        proxy_to("http://127.0.0.1:9002", vec![echo_module("filter_request").load("echo.wasm")]);
    let mut headers = HeaderMap::new();
    headers.insert(
        HeaderName::from_lowercase(b"a\"x-api-key").unwrap(),
        HeaderValue::from_static("secret123"),
    );
    let head = RequestHead {
        method: "GET",
        path: "/admin",
        path_and_query: Some("/admin".to_string()),
        headers: &headers,
    };
    let pass = match handle_request(&mut state, &head) {
        Step::RunHooks(pass) => pass,
        _ => panic!("the plugins come next"),
    };
    let pending = match pass.run() {
        Step::Decode(pending) => pending,
        _ => panic!("the plugin replies"),
    };
    assert_eq!(pending.plugin_name(), "echo.wasm");
    assert_eq!(admin_guard::decide(pending.reply_json()).as_bytes(), REFUSED);
}

#[test]
fn the_older_interface_refuses_paths() {
    let plugin = admin_blocker_module().load("admin_blocker.wasm");
    assert_eq!(plugin.filter_request_v1("/admin"), Ok(true));
    assert_eq!(plugin.filter_request_v1("/api/users"), Ok(false));
    assert_eq!(plugin.filter_request_v1("/adminx"), Ok(false));
    assert_eq!(plugin.filter_request_v1("admin"), Ok(false));
    assert_eq!(plugin.filter_request_v1(""), Ok(false));
}

#[test]
fn the_older_interface_reports_faults() {
    let of = |module: &Assembly| module.load("p").filter_request_v1("/admin");
    let filter = |code| Function { kind: FILTER, export: "filter_request", locals: 0, code };
    let mut module = Assembly::new();
    module.functions.push(filter(vec![0x41, 2]));
    assert_eq!(of(&module), Err(PluginError::NoAlloc));
    module.memory_pages = None;
    assert_eq!(of(&module), Err(PluginError::NoMemory));
    assert_eq!(of(&Assembly::new().alloc_at(64)), Err(PluginError::NoFilter));
    // The newer hook is no path filter.
    assert_eq!(of(&admin_guard_module()), Err(PluginError::NoFilter));
    let mut module = Assembly::new().alloc_at(64);
    module.functions.push(filter(vec![0x00]));
    assert_eq!(of(&module), Err(PluginError::Trapped));
    let mut module = Assembly::new().alloc_at(65536);
    module.functions.push(filter(vec![0x41, 0]));
    assert_eq!(of(&module), Err(PluginError::WriteOutOfBounds));
    let mut module = Assembly::new().alloc_at(64);
    module.functions.push(filter(vec![0x41, 0x7f]));
    assert_eq!(of(&module), Ok(true));
}

#[test]
fn the_modules_decide_as_the_plugins_do() {
    let guard = admin_guard_module().load("admin_guard.wasm");
    for (path, key) in [
        ("/admin", Some("secret123")),
        ("/admin", Some("wrong")),
        ("/admin", None),
        ("/api/users", None),
        ("/api/users", Some("secret123")),
    ] {
        let mut headers = StringMap::new();
        if let Some(key) = key {
            headers.insert("x-api-key".to_string(), key.to_string());
        }
        let ctx = PluginRequestContext { method: "GET", path, headers };
        let reply = guard.filter_request(&ctx).unwrap().unwrap();
        assert_eq!(reply, admin_guard::decide(&ctx.to_json()).as_bytes());
    }
    let masker = error_masker_module().load("error_masker.wasm");
    for status in [200, 404, 499, 500, 503, 599] {
        let ctx = PluginResponseContext { status, headers: StringMap::new() };
        let reply = masker.filter_response(&ctx).unwrap().unwrap();
        assert_eq!(reply, error_masker::decide(&ctx.to_json()).as_bytes());
    }
}

// ---------------------------------------------------------------------------
// Reloading
// ---------------------------------------------------------------------------

fn config_with_plugins(plugins: &[&str]) -> Config {
    let mut config = config_with_routes(vec![route("/", "http://127.0.0.1:9002")]);
    config.plugins = plugins.iter().map(|path| path.to_string()).collect();
    config
}

#[test]
fn a_reload_replaces_configuration_and_plugins() {
    let mut state = proxy_to("http://127.0.0.1:9001", Vec::new());
    state.metrics.count_request();
    let contents = vec![Some(admin_guard_module().bytes())];
    let outcome = reload(&mut state, Some(config_with_plugins(&["admin_guard.wasm"])), &contents);
    assert_eq!(outcome, ReloadOutcome::Reloaded { routes: 1, plugins: 1 });
    assert_eq!(state.snapshot.plugins[0].name(), "admin_guard.wasm");
    assert_eq!(state.snapshot.config.routes[0].backend, "http://127.0.0.1:9002");
    assert_eq!(state.metrics.requests_total, 1);
    let resp = serve(&mut state, "GET", "/admin", &[], not_reached);
    assert_eq!(resp.status, 403);
}

#[test]
fn a_reload_goes_by_the_paths_of_the_plugins() {
    let mut state = proxy_to("http://127.0.0.1:9001", Vec::new());
    let contents = vec![Some(GUARD_TEXT.as_bytes().to_vec())];
    assert_eq!(
        reload(&mut state, Some(config_with_plugins(&["guard.wasm"])), &contents),
        ReloadOutcome::PluginRejected(PluginError::InvalidModule)
    );
    assert_eq!(
        reload(&mut state, Some(config_with_plugins(&["guard.wat"])), &contents),
        ReloadOutcome::Reloaded { routes: 1, plugins: 1 }
    );
}

#[test]
fn a_failed_reload_keeps_everything() {
    let mut state = proxy_to("http://127.0.0.1:9001", Vec::new());
    let before = Arc::clone(&state.snapshot);
    assert_eq!(reload(&mut state, None, &Vec::new()), ReloadOutcome::ConfigRejected);
    assert!(Arc::ptr_eq(&before, &state.snapshot));
    let config = || Some(config_with_plugins(&["a.wasm", "b.wasm"]));
    let good = admin_guard_module().bytes();
    assert_eq!(
        reload(&mut state, config(), &vec![Some(good.clone()), Some(b"broken".to_vec())]),
        ReloadOutcome::PluginRejected(PluginError::InvalidModule)
    );
    assert_eq!(
        reload(&mut state, config(), &vec![Some(good.clone()), None]),
        ReloadOutcome::PluginRejected(PluginError::Unreadable)
    );
    assert_eq!(
        reload(&mut state, config(), &vec![Some(good)]),
        ReloadOutcome::PluginRejected(PluginError::Unreadable)
    );
    assert!(Arc::ptr_eq(&before, &state.snapshot));
    let resp = serve(&mut state, "GET", "/x", &[], |uri, _| {
        assert_eq!(uri, "http://127.0.0.1:9001/x");
        answer(200, &[], b"still here")
    });
    assert_eq!(resp.body, b"still here");
}

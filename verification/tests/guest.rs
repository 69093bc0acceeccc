use wasm_proxy::admin_blocker::{self, BumpAllocator};
use wasm_proxy::admin_guard;
use wasm_proxy::error_masker;
use wasm_proxy::guest::{
    extract_json_int, extract_json_string, extract_member_string, find, pack, unpack, GuestBuffers,
    NO_MEMORY,
};
use wasm_proxy::plugin::{
    locate_reply, PluginError, PluginRequestContext, PluginResponseContext, MAX_REPLY_LEN,
};
use wasm_proxy::string_map::StringMap;

fn request(path: &str, headers: &[(&str, &str)]) -> Vec<u8> {
    let mut map = StringMap::new();
    for (name, value) in headers {
        map.insert(name.to_string(), value.to_string());
    }
    PluginRequestContext { method: "GET", path, headers: map }.to_json()
}

fn response(status: u16, headers: &[(&str, &str)]) -> Vec<u8> {
    let mut map = StringMap::new();
    for (name, value) in headers {
        map.insert(name.to_string(), value.to_string());
    }
    PluginResponseContext { status, headers: map }.to_json()
}

#[test]
fn a_reply_is_packed_and_unpacked() {
    assert_eq!(pack(2048, 21), (2048i64 << 32) | 21);
    assert_eq!(unpack(pack(2048, 21)), (2048, 21));
    assert_eq!(pack(u32::MAX, u32::MAX), -1);
    assert_eq!(unpack(-1), (u32::MAX, u32::MAX));
    assert_eq!(unpack(pack(0x8000_0000, 0)), (0x8000_0000, 0));
    assert_eq!(unpack(0), (0, 0));
}

#[test]
fn a_reply_has_a_sound_length() {
    assert_eq!(locate_reply(pack(2048, 21)), Ok((2048, 21)));
    assert_eq!(locate_reply(pack(0, 1_000_000)), Ok((0, MAX_REPLY_LEN)));
    assert_eq!(locate_reply(pack(0, 1_000_001)), Err(PluginError::SuspiciousLength(1_000_001)));
    assert_eq!(locate_reply(pack(2048, 0)), Err(PluginError::SuspiciousLength(0)));
}

#[test]
fn the_first_occurrence_is_found() {
    assert_eq!(find(b"abcabc", b"bc"), Some(1));
    assert_eq!(find(b"abc", b"abc"), Some(0));
    assert_eq!(find(b"aab", b"ab"), Some(1));
    assert_eq!(find(b"abc", b"abcd"), None);
    assert_eq!(find(b"abc", b"x"), None);
    assert_eq!(find(b"abc", b""), None);
    assert_eq!(find(b"", b""), None);
}

#[test]
fn a_text_is_extracted() {
    let json: &[u8] = b"{\"path\":\"/admin\",\"x\" : \"y\",\"open\":\"no end";
    assert_eq!(extract_json_string(json, b"\"path\":"), Some(&b"/admin"[..]));
    assert_eq!(extract_json_string(json, b"\"x\""), Some(&b"y"[..]));
    assert_eq!(extract_json_string(json, b"\"open\":"), None);
    assert_eq!(extract_json_string(json, b"\"none\":"), None);
    assert_eq!(extract_json_string(b"\"k\":\"a\\\"b\"", b"\"k\":"), Some(&b"a\\"[..]));
    assert_eq!(extract_json_string(b"\"k\":\"\"", b"\"k\":"), Some(&b""[..]));
}

#[test]
fn a_number_is_extracted() {
    assert_eq!(extract_json_int(b"{\"status\":503,", b"\"status\":"), Some(503));
    assert_eq!(extract_json_int(b"{\"status\":0}", b"\"status\":"), Some(0));
    assert_eq!(extract_json_int(b"{\"status\":7", b"\"status\":"), Some(7));
    assert_eq!(extract_json_int(b"{\"status\": 503}", b"\"status\":"), None);
    assert_eq!(extract_json_int(b"{\"status\":-1}", b"\"status\":"), None);
    assert_eq!(extract_json_int(b"{}", b"\"status\":"), None);
    assert_eq!(extract_json_int(b"k2147483648", b"k"), Some(i32::MIN));
}

#[test]
fn the_blocker_refuses_one_path() {
    assert_eq!(admin_blocker::filter_request(b"/admin"), 1);
    assert_eq!(admin_blocker::filter_request(b"/api/users"), 0);
    assert_eq!(admin_blocker::filter_request(b"/adminx"), 0);
    assert_eq!(admin_blocker::filter_request(b"admin"), 0);
    assert_eq!(admin_blocker::filter_request(b""), 0);
}

#[test]
fn allocations_follow_each_other() {
    let mut allocator = BumpAllocator::new();
    assert_eq!(admin_blocker::allocate(&mut allocator, 6), 1024);
    assert_eq!(admin_blocker::allocate(&mut allocator, 0), 1030);
    assert_eq!(admin_blocker::allocate(&mut allocator, 10), 1030);
    assert_eq!(allocator.next, 1040);
    allocator.next = u32::MAX;
    assert_eq!(admin_blocker::allocate(&mut allocator, 1), -1);
    assert_eq!(allocator.next, 0);
}

const CONTINUE: &str = "{\"action\":\"continue\"}";
const CHECKED: &str =
    "{\"action\":\"continue\",\"add_headers\":{\"x-plugin-checked\":\"admin_guard\"}}";
const REFUSED: &str = "{\"action\":\"block\",\"status\":403,\"body\":\"missing or invalid api key\"}";
const MASKED: &str = "{\"action\":\"block\",\"status\":502,\"body\":\"upstream error\"}";

#[test]
fn the_guard_asks_for_the_key() {
    let inputs = [
        ("{\"method\":\"GET\",\"path\":\"/admin\",\"headers\":{\"x-api-key\":\"secret123\"}}", CHECKED),
        ("{\"method\":\"GET\",\"path\":\"/admin\",\"headers\":{\"x-api-key\":\"wrong\"}}", REFUSED),
        ("{\"method\":\"GET\",\"path\":\"/admin\",\"headers\":{}}", REFUSED),
        ("{\"method\":\"GET\",\"path\":\"/api/users\",\"headers\":{}}", CONTINUE),
    ];
    for (input, decision) in inputs {
        assert_eq!(admin_guard::decide(input.as_bytes()), decision);
    }
}

#[test]
fn the_guard_reads_requests_right() {
    let key = ("x-api-key", "secret123");
    assert_eq!(admin_guard::decide(&request("/admin", &[key])), CHECKED);
    assert_eq!(admin_guard::decide(&request("/admin/", &[])), CONTINUE);
    assert_eq!(admin_guard::decide(&request("/admin\"", &[])), CONTINUE);
    // Neither the path nor another header can pass for the key.
    assert_eq!(
        admin_guard::decide(&request("/admin", &[("x-a", "\"x-api-key\":\"secret123\"")])),
        REFUSED
    );
    assert_eq!(
        admin_guard::decide(&request("/admin", &[("x-a", "x-api-key"), ("x-b", "secret123")])),
        REFUSED
    );
    assert_eq!(
        admin_guard::decide(&request("/x\",\"path\":\"/admin", &[])),
        CONTINUE
    );
    assert_eq!(
        admin_guard::decide(&request("/admin", &[("x-a", ":"), key, ("x-b", "\\")])),
        CHECKED
    );
    let ctx = PluginRequestContext {
        method: "\"path\":\"/admin\"",
        path: "/",
        headers: StringMap::new(),
    };
    assert_eq!(admin_guard::decide(&ctx.to_json()), CONTINUE);
}

#[test]
fn a_header_that_looks_like_the_key_is_not_the_key() {
    let mock = ("a\"x-api-key", "secret123");
    assert_eq!(admin_guard::decide(&request("/admin", &[mock])), REFUSED);
    assert_eq!(admin_guard::decide(&request("/admin", &[("\"x-api-key", "secret123")])), REFUSED);
    assert_eq!(admin_guard::decide(&request("/admin", &[("\\\"x-api-key", "secret123")])), REFUSED);
    // It does not hide the key either.
    let wrong = ("a\"x-api-key", "wrong");
    assert_eq!(
        admin_guard::decide(&request("/admin", &[wrong, ("x-api-key", "secret123")])),
        CHECKED
    );
    assert_eq!(
        admin_guard::decide(&request("/admin", &[mock, ("x-api-key", "wrong")])),
        REFUSED
    );
}

#[test]
fn a_member_is_extracted_outside_of_texts() {
    let key: &[u8] = b"\"k\":";
    assert_eq!(extract_member_string(b"{\"k\":\"v\"}", key), Some(&b"v"[..]));
    assert_eq!(extract_member_string(b"\"k\": \"v\"", key), Some(&b"v"[..]));
    assert_eq!(extract_member_string(b"{\"a\\\"k\":\"x\",\"k\":\"v\"}", key), Some(&b"v"[..]));
    assert_eq!(extract_member_string(b"{\"a\\\"k\":\"x\"}", key), None);
    assert_eq!(extract_member_string(b"{\"k\":\"v", key), None);
    assert_eq!(extract_member_string(b"", key), None);
}

#[test]
fn the_masker_goes_by_the_status() {
    for (status, decision) in
        [(100, CONTINUE), (200, CONTINUE), (499, CONTINUE), (500, MASKED), (503, MASKED), (999, MASKED)]
    {
        assert_eq!(error_masker::decide(&response(status, &[("x", "\"status\":200")])), decision);
    }
    assert_eq!(error_masker::decide(b"{}"), CONTINUE);
    assert_eq!(
        error_masker::decide(b"{\"status\": 503, \"headers\": {}}"),
        CONTINUE
    );
}

#[test]
fn the_guard_writes_its_decision() {
    let mut buffers = GuestBuffers {
        in_ptr: 1024,
        in_len: 4096,
        out_ptr: 8192,
        out: vec![7; admin_guard::OUT_LEN],
    };
    let packed = admin_guard::filter_request(&request("/admin", &[]), &mut buffers);
    assert_eq!(unpack(packed), (8192, REFUSED.len() as u32));
    assert_eq!(&buffers.out[..REFUSED.len()], REFUSED.as_bytes());
    assert_eq!(buffers.out[REFUSED.len()], 7);
    assert_eq!(buffers.out.len(), 512);
}

#[test]
fn the_masker_writes_its_decision() {
    let mut buffers = GuestBuffers {
        in_ptr: 16,
        in_len: 2048,
        out_ptr: 4096,
        out: vec![0; error_masker::OUT_LEN],
    };
    let packed = error_masker::filter_response(&response(503, &[]), &mut buffers);
    assert_eq!(unpack(packed), (4096, MASKED.len() as u32));
    assert_eq!(&buffers.out[..MASKED.len()], MASKED.as_bytes());
    let packed = error_masker::filter_response(&response(204, &[]), &mut buffers);
    assert_eq!(unpack(packed), (4096, CONTINUE.len() as u32));
    assert_eq!(&buffers.out[..CONTINUE.len()], CONTINUE.as_bytes());
}

#[test]
fn the_json_tells_contexts_apart() {
    let requests = [
        request("/a", &[]),
        request("/a", &[("x", "")]),
        request("/a", &[("x", ""), ("y", "")]),
        request("/a\",\"headers\":{}}", &[]),
        request("/a", &[("x\":\"", "")]),
        request("/a", &[("x", "\":\"")]),
        request("/a\\", &[]),
        request("/a\\\\", &[]),
        request("/a\n", &[]),
        request("/a\\n", &[]),
        request("/a\u{1}", &[]),
        request("/a\\u0001", &[]),
    ];
    for (i, a) in requests.iter().enumerate() {
        for (j, b) in requests.iter().enumerate() {
            assert_eq!(a == b, i == j);
        }
    }
    assert_ne!(response(20, &[]), response(200, &[]));
    assert_ne!(response(200, &[("a", "b")]), response(200, &[("a", "c")]));
}

#[test]
fn bytes_are_set_aside_where_they_fit() {
    let guard = GuestBuffers {
        in_ptr: 1024,
        in_len: admin_guard::IN_LEN as u32,
        out_ptr: 131072,
        out: vec![0; admin_guard::OUT_LEN],
    };
    assert_eq!(admin_guard::allocate(&guard, 0), 1024);
    assert_eq!(admin_guard::allocate(&guard, 5000), 1024);
    assert_eq!(admin_guard::allocate(&guard, 65536), 1024);
    assert_eq!(admin_guard::allocate(&guard, 65537), NO_MEMORY);
    assert_eq!(admin_guard::allocate(&guard, -1), NO_MEMORY);
    let masker = GuestBuffers {
        in_ptr: 16,
        in_len: 2048,
        out_ptr: 4096,
        out: vec![0; error_masker::OUT_LEN],
    };
    assert_eq!(error_masker::allocate(&masker, 2048), 16);
    assert_eq!(error_masker::allocate(&masker, 2049), NO_MEMORY);
    assert_eq!(error_masker::allocate(&masker, i32::MIN), NO_MEMORY);
    assert_eq!(error_masker::IN_LEN, 65536);
}

//! What texts the proxy writes: JSON for plugins, counters for Prometheus.
use vstd::prelude::*;
use vstd::string::*;
use vstd::utf8::*;

use crate::json::{json_char, json_content, json_object, json_string};
use crate::metrics::Metrics;
use crate::plugin::{request_json, response_json, PluginRequestContext, PluginResponseContext};
use crate::string_map::{distinct_keys, lemma_pairs_map_keys, pair_texts, pairs_map};
use crate::text::decimal;

verus! {

// ---------------------------------------------------------------------------
// JSON texts
// ---------------------------------------------------------------------------
/// A text is written character by character: what is written of two texts, one after
/// the other, is what is written of both together.
pub proof fn law_json_texts_join(a: Seq<char>, b: Seq<char>)
    ensures
        json_content(a + b) == json_content(a) + json_content(b),
    decreases a.len(),
{
    if a.len() == 0 {
        assert(a + b =~= b);
        assert(json_content(a) + json_content(b) =~= json_content(b));
    } else {
        assert((a + b).drop_first() =~= a.drop_first() + b);
        law_json_texts_join(a.drop_first(), b);
        assert(json_char(a[0]) + (json_content(a.drop_first()) + json_content(b)) =~= json_char(
            a[0],
        ) + json_content(a.drop_first()) + json_content(b));
    }
}

/// A text without quotes, backslashes and control characters is written as it is.
pub proof fn law_plain_texts_are_written_as_they_are(text: Seq<char>)
    requires
        forall|i: int|
            0 <= i < text.len() ==> #[trigger] text[i] >= ' ' && text[i] != '"' && text[i] != '\\',
    ensures
        json_content(text) == encode_utf8(text),
    decreases text.len(),
{
    if text.len() > 0 {
        let rest = text.drop_first();
        assert forall|i: int| 0 <= i < rest.len() implies #[trigger] rest[i] >= ' '
            && rest[i] != '"' && rest[i] != '\\' by {
            assert(rest[i] == text[i + 1]);
        }
        law_plain_texts_are_written_as_they_are(rest);
        assert(text[0] >= ' ' && text[0] != '"' && text[0] != '\\');
        assert(json_char(text[0]) == encode_scalar(text[0] as u32));
        assert(encode_utf8(text) == encode_scalar(text[0] as u32) + encode_utf8(rest));
    }
}

/// The value of a hexadecimal digit in lower case.
pub open spec fn hex_value(b: u8) -> Option<int> {
    if 48 <= b <= 57 {
        Some(b - 48)
    } else if 97 <= b <= 102 {
        Some(b - 87)
    } else {
        None
    }
}

/// A quote, a backslash or a control character is written behind a backslash: by a
/// short name where JSON has one, else by its number in hexadecimal.
pub proof fn law_other_characters_are_escaped(c: char)
    requires
        (c as u32) < 32 || c == '"' || c == '\\',
    ensures
        ({
            let written = json_content(seq![c]);
            let code = c as u32;
            &&& written.len() >= 2
            &&& written[0] == 92
            &&& code == 34 ==> written.len() == 2 && written[1] == 34
            &&& code == 92 ==> written.len() == 2 && written[1] == 92
            &&& code == 8 ==> written.len() == 2 && written[1] == 98
            &&& code == 9 ==> written.len() == 2 && written[1] == 116
            &&& code == 10 ==> written.len() == 2 && written[1] == 110
            &&& code == 12 ==> written.len() == 2 && written[1] == 102
            &&& code == 13 ==> written.len() == 2 && written[1] == 114
            &&& code < 8 || code == 11 || 14 <= code < 32 ==> {
                &&& written.len() == 6
                &&& written[1] == 117
                &&& written[2] == 48
                &&& written[3] == 48
                &&& hex_value(written[4]) matches Some(high)
                &&& hex_value(written[5]) matches Some(low)
                &&& high * 16 + low == code
            }
        }),
{
    assert(seq![c].drop_first() =~= Seq::<char>::empty());
    assert(json_content(seq![c].drop_first()) =~= Seq::<u8>::empty());
    assert(json_content(seq![c]) =~= json_char(c));
}

/// A text as JSON is what is written of it, between quotes.
pub proof fn law_json_texts_are_quoted(text: Seq<char>)
    ensures
        ({
            let written = json_string(text);
            &&& written.len() == json_content(text).len() + 2
            &&& written[0] == 34
            &&& written.last() == 34
            &&& written.subrange(1, written.len() - 1) == json_content(text)
        }),
{
    let written = json_string(text);
    assert(written.subrange(1, written.len() - 1) =~= json_content(text));
}

// ---------------------------------------------------------------------------
// JSON objects
// ---------------------------------------------------------------------------
/// The marks of JSON are single bytes.
proof fn lemma_marks()
    ensures
        encode_utf8("{"@) == seq![123u8],
        encode_utf8("}"@) == seq![125u8],
        encode_utf8(":"@) == seq![58u8],
        encode_utf8(","@) == seq![44u8],
{
    reveal_strlit("{");
    reveal_strlit("}");
    reveal_strlit(":");
    reveal_strlit(",");
    is_ascii_chars_encode_utf8("{"@);
    is_ascii_chars_encode_utf8("}"@);
    is_ascii_chars_encode_utf8(":"@);
    is_ascii_chars_encode_utf8(","@);
    assert(encode_utf8("{"@) =~= seq![123u8]);
    assert(encode_utf8("}"@) =~= seq![125u8]);
    assert(encode_utf8(":"@) =~= seq![58u8]);
    assert(encode_utf8(","@) =~= seq![44u8]);
}

/// An object without pairs is a pair of braces. One more pair comes last, before the
/// closing brace, with a comma before it where it is not the first: its name as JSON, a
/// colon, its value as JSON.
pub proof fn law_objects_grow_by_pairs(
    pairs: Seq<(Seq<char>, Seq<char>)>,
    key: Seq<char>,
    value: Seq<char>,
)
    ensures
        json_object(Seq::empty()) == seq![123u8, 125u8],
        json_object(pairs.push((key, value))) == json_object(pairs).drop_last() + (if pairs.len()
            == 0 {
            Seq::empty()
        } else {
            seq![44u8]
        }) + json_string(key) + seq![58u8] + json_string(value) + seq![125u8],
{
    lemma_marks();
    let all = pairs.push((key, value));
    assert(all.drop_last() =~= pairs);
    assert(all.last() == (key, value));
    assert(json_object(Seq::empty()) =~= seq![123u8, 125u8]);
    assert(json_object(all) =~= json_object(pairs).drop_last() + (if pairs.len() == 0 {
        Seq::empty()
    } else {
        seq![44u8]
    }) + json_string(key) + seq![58u8] + json_string(value) + seq![125u8]);
}

/// A request as JSON is an object of three members: its method, its path and its
/// headers, each as JSON.
pub proof fn law_a_request_has_three_members(
    method: Seq<char>,
    path: Seq<char>,
    headers: Seq<(Seq<char>, Seq<char>)>,
)
    ensures
        request_json(method, path, headers) == seq![123u8] + json_string("method"@) + seq![58u8]
            + json_string(method) + seq![44u8] + json_string("path"@) + seq![58u8] + json_string(
            path,
        ) + seq![44u8] + json_string("headers"@) + seq![58u8] + json_object(headers) + seq![125u8],
{
    lemma_marks();
    lemma_member_names();
    assert(request_json(method, path, headers) =~= seq![123u8] + json_string("method"@)
        + seq![58u8] + json_string(method) + seq![44u8] + json_string("path"@) + seq![58u8]
        + json_string(path) + seq![44u8] + json_string("headers"@) + seq![58u8] + json_object(
        headers,
    ) + seq![125u8]);
}

/// A response as JSON is an object of two members: its status in decimal and its
/// headers as JSON.
pub proof fn law_a_response_has_two_members(
    status: u16,
    headers: Seq<(Seq<char>, Seq<char>)>,
)
    ensures
        response_json(status, headers) == seq![123u8] + json_string("status"@) + seq![58u8]
            + encode_utf8(decimal(status as nat)) + seq![44u8] + json_string("headers"@)
            + seq![58u8] + json_object(headers) + seq![125u8],
{
    lemma_marks();
    lemma_member_names();
    assert(response_json(status, headers) =~= seq![123u8] + json_string("status"@) + seq![58u8]
        + encode_utf8(decimal(status as nat)) + seq![44u8] + json_string("headers"@) + seq![58u8]
        + json_object(headers) + seq![125u8]);
}

/// The names of the members, as they are written.
proof fn lemma_member_names()
    ensures
        encode_utf8("{\"method\":"@) == seq![123u8] + json_string("method"@) + seq![58u8],
        encode_utf8(",\"path\":"@) == seq![44u8] + json_string("path"@) + seq![58u8],
        encode_utf8(",\"headers\":"@) == seq![44u8] + json_string("headers"@) + seq![58u8],
        encode_utf8("{\"status\":"@) == seq![123u8] + json_string("status"@) + seq![58u8],
{
    reveal_strlit("method");
    reveal_strlit("path");
    reveal_strlit("headers");
    reveal_strlit("status");
    reveal_strlit("{\"method\":");
    reveal_strlit(",\"path\":");
    reveal_strlit(",\"headers\":");
    reveal_strlit("{\"status\":");
    law_plain_texts_are_written_as_they_are("method"@);
    law_plain_texts_are_written_as_they_are("path"@);
    law_plain_texts_are_written_as_they_are("headers"@);
    law_plain_texts_are_written_as_they_are("status"@);
    is_ascii_chars_encode_utf8("method"@);
    is_ascii_chars_encode_utf8("path"@);
    is_ascii_chars_encode_utf8("headers"@);
    is_ascii_chars_encode_utf8("status"@);
    is_ascii_chars_encode_utf8("{\"method\":"@);
    is_ascii_chars_encode_utf8(",\"path\":"@);
    is_ascii_chars_encode_utf8(",\"headers\":"@);
    is_ascii_chars_encode_utf8("{\"status\":"@);
    assert(encode_utf8("{\"method\":"@) =~= seq![123u8] + json_string("method"@) + seq![58u8]);
    assert(encode_utf8(",\"path\":"@) =~= seq![44u8] + json_string("path"@) + seq![58u8]);
    assert(encode_utf8(",\"headers\":"@) =~= seq![44u8] + json_string("headers"@) + seq![58u8]);
    assert(encode_utf8("{\"status\":"@) =~= seq![123u8] + json_string("status"@) + seq![58u8]);
}

/// A context as JSON shows its own method, path and headers.
pub proof fn law_a_request_context_shows_itself(context: PluginRequestContext)
    ensures
        context.json() == request_json(context.method@, context.path@, context.headers.pairs()),
{
}

/// A context as JSON shows its own status and headers.
pub proof fn law_a_response_context_shows_itself(context: PluginResponseContext)
    ensures
        context.json() == response_json(context.status, context.headers.pairs()),
{
}

// ---------------------------------------------------------------------------
// Pairs
// ---------------------------------------------------------------------------
/// A list of pairs has under each key the value of the last pair with that key, and no
/// other key.
pub proof fn law_the_last_pair_counts(pairs: Seq<(Seq<char>, Seq<char>)>, key: Seq<char>)
    ensures
        (forall|i: int| 0 <= i < pairs.len() ==> (#[trigger] pairs[i]).0 != key) ==> !pairs_map(
            pairs,
        ).dom().contains(key),
        forall|i: int|
            0 <= i < pairs.len() && (#[trigger] pairs[i]).0 == key && (forall|j: int|
                i < j < pairs.len() ==> (#[trigger] pairs[j]).0 != key) ==> pairs_map(
                pairs,
            ).dom().contains(key) && pairs_map(pairs)[key] == pairs[i].1,
    decreases pairs.len(),
{
    lemma_pairs_map_keys(pairs, key);
    if pairs.len() > 0 {
        let front = pairs.drop_last();
        let last = pairs.len() - 1;
        law_the_last_pair_counts(front, key);
        assert forall|i: int|
            0 <= i < pairs.len() && (#[trigger] pairs[i]).0 == key && (forall|j: int|
                i < j < pairs.len() ==> (#[trigger] pairs[j]).0 != key) implies pairs_map(
            pairs,
        ).dom().contains(key) && pairs_map(pairs)[key] == pairs[i].1 by {
            if i < last {
                assert(pairs[last].0 != key);
                assert(front[i].0 == key);
                assert forall|j: int| i < j < front.len() implies (#[trigger] front[j]).0 != key
                    by {
                    assert(pairs[j].0 != key);
                }
            }
        }
    }
}

/// The texts of entries are their own, in order.
pub proof fn law_entries_keep_their_texts(entries: Seq<(String, String)>, i: int)
    ensures
        pair_texts(entries).len() == entries.len(),
        0 <= i < entries.len() ==> pair_texts(entries)[i] == (entries[i].0@, entries[i].1@),
{
}

/// Of distinct keys no two are the same.
pub proof fn law_distinct_keys_differ(pairs: Seq<(Seq<char>, Seq<char>)>, i: int, j: int)
    requires
        distinct_keys(pairs),
        0 <= i < pairs.len(),
        0 <= j < pairs.len(),
        i != j,
    ensures
        pairs[i].0 != pairs[j].0,
{
}

// ---------------------------------------------------------------------------
// Counters
// ---------------------------------------------------------------------------
/// The counters are told one after the other, each under its own name with its own
/// number in decimal, as Prometheus reads them.
pub proof fn law_each_counter_is_told(metrics: Metrics)
    ensures
        metrics.prometheus()
            == "# HELP wasm_proxy_requests_total Nombre total de requêtes reçues\n# TYPE wasm_proxy_requests_total counter\nwasm_proxy_requests_total "@
            + decimal(metrics.requests_total as nat)
            + "\n# HELP wasm_proxy_requests_blocked_by_plugin_total Requêtes bloquées par un plugin\n# TYPE wasm_proxy_requests_blocked_by_plugin_total counter\nwasm_proxy_requests_blocked_by_plugin_total "@
            + decimal(metrics.requests_blocked_by_plugin as nat)
            + "\n# HELP wasm_proxy_backend_errors_total Échecs de communication avec un backend\n# TYPE wasm_proxy_backend_errors_total counter\nwasm_proxy_backend_errors_total "@
            + decimal(metrics.backend_errors_total as nat)
            + "\n# HELP wasm_proxy_backend_timeouts_total Requêtes backend ayant dépassé le timeout\n# TYPE wasm_proxy_backend_timeouts_total counter\nwasm_proxy_backend_timeouts_total "@
            + decimal(metrics.backend_timeouts_total as nat) + "\n"@,
{
    lemma_metric_heads();
    let a = decimal(metrics.requests_total as nat);
    let b = decimal(metrics.requests_blocked_by_plugin as nat);
    let c = decimal(metrics.backend_errors_total as nat);
    let d = decimal(metrics.backend_timeouts_total as nat);
    assert(metrics.prometheus() =~= metric_head(
        "wasm_proxy_requests_total"@,
        "Nombre total de requêtes reçues"@,
    ) + a + ("\n"@ + metric_head(
        "wasm_proxy_requests_blocked_by_plugin_total"@,
        "Requêtes bloquées par un plugin"@,
    )) + b + ("\n"@ + metric_head(
        "wasm_proxy_backend_errors_total"@,
        "Échecs de communication avec un backend"@,
    )) + c + ("\n"@ + metric_head(
        "wasm_proxy_backend_timeouts_total"@,
        "Requêtes backend ayant dépassé le timeout"@,
    )) + d + "\n"@);
}

/// What stands before the number of a counter.
spec fn metric_head(name: Seq<char>, help: Seq<char>) -> Seq<char> {
    "# HELP "@ + name + " "@ + help + "\n# TYPE "@ + name + " counter\n"@ + name + " "@
}

/// What stands before the number of each counter, as one text.
proof fn lemma_metric_heads()
    ensures
        metric_head("wasm_proxy_requests_total"@, "Nombre total de requêtes reçues"@)
            == "# HELP wasm_proxy_requests_total Nombre total de requêtes reçues\n# TYPE wasm_proxy_requests_total counter\nwasm_proxy_requests_total "@,
        "\n"@ + metric_head(
            "wasm_proxy_requests_blocked_by_plugin_total"@,
            "Requêtes bloquées par un plugin"@,
        )
            == "\n# HELP wasm_proxy_requests_blocked_by_plugin_total Requêtes bloquées par un plugin\n# TYPE wasm_proxy_requests_blocked_by_plugin_total counter\nwasm_proxy_requests_blocked_by_plugin_total "@,
        "\n"@ + metric_head(
            "wasm_proxy_backend_errors_total"@,
            "Échecs de communication avec un backend"@,
        )
            == "\n# HELP wasm_proxy_backend_errors_total Échecs de communication avec un backend\n# TYPE wasm_proxy_backend_errors_total counter\nwasm_proxy_backend_errors_total "@,
        "\n"@ + metric_head(
            "wasm_proxy_backend_timeouts_total"@,
            "Requêtes backend ayant dépassé le timeout"@,
        )
            == "\n# HELP wasm_proxy_backend_timeouts_total Requêtes backend ayant dépassé le timeout\n# TYPE wasm_proxy_backend_timeouts_total counter\nwasm_proxy_backend_timeouts_total "@,
{
    reveal_strlit("# HELP ");
    reveal_strlit(" ");
    reveal_strlit("\n");
    reveal_strlit("\n# TYPE ");
    reveal_strlit(" counter\n");
    lemma_requests_head();
    lemma_blocked_head();
    lemma_errors_head();
    lemma_timeouts_head();
}

/// What stands before the number of requests.
proof fn lemma_requests_head()
    ensures
        metric_head("wasm_proxy_requests_total"@, "Nombre total de requêtes reçues"@)
            == "# HELP wasm_proxy_requests_total Nombre total de requêtes reçues\n# TYPE wasm_proxy_requests_total counter\nwasm_proxy_requests_total "@,
{
    reveal_strlit("# HELP ");
    reveal_strlit(" ");
    reveal_strlit("\n# TYPE ");
    reveal_strlit(" counter\n");
    reveal_strlit("wasm_proxy_requests_total");
    reveal_strlit("Nombre total de requêtes reçues");
    reveal_strlit("# HELP wasm_proxy_requests_total Nombre total de requêtes reçues\n# TYPE wasm_proxy_requests_total counter\nwasm_proxy_requests_total ");
    assert(metric_head("wasm_proxy_requests_total"@, "Nombre total de requêtes reçues"@)
        =~= "# HELP wasm_proxy_requests_total Nombre total de requêtes reçues\n# TYPE wasm_proxy_requests_total counter\nwasm_proxy_requests_total "@);
}

/// What stands before the number of blocked requests.
proof fn lemma_blocked_head()
    ensures
        "\n"@ + metric_head(
            "wasm_proxy_requests_blocked_by_plugin_total"@,
            "Requêtes bloquées par un plugin"@,
        )
            == "\n# HELP wasm_proxy_requests_blocked_by_plugin_total Requêtes bloquées par un plugin\n# TYPE wasm_proxy_requests_blocked_by_plugin_total counter\nwasm_proxy_requests_blocked_by_plugin_total "@,
{
    reveal_strlit("\n");
    reveal_strlit("# HELP ");
    reveal_strlit(" ");
    reveal_strlit("\n# TYPE ");
    reveal_strlit(" counter\n");
    reveal_strlit("wasm_proxy_requests_blocked_by_plugin_total");
    reveal_strlit("Requêtes bloquées par un plugin");
    reveal_strlit("\n# HELP wasm_proxy_requests_blocked_by_plugin_total Requêtes bloquées par un plugin\n# TYPE wasm_proxy_requests_blocked_by_plugin_total counter\nwasm_proxy_requests_blocked_by_plugin_total ");
    assert("\n"@ + metric_head(
        "wasm_proxy_requests_blocked_by_plugin_total"@,
        "Requêtes bloquées par un plugin"@,
    )
        =~= "\n# HELP wasm_proxy_requests_blocked_by_plugin_total Requêtes bloquées par un plugin\n# TYPE wasm_proxy_requests_blocked_by_plugin_total counter\nwasm_proxy_requests_blocked_by_plugin_total "@);
}

/// What stands before the number of backend errors.
proof fn lemma_errors_head()
    ensures
        "\n"@ + metric_head(
            "wasm_proxy_backend_errors_total"@,
            "Échecs de communication avec un backend"@,
        )
            == "\n# HELP wasm_proxy_backend_errors_total Échecs de communication avec un backend\n# TYPE wasm_proxy_backend_errors_total counter\nwasm_proxy_backend_errors_total "@,
{
    reveal_strlit("\n");
    reveal_strlit("# HELP ");
    reveal_strlit(" ");
    reveal_strlit("\n# TYPE ");
    reveal_strlit(" counter\n");
    reveal_strlit("wasm_proxy_backend_errors_total");
    reveal_strlit("Échecs de communication avec un backend");
    reveal_strlit("\n# HELP wasm_proxy_backend_errors_total Échecs de communication avec un backend\n# TYPE wasm_proxy_backend_errors_total counter\nwasm_proxy_backend_errors_total ");
    assert("\n"@ + metric_head(
        "wasm_proxy_backend_errors_total"@,
        "Échecs de communication avec un backend"@,
    )
        =~= "\n# HELP wasm_proxy_backend_errors_total Échecs de communication avec un backend\n# TYPE wasm_proxy_backend_errors_total counter\nwasm_proxy_backend_errors_total "@);
}

/// What stands before the number of backend timeouts.
proof fn lemma_timeouts_head()
    ensures
        "\n"@ + metric_head(
            "wasm_proxy_backend_timeouts_total"@,
            "Requêtes backend ayant dépassé le timeout"@,
        )
            == "\n# HELP wasm_proxy_backend_timeouts_total Requêtes backend ayant dépassé le timeout\n# TYPE wasm_proxy_backend_timeouts_total counter\nwasm_proxy_backend_timeouts_total "@,
{
    reveal_strlit("\n");
    reveal_strlit("# HELP ");
    reveal_strlit(" ");
    reveal_strlit("\n# TYPE ");
    reveal_strlit(" counter\n");
    reveal_strlit("wasm_proxy_backend_timeouts_total");
    reveal_strlit("Requêtes backend ayant dépassé le timeout");
    reveal_strlit("\n# HELP wasm_proxy_backend_timeouts_total Requêtes backend ayant dépassé le timeout\n# TYPE wasm_proxy_backend_timeouts_total counter\nwasm_proxy_backend_timeouts_total ");
    assert("\n"@ + metric_head(
        "wasm_proxy_backend_timeouts_total"@,
        "Requêtes backend ayant dépassé le timeout"@,
    )
        =~= "\n# HELP wasm_proxy_backend_timeouts_total Requêtes backend ayant dépassé le timeout\n# TYPE wasm_proxy_backend_timeouts_total counter\nwasm_proxy_backend_timeouts_total "@);
}

} // verus!

use wasm_proxy::metrics::Metrics;

#[test]
fn counters_begin_at_zero() {
    let metrics = Metrics::default();
    assert_eq!(metrics.requests_total, 0);
    assert_eq!(metrics.requests_blocked_by_plugin, 0);
    assert_eq!(metrics.backend_errors_total, 0);
    assert_eq!(metrics.backend_timeouts_total, 0);
}

#[test]
fn each_counter_counts_for_itself() {
    let mut metrics = Metrics::default();
    metrics.count_request();
    metrics.count_request();
    metrics.count_request();
    metrics.count_request();
    metrics.count_block();
    metrics.count_block();
    metrics.count_block();
    metrics.count_backend_error();
    metrics.count_backend_error();
    metrics.count_backend_timeout();
    assert_eq!(metrics.requests_total, 4);
    assert_eq!(metrics.requests_blocked_by_plugin, 3);
    assert_eq!(metrics.backend_errors_total, 2);
    assert_eq!(metrics.backend_timeouts_total, 1);
}

#[test]
fn a_counter_wraps_around() {
    let mut metrics = Metrics::default();
    metrics.requests_total = u64::MAX;
    metrics.count_request();
    assert_eq!(metrics.requests_total, 0);
}

#[test]
fn counters_are_shown_as_text() {
    let metrics = Metrics {
        requests_total: 12,
        requests_blocked_by_plugin: 3,
        backend_errors_total: 0,
        backend_timeouts_total: 18446744073709551615,
    };
    assert_eq!(
        metrics.render_prometheus(),
        "# HELP wasm_proxy_requests_total Nombre total de requêtes reçues\n\
         # TYPE wasm_proxy_requests_total counter\n\
         wasm_proxy_requests_total 12\n\
         # HELP wasm_proxy_requests_blocked_by_plugin_total Requêtes bloquées par un plugin\n\
         # TYPE wasm_proxy_requests_blocked_by_plugin_total counter\n\
         wasm_proxy_requests_blocked_by_plugin_total 3\n\
         # HELP wasm_proxy_backend_errors_total Échecs de communication avec un backend\n\
         # TYPE wasm_proxy_backend_errors_total counter\n\
         wasm_proxy_backend_errors_total 0\n\
         # HELP wasm_proxy_backend_timeouts_total Requêtes backend ayant dépassé le timeout\n\
         # TYPE wasm_proxy_backend_timeouts_total counter\n\
         wasm_proxy_backend_timeouts_total 18446744073709551615\n"
    );
}

use wasm_proxy::config::{
    default_max_body_bytes, default_request_timeout_ms, Config, ConfigError, ConfigFile, Route,
};

fn route(path_prefix: &str, backend: &str) -> Route {
    Route { path_prefix: path_prefix.to_string(), backend: backend.to_string() }
}

fn file(routes: Vec<Route>) -> ConfigFile {
    ConfigFile {
        listen_addr: "127.0.0.1:8080".to_string(),
        routes,
        plugins: None,
        request_timeout_ms: None,
        max_body_bytes: None,
    }
}

#[test]
fn what_a_file_leaves_out_takes_its_default() {
    let config = Config::load(file(vec![route("/", "http://127.0.0.1:9002")])).ok().unwrap();
    assert_eq!(config.listen_addr, "127.0.0.1:8080");
    assert_eq!(config.routes.len(), 1);
    assert!(config.plugins.is_empty());
    assert_eq!(config.request_timeout_ms, 5_000);
    assert_eq!(config.max_body_bytes, 10_485_760);
    assert_eq!(default_request_timeout_ms(), 5_000);
    assert_eq!(default_max_body_bytes(), 10 * 1024 * 1024);
}

#[test]
fn what_a_file_says_is_kept() {
    let mut all = file(vec![route("/api", "http://a"), route("/", "http://b")]);
    all.plugins = Some(vec!["admin_guard.wasm".to_string(), "error_masker.wasm".to_string()]);
    all.request_timeout_ms = Some(1_000);
    all.max_body_bytes = Some(0);
    let config = Config::load(all).ok().unwrap();
    assert_eq!(config.plugins, ["admin_guard.wasm", "error_masker.wasm"]);
    assert_eq!(config.request_timeout_ms, 1_000);
    assert_eq!(config.max_body_bytes, 0);
    assert_eq!(config.routes[1].backend, "http://b");
}

#[test]
fn a_configuration_needs_a_route() {
    assert_eq!(Config::load(file(Vec::new())).err(), Some(ConfigError::NoRoutes));
}

#[test]
fn the_first_matching_route_wins() {
    let config = Config::load(file(vec![
        route("/api", "http://first"),
        route("/api/v2", "http://shadowed"),
        route("/", "http://rest"),
    ]))
    .ok()
    .unwrap();
    let backend = |path: &str| config.match_route(path).map(|route| route.backend.clone());
    assert_eq!(backend("/api/v2/users").as_deref(), Some("http://first"));
    assert_eq!(backend("/apix").as_deref(), Some("http://first"));
    assert_eq!(backend("/other").as_deref(), Some("http://rest"));
    assert_eq!(backend("other"), None);
    let copy = config.routes[0].clone();
    assert_eq!(copy.path_prefix, "/api");
}

#[test]
fn an_empty_prefix_matches_everything() {
    let config = Config::load(file(vec![route("", "http://all")])).ok().unwrap();
    assert!(config.match_route("").is_some());
    assert!(config.match_route("x").is_some());
}

use rzgate::auth::{
    build_auth_tokens, get_access_level, get_roomzin_token, needs_reload, validate_rzgate_token, AccessLevel,
    AuthFile, TokenSet, TokenStore,
};
use rzgate::config::{effective_workers_for, mode_from_lowercase, normalize_addr, Config, Mode};

fn strings(v: &[&str]) -> Vec<String> {
    v.iter().map(|s| s.to_string()).collect()
}

fn config(addr: &str, workers: usize) -> Config {
    Config {
        mode: Mode::Router,
        listening_addr: "0.0.0.0".to_string(),
        http_port: 8777,
        roomzin_addr: addr.to_string(),
        roomzin_port: 7777,
        timeout_sec: 2,
        keep_alive_sec: 15,
        conn_per_node: 10,
        max_active_conns: 10000,
        worker_threads: workers,
    }
}

#[test]
fn mode_names() {
    assert_eq!(Mode::from_str("standalone"), Ok(Mode::Standalone));
    assert_eq!(Mode::from_str("Router"), Ok(Mode::Router));
    assert_eq!(Mode::from_str("ROUTER"), Ok(Mode::Router));
    assert_eq!(
        Mode::from_str("cluster"),
        Err("Invalid mode: cluster. Must be 'standalone' or 'router'".to_string())
    );
    assert_eq!(
        mode_from_lowercase("Shard", "shard"),
        Err("Invalid mode: Shard. Must be 'standalone' or 'router'".to_string())
    );
    assert_eq!(Mode::Standalone.to_string(), "standalone");
    assert_eq!(Mode::Router.to_string(), "router");
    for m in [Mode::Standalone, Mode::Router] {
        assert_eq!(Mode::from_str(&m.to_string()), Ok(m));
    }
}

#[test]
fn address_normalization() {
    assert_eq!(normalize_addr("http://router.example.com/"), "router.example.com");
    assert_eq!(normalize_addr("https://10.0.0.1//"), "10.0.0.1");
    assert_eq!(normalize_addr("http://http://x"), "x");
    assert_eq!(normalize_addr("127.0.0.1"), "127.0.0.1");
    assert_eq!(normalize_addr("https://http://x"), "http://x");
    assert_eq!(normalize_addr(""), "");
    let c = config("http://router.example.com/", 0).normalized();
    assert_eq!(c.roomzin_addr, "router.example.com");
    assert_eq!(c.roomzin_port, 7777);
}

#[test]
fn workers_and_keep_alive() {
    assert_eq!(effective_workers_for(4, 8), 4);
    assert_eq!(effective_workers_for(0, 8), 24);
    assert_eq!(effective_workers_for(0, usize::MAX), usize::MAX);
    assert_eq!(config("a", 6).effective_workers(), 6);
    let auto = config("a", 0).effective_workers();
    assert!(auto >= 3 && auto % 3 == 0);
    assert_eq!(config("a", 0).keep_alive_interval().as_secs(), 15);
}

fn tokens() -> rzgate::auth::AuthTokens {
    build_auth_tokens(AuthFile {
        roomzin_token: "engine-secret".to_string(),
        full_access_tokens: strings(&["admin", "ops", "admin"]),
        read_only_tokens: strings(&["viewer", "ops"]),
    })
}

#[test]
fn access_levels() {
    let t = tokens();
    assert_eq!(t.full_access_tokens.len(), 2);
    assert_eq!(get_access_level(Some(&t), "admin"), Some(AccessLevel::Full));
    // full access wins when a token is in both lists
    assert_eq!(get_access_level(Some(&t), "ops"), Some(AccessLevel::Full));
    assert_eq!(get_access_level(Some(&t), "viewer"), Some(AccessLevel::ReadOnly));
    assert_eq!(get_access_level(Some(&t), "nobody"), None);
    assert_eq!(get_access_level(None, "admin"), None);
    assert!(validate_rzgate_token(Some(&t), "viewer"));
    assert!(!validate_rzgate_token(Some(&t), "Viewer"));
    assert!(!validate_rzgate_token(None, "viewer"));
    assert_eq!(get_roomzin_token(&t), "engine-secret");
}

#[test]
fn token_sets() {
    let s = TokenSet::from_list(strings(&["a", "b", "a", "c", "b"]));
    assert_eq!(s.len(), 3);
    assert!(s.contains("c"));
    assert!(!s.contains("d"));
}

#[test]
fn token_store_lifecycle() {
    let mut store = TokenStore::new();
    assert_eq!(store.access_level_of("admin"), None);
    assert_eq!(store.reload_tokens(tokens()), Err("Auth tokens not initialized".to_string()));
    assert!(store.init_tokens(tokens()).is_ok());
    assert_eq!(store.init_tokens(tokens()), Err("Tokens already loaded".to_string()));
    assert_eq!(store.access_level_of("viewer"), Some(AccessLevel::ReadOnly));
    let newer = build_auth_tokens(AuthFile {
        roomzin_token: "t2".to_string(),
        full_access_tokens: strings(&["viewer"]),
        read_only_tokens: vec![],
    });
    assert!(store.reload_tokens(newer).is_ok());
    assert_eq!(store.access_level_of("viewer"), Some(AccessLevel::Full));
    assert_eq!(store.access_level_of("admin"), None);
    assert!(needs_reload(10, 11));
    assert!(!needs_reload(10, 10));
}

#[test]
fn token_summary() {
    let t = tokens();
    assert_eq!(
        rzgate::auth::debug_tokens(Some(&t)).unwrap(),
        "roomzin: engine-secret, full_access_count: 2, read_only_count: 2"
    );
    assert_eq!(rzgate::auth::debug_tokens(None), None);
}

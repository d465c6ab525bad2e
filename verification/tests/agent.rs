use tau::pool::{
    build_ws_url, compute_ws_pool_delta, is_stale_chain_error, pool_max_from_setting, LlmError, PoolKey,
    ResponsesConfig, WsPool, WsPoolStats, DEFAULT_POOL_MAX, MAX_CONNECTION_AGE_MS,
};

fn make_config(base_url: &str, account_id: Option<&str>) -> ResponsesConfig {
    ResponsesConfig {
        base_url: base_url.into(),
        api_key: "test".into(),
        model_id: "gpt-5-codex".into(),
        account_id: account_id.map(str::to_owned),
        supports_reasoning_effort: false,
        supports_reasoning_summary: false,
        supports_verbosity: false,
        supports_phase: false,
        supports_websocket: true,
        prompt_cache_key: None,
        prompt_cache_retention: None,
    }
}

#[test]
fn keys_distinguish_sessions_under_same_account() {
    let cfg = make_config("https://chatgpt.com/backend-api", Some("acc"));
    let a = PoolKey::for_request(&cfg, "session-a");
    let b = PoolKey::for_request(&cfg, "session-b");
    assert_ne!(a, b);
}

#[test]
fn keys_distinguish_accounts_under_same_session() {
    let a = PoolKey::for_request(&make_config("https://chatgpt.com/backend-api", Some("acc-1")), "session");
    let b = PoolKey::for_request(&make_config("https://chatgpt.com/backend-api", Some("acc-2")), "session");
    assert_ne!(a, b);
}

fn key(session: &str) -> PoolKey {
    PoolKey::for_request(&make_config("http://127.0.0.1/backend-api", Some("acc")), session)
}

#[test]
fn pool_routes_each_session_to_its_own_socket_and_reuses_them() {
    // Alternating A, B, A reuses A's connection: one connection per session.
    let mut pool: WsPool<u32> = WsPool::with_max(DEFAULT_POOL_MAX);
    let mut upgrades = 0u32;
    let mut turns = vec![0u32; 4];
    for session in ["session-a", "session-b", "session-a"] {
        let conn = match pool.checkout(&key(session), "test", 0) {
            Some(c) => c,
            None => {
                upgrades += 1;
                upgrades
            }
        };
        turns[conn as usize] += 1;
        pool.release(key(session), conn, "test".to_owned(), 0);
    }
    assert_eq!(upgrades, 2);
    assert_eq!(&turns[1..3], &[2, 1]);
}

#[test]
fn pool_evicts_lru_when_capacity_exceeded() {
    let mut pool: WsPool<u32> = WsPool::with_max(2);
    let mut upgrades = 0u32;
    let mut turn = |pool: &mut WsPool<u32>, session: &str, upgrades: &mut u32| {
        let conn = match pool.checkout(&key(session), "test", 0) {
            Some(c) => c,
            None => {
                *upgrades += 1;
                *upgrades
            }
        };
        pool.release(key(session), conn, "test".to_owned(), 0);
    };
    for session in ["a", "b", "c"] {
        turn(&mut pool, session, &mut upgrades);
    }
    assert_eq!(pool.len(), 2);
    assert_eq!(upgrades, 3);
    turn(&mut pool, "a", &mut upgrades);
    assert_eq!(upgrades, 4);
}

#[test]
fn pool_reopens_aged_out_connections_on_checkout() {
    let mut pool: WsPool<u32> = WsPool::with_max(DEFAULT_POOL_MAX);
    pool.release(key("session-aged"), 1, "test".to_owned(), 1_000);
    assert!(pool.checkout(&key("session-aged"), "test", 1_000 + MAX_CONNECTION_AGE_MS + 1_000).is_none());
    assert_eq!(pool.len(), 0);
}

#[test]
fn checkout_drops_connection_opened_with_other_bearer() {
    let mut pool: WsPool<u32> = WsPool::with_max(3);
    pool.release(key("s"), 7, "old-token".to_owned(), 0);
    assert_eq!(pool.checkout(&key("s"), "new-token", 0), None);
    assert_eq!(pool.len(), 0);
}

#[test]
fn released_connection_comes_back_on_checkout() {
    let mut pool: WsPool<u32> = WsPool::with_max(3);
    pool.release(key("s"), 42, "tok".to_owned(), 10);
    assert_eq!(pool.checkout(&key("s"), "tok", 10 + MAX_CONNECTION_AGE_MS - 1), Some(42));
    assert_eq!(pool.checkout(&key("s"), "tok", 10), None);
}

#[test]
fn flush_empties_pool() {
    let mut pool: WsPool<u32> = WsPool::with_max(3);
    pool.release(key("a"), 1, "tok".to_owned(), 0);
    pool.release(key("b"), 2, "tok".to_owned(), 0);
    pool.flush();
    assert_eq!(pool.len(), 0);
}

#[test]
fn pool_max_setting_parses_positive_values_only() {
    assert_eq!(pool_max_from_setting(Some("4")), 4);
    assert_eq!(pool_max_from_setting(Some("+7")), 7);
    assert_eq!(pool_max_from_setting(Some("0")), DEFAULT_POOL_MAX);
    assert_eq!(pool_max_from_setting(Some("-3")), DEFAULT_POOL_MAX);
    assert_eq!(pool_max_from_setting(Some(" 4")), DEFAULT_POOL_MAX);
    assert_eq!(pool_max_from_setting(Some("")), DEFAULT_POOL_MAX);
    assert_eq!(pool_max_from_setting(None), DEFAULT_POOL_MAX);
}

#[test]
fn ws_url_switches_scheme_and_appends_path() {
    match build_ws_url("https://chatgpt.com/backend-api/") {
        Ok(url) => assert_eq!(url, "wss://chatgpt.com/backend-api/codex/responses"),
        Err(_) => panic!("https base must map"),
    }
    match build_ws_url("http://127.0.0.1:9/backend-api") {
        Ok(url) => assert_eq!(url, "ws://127.0.0.1:9/backend-api/codex/responses"),
        Err(_) => panic!("http base must map"),
    }
    match build_ws_url("ftp://host") {
        Err(LlmError::HttpStatus(code, body)) => {
            assert_eq!(code, 0);
            assert_eq!(body, "ws scheme unsupported in base_url: ftp://host");
        }
        Ok(_) => panic!("ftp must be refused"),
    }
}

#[test]
fn stale_chain_error_detection() {
    let stale = LlmError::HttpStatus(400, r#"{"error":{"message":"previous_response_id 'resp_x' not found"}}"#.into());
    assert!(is_stale_chain_error(&stale));

    let unrelated = LlmError::HttpStatus(400, r#"{"error":{"message":"bad request"}}"#.into());
    assert!(!is_stale_chain_error(&unrelated));

    let server = LlmError::HttpStatus(503, "previous_response upstream blip".into());
    assert!(!is_stale_chain_error(&server));
}

#[test]
fn ws_pool_delta_subtracts_each_counter() {
    let before = WsPoolStats { upgrades: 3, silent_reconnects: 1, chain_strips_on_fresh: 1 };
    let after = WsPoolStats { upgrades: 5, silent_reconnects: 2, chain_strips_on_fresh: 4 };
    let delta = compute_ws_pool_delta(before, after);
    assert_eq!(delta.upgrades, 2);
    assert_eq!(delta.silent_reconnects, 1);
    assert_eq!(delta.chain_strips_on_fresh, 3);
}

#[test]
fn ws_pool_delta_saturates_on_counter_reset() {
    let before = WsPoolStats { upgrades: 10, silent_reconnects: 0, chain_strips_on_fresh: 0 };
    let after = WsPoolStats { upgrades: 2, silent_reconnects: 0, chain_strips_on_fresh: 0 };
    let delta = compute_ws_pool_delta(before, after);
    assert_eq!(delta.upgrades, 0);
}

#[test]
fn ws_pool_delta_clamps_u64_to_u32() {
    let before = WsPoolStats::default();
    let after = WsPoolStats { upgrades: u64::from(u32::MAX) + 5, silent_reconnects: 0, chain_strips_on_fresh: 0 };
    let delta = compute_ws_pool_delta(before, after);
    assert_eq!(delta.upgrades, u32::MAX);
}

#[test]
fn turns_through_pool_reuse_successful_connections_and_drop_failed_ones() {
    let mut pool: WsPool<u32> = WsPool::with_max(DEFAULT_POOL_MAX);
    let mut opened = 0u32;
    let mut connect = || {
        opened += 1;
        Ok((opened, 0u64))
    };
    let first = pool.run_turn_through_pool(key("s"), "tok".to_owned(), 10, &mut connect, |c| (c, Ok::<u32, LlmError>(c)));
    assert_eq!(first.ok(), Some(1));
    let again = pool.run_turn_through_pool(key("s"), "tok".to_owned(), 20, &mut connect, |c| (c, Ok::<u32, LlmError>(c)));
    assert_eq!(again.ok(), Some(1), "the cached connection serves the next turn");
    let failed = pool.run_turn_through_pool(key("s"), "tok".to_owned(), 30, &mut connect, |c| {
        (c, Err::<u32, LlmError>(LlmError::HttpStatus(0, "stream error: ws closed".to_owned())))
    });
    assert!(failed.is_err());
    assert_eq!(pool.len(), 0, "a failed turn drops its connection");
    let reopened = pool.run_turn_through_pool(key("s"), "tok".to_owned(), 40, &mut connect, |c| (c, Ok::<u32, LlmError>(c)));
    assert_eq!(reopened.ok(), Some(2));
    let refused = pool.run_turn_through_pool(key("t"), "tok".to_owned(), 50, || Err(LlmError::HttpStatus(426, String::new())), |c: u32| (c, Ok::<u32, LlmError>(c)));
    assert!(refused.is_err());
    assert_eq!(pool.len(), 1);
}

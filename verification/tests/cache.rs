use ctxl::cache::{
    cache_check, cache_key, check_dirty, check_head, check_lookup, check_start, normalize_params,
    xxh128_hex, CacheAnswers, CacheCheckResult, CacheContext, CacheQuestion, GitOutput,
};
use ctxl::global_db::CacheLookup;
use ctxl::intercept::{write_through_action, write_through_key, WriteThrough};

#[test]
fn normalize_params_removes_session_id() {
    let input = r#"{"session_id":"abc","tool":"Bash","command":"ls"}"#;
    let normalized = normalize_params(input);
    let val: serde_json::Value = serde_json::from_str(&normalized).unwrap();
    assert!(val.get("session_id").is_none(), "session_id should be removed");
    assert_eq!(val.get("tool").and_then(|v| v.as_str()), Some("Bash"));
}

#[test]
fn normalize_params_sorts_keys() {
    let a = normalize_params(r#"{"z":"last","a":"first","m":"mid"}"#);
    let b = normalize_params(r#"{"m":"mid","z":"last","a":"first"}"#);
    assert_eq!(a, b, "key order should not affect normalized form");
}

#[test]
fn normalize_params_handles_invalid_json() {
    let bad = "not json at all";
    let normalized = normalize_params(bad);
    assert_eq!(normalized, bad, "invalid JSON should pass through unchanged");
}

#[test]
fn normalize_params_sorts_keys_at_every_depth() {
    let a = normalize_params(r#"{"o":{"y":[{"d":1,"c":2}],"x":null},"n":-3}"#);
    assert_eq!(a, r#"{"n":-3,"o":{"x":null,"y":[{"c":2,"d":1}]}}"#);
    assert_eq!(normalize_params(" [1, 2.5 ,\"s\"] "), r#"[1,2.5,"s"]"#);
}

#[test]
fn xxh128_hex_stable() {
    let h1 = xxh128_hex("hello world");
    let h2 = xxh128_hex("hello world");
    assert_eq!(h1, h2, "hash must be deterministic");
    assert_eq!(h1.len(), 32, "xxh128 hex is 32 chars");
}

#[test]
fn xxh128_hex_differs_on_different_input() {
    let h1 = xxh128_hex("hello world");
    let h2 = xxh128_hex("hello world!");
    assert_ne!(h1, h2, "different inputs must produce different hashes");
}

#[test]
fn xxh128_hex_is_the_hash() {
    let expected = format!("{:032x}", xxhash_rust::xxh3::xxh3_128("größe".as_bytes()));
    assert_eq!(xxh128_hex("größe"), expected);
}

fn answers(
    dirty: bool,
    head: Option<&str>,
    found: Result<Option<CacheLookup>, String>,
    entries: i64,
) -> CacheAnswers {
    CacheAnswers { dirty, head: head.map(String::from), found, entries }
}

fn repo() -> CacheContext {
    CacheContext { repo_root: Some("/some/repo".to_string()), cwd: None }
}

#[test]
fn cache_check_unavailable_when_no_repo_root() {
    let ctx = CacheContext { repo_root: None, cwd: None };
    let result = cache_check(&ctx, answers(false, Some("abc"), Ok(None), 0));
    assert!(matches!(result, CacheCheckResult::Unavailable(_)), "no repo_root → unavailable");
}

#[test]
fn param_hash_same_for_reordered_json() {
    let a = xxh128_hex(&normalize_params(r#"{"b":2,"a":1}"#));
    let b = xxh128_hex(&normalize_params(r#"{"a":1,"b":2}"#));
    assert_eq!(a, b, "reordered JSON should produce same hash after normalization");
}

#[test]
fn dirty_worktree_is_not_looked_up() {
    assert!(matches!(
        check_dirty(true),
        CacheQuestion::Done(CacheCheckResult::Unavailable(_))
    ));
    let hit = Ok(Some(CacheLookup { blob_id: 1, created_at: "now".to_owned() }));
    let result = cache_check(&repo(), answers(true, Some("abc"), hit, 1));
    assert!(matches!(result, CacheCheckResult::Unavailable(_)));
}

#[test]
fn a_hit_names_the_blob() {
    let hit = Ok(Some(CacheLookup { blob_id: 42, created_at: "2024-01-02".to_owned() }));
    let result = cache_check(&repo(), answers(false, Some("abc"), hit, 1));
    assert_eq!(result.to_text(), "cache hit: blob_id=42, stored 2024-01-02");
}

#[test]
fn misses_tell_why() {
    assert!(matches!(check_start(&repo()), CacheQuestion::Dirty));
    let none = cache_check(&repo(), answers(false, Some("abc"), Ok(None), 0));
    assert!(matches!(none, CacheCheckResult::MissNoMatch));
    let moved = cache_check(&repo(), answers(false, Some("abc"), Ok(None), 3));
    assert!(matches!(moved, CacheCheckResult::MissHeadChanged));
    let no_head = cache_check(&repo(), answers(false, None, Ok(None), 3));
    assert!(matches!(no_head, CacheCheckResult::Unavailable(_)));
    let broken = cache_check(&repo(), answers(false, Some("abc"), Err("locked".to_owned()), 3));
    match broken {
        CacheCheckResult::Unavailable(reason) => assert!(reason.contains("locked")),
        _ => panic!("an error makes the cache unavailable"),
    }
    assert!(matches!(check_lookup(Ok(None)), CacheQuestion::Count));
}

#[test]
fn keys_ignore_order_and_session() {
    let a = cache_key("/r", "Bash", None, r#"{"b":2,"a":1,"session_id":"x"}"#, "h".to_owned());
    let b = cache_key("/r", "Bash", None, r#"{"a":1,"b":2,"session_id":"y"}"#, "h".to_owned());
    assert_eq!(a.param_hash, b.param_hash);
    assert_eq!(a.git_head, "h");
    let q = check_head("/r", "Bash", Some("mixed"), "{}", Some("h".to_owned()));
    match q {
        CacheQuestion::Lookup(key) => {
            assert_eq!(key.output_mode, Some("mixed".to_owned()));
            assert_eq!(key.param_hash, xxh128_hex("{}"));
        }
        _ => panic!("a head leads to a lookup"),
    }
}

#[test]
fn git_answers_are_read() {
    let ok = |s: &str| Some(GitOutput { success: true, stdout: s.as_bytes().to_vec() });
    let failed = Some(GitOutput { success: false, stdout: b"/x\n".to_vec() });
    let ctx = CacheContext::new(ok("/home/me/repo\n"));
    assert_eq!(ctx.repo_root, Some("/home/me/repo".to_owned()));
    assert_eq!(CacheContext::new(failed).repo_root, None);
    assert_eq!(ctx.git_head(ok("abc123\n")), Some("abc123".to_owned()));
    assert!(!ctx.is_dirty(ok("")));
    assert!(ctx.is_dirty(ok(" M src/lib.rs\n")));
    assert!(ctx.is_dirty(None));
    let inside = CacheContext::with_cwd(Some("/home/me/repo/sub".to_owned()), ok("/home/me/repo"));
    assert_eq!(inside.cwd, Some("/home/me/repo/sub".to_owned()));
}

#[test]
fn invalid_bytes_of_git_are_replaced() {
    let out = GitOutput { success: true, stdout: vec![b'/', b'r', 0xff, b'\n'] };
    assert_eq!(CacheContext::new(Some(out)).repo_root, Some("/r\u{fffd}".to_owned()));
}

#[test]
fn what_is_written_through_is_found() {
    let params = r#"{"command":"ls","session_id":"s"}"#;
    let written = write_through_key("/r", "Bash", "mixed", Some(params), "out", "h".to_owned());
    let asked = cache_key("/r", "Bash", Some("mixed"), params, "h".to_owned());
    assert_eq!(written.param_hash, asked.param_hash);
    assert_eq!(written.output_mode, asked.output_mode);
    let hit = CacheLookup { blob_id: 7, created_at: "t".to_owned() };
    assert!(matches!(write_through_action(Ok(Some(hit))), WriteThrough::Link(7)));
    assert!(matches!(write_through_action(Ok(None)), WriteThrough::Store));
    assert!(matches!(write_through_action(Err("e".to_owned())), WriteThrough::GiveUp(_)));
}

#[test]
fn normalizing_twice_changes_nothing() {
    for params in [
        r#"{"b": 1, "a": {"d": [true, null, "x\ny"], "c": -2}, "session_id": "s"}"#,
        r#"[3, {"z": 0, "y": 18446744073709551615}]"#,
        "not json",
    ] {
        let once = normalize_params(params);
        assert_eq!(normalize_params(&once), once);
    }
    assert_eq!(normalize_params(r#"{"b": 1, "session_id": "s", "a": 2}"#), r#"{"a":2,"b":1}"#);
}

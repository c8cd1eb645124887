use esmeril::cache::{after_fetch, cache_dir_parts, cache_step, key, within_ttl, CacheStep};
use esmeril::init::{init_gate, next_steps, project_dir_name, InitError};
use esmeril::template::files;

#[test]
fn keys_are_deterministic_and_distinct() {
    assert_eq!(key("https://x/1"), key("https://x/1"));
    assert_ne!(key("https://x/1"), key("https://x/2"));
}

#[test]
fn keys_are_sixteen_hex_digits() {
    for url in ["", "https://raw.githubusercontent.com/a/b/main/c/d", "é"] {
        let k = key(url);
        assert_eq!(k.len(), 16);
        assert!(k.chars().all(|c| c.is_ascii_hexdigit() && !c.is_ascii_uppercase()));
    }
    let mut h = std::collections::hash_map::DefaultHasher::new();
    std::hash::Hash::hash("https://x/1", &mut h);
    assert_eq!(key("https://x/1"), format!("{:016x}", std::hash::Hasher::finish(&h)));
}

#[test]
fn offline_serves_only_the_cache() {
    match cache_step(Some("cached-body".into()), true, false) {
        CacheStep::Serve(t) => assert_eq!(t, "cached-body"),
        _ => panic!("expected the cached copy"),
    }
    match cache_step(None, true, true) {
        CacheStep::Refuse(m) => assert_eq!(m, "offline and no cached copy"),
        _ => panic!("expected a refusal"),
    }
    assert!(matches!(cache_step(Some("x".into()), false, false), CacheStep::Fetch));
    assert!(matches!(cache_step(Some("x".into()), false, true), CacheStep::Serve(_)));
    assert!(matches!(cache_step(None, false, true), CacheStep::Fetch));
}

#[test]
fn failed_fetch_falls_back_to_the_cache() {
    assert_eq!(after_fetch(Ok("new".into()), Some("old".into())), (Ok("new".to_string()), true));
    assert_eq!(after_fetch(Err("down".into()), Some("old".into())), (Ok("old".to_string()), false));
    assert_eq!(after_fetch(Err("down".into()), None), (Err("down".to_string()), false));
}

#[test]
fn freshness_is_one_hour() {
    assert!(within_ttl(0, 0));
    assert!(within_ttl(3599, 999_999_999));
    assert!(within_ttl(3600, 0));
    assert!(!within_ttl(3600, 1));
    assert!(!within_ttl(7200, 0));
}

#[test]
fn cache_dir_order_of_preference() {
    let s = |x: &str| Some(x.to_string());
    assert_eq!(cache_dir_parts(s("/c"), s("L"), s("X"), s("H")), vec!["/c"]);
    assert_eq!(cache_dir_parts(None, s("L"), s("X"), s("H")), vec!["L", "esmeril", "cache"]);
    assert_eq!(cache_dir_parts(None, None, s("X"), s("H")), vec!["X", "esmeril"]);
    assert_eq!(cache_dir_parts(None, None, None, s("H")), vec!["H", ".cache", "esmeril"]);
    assert_eq!(cache_dir_parts(None, None, None, None), vec!["."]);
}

#[test]
fn init_refuses_non_empty_dir() {
    let err = init_gate("esmeril-init-nonempty", false, false).unwrap_err();
    assert!(err.message().contains("--force"));
    match err {
        InitError::NotEmpty(t) => assert_eq!(t, "esmeril-init-nonempty"),
    }
    assert_eq!(
        init_gate("proj", false, false).unwrap_err().message(),
        "'proj' is not empty; use --force to overwrite"
    );
}

#[test]
fn init_force_overwrites() {
    assert!(init_gate("esmeril-init-force", true, false).is_ok());
    assert!(init_gate("proj", false, true).is_ok());
    let fs = files("esmeril-init-force", false, false);
    assert!(fs.iter().any(|(p, _)| p == "default.project.json"));
    assert_eq!(project_dir_name(Some("x")), "x");
    assert_eq!(project_dir_name(None), "game");
    assert_eq!(next_steps(false), "  next:  aftman install && rojo serve");
}

#[test]
fn init_report_lists_the_files() {
    let fs = files("My Game", false, true);
    let lines = esmeril::init::init_lines("My Game", "/tmp/My Game", &fs, true);
    assert_eq!(lines.len(), 3 + fs.len() + 3);
    assert_eq!(lines[0][1].text, "scaffolded");
    assert_eq!(lines[0][1].style, esmeril::render::Style::GreenBold);
    assert_eq!(lines[0][2].text, " My Game ");
    assert_eq!(lines[1][1].text, "/tmp/My Game");
    assert_eq!(lines[3][2].text, " .github/workflows/ci.yml");
    assert_eq!(
        lines[lines.len() - 2][0].text,
        "  next:  aftman install && wally publish (set your real scope in wally.toml first)"
    );
    assert_eq!(lines[lines.len() - 1][0].text, "  check: esmeril check");
}

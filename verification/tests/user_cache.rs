use slurm_tui::users::{cache_userid, needs_lookup, resolve_user, UidCache};

fn chars(s: &str) -> Vec<char> {
    s.chars().collect()
}

fn cached(c: &UidCache, uid: &str) -> Option<String> {
    c.get(&chars(uid)).map(|v| v.into_iter().collect())
}

#[test]
fn uid_cache_set_then_get() {
    let mut c = UidCache::new();
    assert_eq!(cached(&c, "1001"), None);
    c.set(&chars("1001"), &chars("alice"));
    assert_eq!(cached(&c, "1001"), Some("alice".to_string()));
    c.set(&chars("1001"), &chars("bob"));
    assert_eq!(cached(&c, "1001"), Some("bob".to_string()));
    assert_eq!(cached(&c, "1002"), None);
}

#[test]
fn resolve_user_keeps_names() {
    let mut c = UidCache::new();
    assert_eq!(resolve_user(&mut c, "alice", Some("bob:x:1:1::/:/bin/sh")), "alice");
    assert_eq!(resolve_user(&mut c, "", None), "");
    assert_eq!(resolve_user(&mut c, "12a", None), "12a");
    assert_eq!(cached(&c, "12a"), None);
}

#[test]
fn resolve_user_from_lookup_then_cache() {
    let mut c = UidCache::new();
    let r = resolve_user(&mut c, "1001", Some("bob:x:1001:1001::/home/bob:/bin/bash"));
    assert_eq!(r, "bob");
    assert_eq!(cached(&c, "1001"), Some("bob".to_string()));
    // Once known, the cache answers and a later lookup is not used.
    assert_eq!(resolve_user(&mut c, "1001", Some("eve:x:1001")), "bob");
}

#[test]
fn resolve_user_failed_lookup_keeps_id() {
    let mut c = UidCache::new();
    assert_eq!(resolve_user(&mut c, "2002", Some("Error: ssh failed")), "2002");
    assert_eq!(cached(&c, "2002"), Some("2002".to_string()));
    assert_eq!(resolve_user(&mut c, "3003", Some("")), "3003");
    assert_eq!(resolve_user(&mut c, "4004", None), "4004");
    assert_eq!(cached(&c, "4004"), Some("4004".to_string()));
}

#[test]
fn needs_lookup_only_for_unknown_ids_with_login_node() {
    let mut c = UidCache::new();
    assert!(needs_lookup(&c, "1001", "login1"));
    assert!(!needs_lookup(&c, "1001", ""));
    assert!(!needs_lookup(&c, "alice", "login1"));
    c.set(&chars("1001"), &chars("alice"));
    assert!(!needs_lookup(&c, "1001", "login1"));
}

#[test]
fn cache_userid_learns_name_for_id() {
    let mut c = UidCache::new();
    cache_userid(&mut c, "alice(1234)");
    assert_eq!(cached(&c, "1234"), Some("alice".to_string()));
    cache_userid(&mut c, "carol(77))");
    assert_eq!(cached(&c, "77"), Some("carol".to_string()));
}

#[test]
fn cache_userid_ignores_other_fields() {
    let mut c = UidCache::new();
    cache_userid(&mut c, "1234(1234)");
    cache_userid(&mut c, "alice()");
    cache_userid(&mut c, "alice(12x)");
    cache_userid(&mut c, "N/A");
    cache_userid(&mut c, "(55)");
    assert_eq!(cached(&c, "1234"), None);
    assert_eq!(cached(&c, "55"), None);
}

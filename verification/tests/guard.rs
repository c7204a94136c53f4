use fpanel::login_guard::{login_key_admin, login_key_client, LoginGuard, MAX_LOGIN_ATTEMPTS, RATE_WINDOW_MS};
use fpanel::session::{extract_bearer, extract_sess, guard_claims, path_resource, register_prepare, require_client, Claims};

fn claims(sess: &str, role: &str) -> Claims {
    Claims { sub: 1, username: "u".to_string(), role: role.to_string(), sess: sess.to_string(), exp: 0 }
}

#[test]
fn keys_are_trimmed_and_lowercased() {
    assert_eq!(login_key_admin("  Root "), "admin:root");
    assert_eq!(login_key_client("Alice"), "client:alice");
}

#[test]
fn five_failures_lock_the_key() {
    let mut g = LoginGuard::new();
    let now = 1_000_000u64;
    for _ in 0..MAX_LOGIN_ATTEMPTS {
        assert!(g.check("admin:root", now).is_ok());
        g.record_failure("admin:root", now);
    }
    let e = g.check("admin:root", now + 1000).unwrap_err();
    assert_eq!(e.status, 429);
    assert_eq!(e.message, "Too many failed login attempts. Try again in 59s.");
}

#[test]
fn four_failures_still_allowed() {
    let mut g = LoginGuard::new();
    for _ in 0..4 {
        g.record_failure("k", 10);
    }
    assert!(g.check("k", 11).is_ok());
}

#[test]
fn lock_ends_with_window() {
    let mut g = LoginGuard::new();
    for _ in 0..5 {
        g.record_failure("k", 10);
    }
    assert!(g.check("k", 10 + RATE_WINDOW_MS - 1).is_err());
    assert!(g.check("k", 10 + RATE_WINDOW_MS).is_ok());
}

#[test]
fn clear_unlocks_and_keys_are_independent() {
    let mut g = LoginGuard::new();
    for _ in 0..5 {
        g.record_failure("a", 10);
    }
    assert!(g.check("b", 20).is_ok());
    assert!(g.check("a", 20).is_err());
    g.clear("a");
    assert!(g.check("a", 20).is_ok());
}

#[test]
fn session_is_read_from_path() {
    assert_eq!(extract_sess("/s/abc/domains"), Some("abc".to_string()));
    assert_eq!(extract_sess("/api/auth/login"), None);
    assert_eq!(extract_sess("/api/s"), None);
}

#[test]
fn resource_is_third_segment() {
    let r: String = path_resource("/s/abc/client/domains").into_iter().collect();
    assert_eq!(r, "client");
    let r: String = path_resource("/s").into_iter().collect();
    assert_eq!(r, "");
}

#[test]
fn bearer_is_required() {
    assert_eq!(extract_bearer(Some("Bearer tok")).unwrap(), "tok");
    let e = extract_bearer(None).unwrap_err();
    assert_eq!(e.status, 401);
    assert_eq!(e.message, "Token not found");
    assert!(extract_bearer(Some("Basic x")).is_err());
}

#[test]
fn mismatched_session_is_refused() {
    let e = guard_claims("/s/abc/domains", "abc", &claims("other", "admin")).unwrap_err();
    assert_eq!(e.status, 401);
    assert_eq!(e.message, "Session URL is not valid for this token");
}

#[test]
fn roles_are_kept_apart() {
    assert!(guard_claims("/s/abc/domains", "abc", &claims("abc", "admin")).is_ok());
    assert!(guard_claims("/s/abc/client/me", "abc", &claims("abc", "client")).is_ok());
    let e = guard_claims("/s/abc/client/me", "abc", &claims("abc", "admin")).unwrap_err();
    assert_eq!((e.status, e.message.as_str()), (403, "Admin tokens cannot access client endpoints"));
    let e = guard_claims("/s/abc/domains", "abc", &claims("abc", "client")).unwrap_err();
    assert_eq!((e.status, e.message.as_str()), (403, "Client accounts cannot access admin endpoints"));
    assert!(require_client(&claims("x", "client")).is_ok());
    assert_eq!(require_client(&claims("x", "admin")).unwrap_err().status, 403);
}

#[test]
fn registration_rules() {
    let e = register_prepare(1, "admin", "secret123").unwrap_err();
    assert_eq!(e.status, 403);
    let e = register_prepare(0, " ab ", "secret123").unwrap_err();
    assert_eq!(e.status, 400);
    let e = register_prepare(0, "admin", "12345").unwrap_err();
    assert_eq!(e.message, "Username must be at least 3 characters, password at least 6 characters");
    let (u, h) = register_prepare(0, "  admin ", "secret123").unwrap();
    assert_eq!(u, "admin");
    assert!(bcrypt::verify("secret123", &h).unwrap());
}

#[test]
fn other_keys_do_not_change_the_answer() {
    let mut g = LoginGuard::new();
    for _ in 0..4 {
        g.record_failure("k", 10);
    }
    for _ in 0..7 {
        g.record_failure("other", 12);
    }
    assert!(g.check("other", 13).is_err());
    assert!(g.check("k", 13).is_ok());
    g.record_failure("k", 14);
    let e = g.check("k", 15).unwrap_err();
    assert_eq!(e.status, 429);
    assert!(e.message.starts_with("Too many failed login attempts"));
}

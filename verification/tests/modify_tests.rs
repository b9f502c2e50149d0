use dope::config::{RequestModifier, ResponseModifier};
use dope::modify::{apply_request_modifiers, apply_response_modifiers, handle_csp};
use http::{HeaderMap, HeaderValue};

fn map_of(pairs: &[(&'static str, &'static str)]) -> HeaderMap {
    let mut m = HeaderMap::new();
    for (k, v) in pairs {
        m.insert(*k, HeaderValue::from_static(v));
    }
    m
}

fn text(m: &HeaderMap, k: &str) -> Option<String> {
    m.get(k).map(|v| v.to_str().unwrap().to_string())
}

fn response_modifier(csp: Option<&str>) -> ResponseModifier {
    ResponseModifier {
        domain: "example.com".to_string(),
        csp: csp.map(|s| s.to_string()),
        remove_headers: None,
        add_headers: None,
        inject_at: None,
    }
}

#[test]
fn remove_nonce_drops_policy_with_nonce() {
    let mut m = map_of(&[("content-security-policy", "script-src 'nonce-abc'"), ("x-a", "1")]);
    handle_csp(&mut m, "remove_nonce");
    assert!(m.get("content-security-policy").is_none());
    assert_eq!(text(&m, "x-a").as_deref(), Some("1"));
}

#[test]
fn remove_nonce_keeps_policy_without_nonce() {
    let mut m = map_of(&[("content-security-policy", "default-src 'self'")]);
    handle_csp(&mut m, "remove_nonce");
    assert_eq!(text(&m, "content-security-policy").as_deref(), Some("default-src 'self'"));
}

#[test]
fn remove_all_drops_policy() {
    let mut m = map_of(&[("content-security-policy", "default-src 'self'")]);
    handle_csp(&mut m, "remove_all");
    assert!(m.get("content-security-policy").is_none());
}

#[test]
fn relax_connect_src_rewrites_self() {
    let mut m = map_of(&[("content-security-policy", "default-src 'none'; connect-src 'self'")]);
    handle_csp(&mut m, "relax_connect_src");
    assert_eq!(
        text(&m, "content-security-policy").as_deref(),
        Some("default-src 'none'; connect-src *")
    );
}

#[test]
fn relax_keeps_policy_without_connect_src() {
    let mut m = map_of(&[("content-security-policy", "img-src *")]);
    handle_csp(&mut m, "relax_connect_src");
    assert_eq!(text(&m, "content-security-policy").as_deref(), Some("img-src *"));
}

#[test]
fn keep_and_unknown_modes_leave_policy() {
    let mut m = map_of(&[("content-security-policy", "script-src 'nonce-x'")]);
    handle_csp(&mut m, "keep");
    handle_csp(&mut m, "something-else");
    assert_eq!(text(&m, "content-security-policy").as_deref(), Some("script-src 'nonce-x'"));
}

#[test]
fn policy_that_is_not_text_is_left_alone() {
    let mut m = HeaderMap::new();
    m.insert("content-security-policy", HeaderValue::from_bytes(b"caf\xc3\xa9 'nonce-1'").unwrap());
    handle_csp(&mut m, "remove_nonce");
    assert!(m.get("content-security-policy").is_some());
}

#[test]
fn response_modifier_csp_then_remove_then_add() {
    let mut m = map_of(&[
        ("content-security-policy", "script-src 'nonce-1'"),
        ("x-frame-options", "DENY"),
        ("strict-transport-security", "max-age=1"),
        ("x-dope", "old"),
    ]);
    let mut r = response_modifier(Some("remove_nonce"));
    r.remove_headers = Some(vec!["X-Frame-Options".to_string(), "strict-transport-security".to_string()]);
    r.add_headers = Some(vec![("X-Dope".to_string(), "injected".to_string())]);
    apply_response_modifiers(&mut m, &r);
    assert!(m.get("content-security-policy").is_none());
    assert!(m.get("x-frame-options").is_none());
    assert!(m.get("strict-transport-security").is_none());
    assert_eq!(m.get_all("x-dope").iter().count(), 1);
    assert_eq!(text(&m, "x-dope").as_deref(), Some("injected"));
}

#[test]
fn invalid_added_names_and_values_are_skipped() {
    let mut m = HeaderMap::new();
    let mut r = response_modifier(None);
    r.add_headers = Some(vec![
        ("bad name".to_string(), "v".to_string()),
        ("x-ok".to_string(), "line\nbreak".to_string()),
        ("x-good".to_string(), "fine".to_string()),
    ]);
    apply_response_modifiers(&mut m, &r);
    assert!(m.get("x-ok").is_none());
    assert_eq!(m.keys_len(), 1);
    assert_eq!(text(&m, "x-good").as_deref(), Some("fine"));
}

#[test]
fn removing_an_invalid_name_changes_nothing() {
    let mut m = map_of(&[("x-a", "1")]);
    let r = RequestModifier {
        domain: "d".to_string(),
        remove_headers: Some(vec!["not valid".to_string(), String::new()]),
        add_headers: None,
    };
    apply_request_modifiers(&mut m, &r);
    assert_eq!(text(&m, "x-a").as_deref(), Some("1"));
}

#[test]
fn request_modifier_removes_then_adds() {
    let mut m = map_of(&[("cookie", "a=1"), ("x-forwarded-proto", "http")]);
    let r = RequestModifier {
        domain: "github.com".to_string(),
        remove_headers: Some(vec!["cookie".to_string()]),
        add_headers: Some(vec![("x-forwarded-proto".to_string(), "https".to_string())]),
    };
    apply_request_modifiers(&mut m, &r);
    assert!(m.get("cookie").is_none());
    assert_eq!(text(&m, "x-forwarded-proto").as_deref(), Some("https"));
}

#[test]
fn a_later_added_pair_wins() {
    let mut m = HeaderMap::new();
    let r = RequestModifier {
        domain: "d".to_string(),
        remove_headers: None,
        add_headers: Some(vec![("X-A".to_string(), "1".to_string()), ("x-a".to_string(), "2".to_string())]),
    };
    apply_request_modifiers(&mut m, &r);
    assert_eq!(text(&m, "x-a").as_deref(), Some("2"));
}

#[test]
fn a_removed_header_that_is_also_added_holds_the_added_value() {
    let mut m = map_of(&[("x-a", "old")]);
    let r = RequestModifier {
        domain: "d".to_string(),
        remove_headers: Some(vec!["x-a".to_string()]),
        add_headers: Some(vec![("x-a".to_string(), "new".to_string())]),
    };
    apply_request_modifiers(&mut m, &r);
    assert_eq!(text(&m, "x-a").as_deref(), Some("new"));
}

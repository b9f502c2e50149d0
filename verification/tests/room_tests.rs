use dope::config::{Config, RequestModifier, ResponseModifier, ServerConfig};
use dope::headers::has_room;
use dope::log::LogEntry;
use dope::modify::{request_room, response_room};
use dope::proxy::{
    host_of, request_room_for, response_origin, response_room_for, try_admit_request,
    try_rewrite_html, PendingTable,
};
use dope::standalone;
use http::{HeaderMap, HeaderName, HeaderValue};

fn map_of(pairs: &[(&'static str, &'static str)]) -> HeaderMap {
    let mut m = HeaderMap::new();
    for (k, v) in pairs {
        m.append(*k, HeaderValue::from_static(v));
    }
    m
}

/// A map holding `n` distinct names.
fn map_with_names(n: usize) -> HeaderMap {
    let mut m = HeaderMap::new();
    for i in 0..n {
        let name = HeaderName::from_bytes(format!("x-h{}", i).as_bytes()).unwrap();
        m.insert(name, HeaderValue::from_static("v"));
    }
    m
}

fn pairs(p: &[(&str, &str)]) -> Option<Vec<(String, String)>> {
    Some(p.iter().map(|(k, v)| (k.to_string(), v.to_string())).collect())
}

fn config() -> Config {
    Config {
        server: ServerConfig { port: 8080, pause: None },
        scripts: None,
        modify_response: None,
        modify_request: None,
    }
}

fn adding_request_modifier(domain: &str) -> RequestModifier {
    RequestModifier {
        domain: domain.to_string(),
        remove_headers: None,
        add_headers: pairs(&[("x-one", "1"), ("bad name", "2"), ("x-two", "bad\nvalue"), ("x-three", "3")]),
    }
}

#[test]
fn room_counts_names_against_the_map_limit() {
    let empty = HeaderMap::new();
    assert!(has_room(&empty, 0));
    assert!(has_room(&empty, 6554));
    assert!(!has_room(&empty, 6555));
    let one = map_of(&[("a", "1"), ("a", "2")]);
    assert!(has_room(&one, 6553));
    assert!(!has_room(&one, 6554));
    let full = map_with_names(6554);
    assert!(has_room(&full, 0));
    assert!(!has_room(&full, 1));
}

#[test]
fn request_room_counts_valid_pairs() {
    assert_eq!(request_room(&adding_request_modifier("a.com")), 2);
    let none = RequestModifier { domain: "a.com".to_string(), remove_headers: None, add_headers: None };
    assert_eq!(request_room(&none), 0);
}

#[test]
fn response_room_counts_additions_or_the_relaxed_policy() {
    let with_policy = map_of(&[("content-security-policy", "connect-src 'self'")]);
    let mut m = ResponseModifier {
        domain: "a.com".to_string(),
        csp: Some("relax_connect_src".to_string()),
        remove_headers: None,
        add_headers: None,
        inject_at: None,
    };
    assert_eq!(response_room(&with_policy, &m), 1);
    assert_eq!(response_room(&HeaderMap::new(), &m), 0);
    m.csp = Some("remove_all".to_string());
    assert_eq!(response_room(&with_policy, &m), 0);
    m.add_headers = pairs(&[("x-a", "1"), ("x-b", "2"), ("x-c", "3")]);
    assert_eq!(response_room(&with_policy, &m), 3);
}

#[test]
fn host_comes_from_the_uri_then_the_host_header() {
    let h = map_of(&[("host", "example.com")]);
    assert_eq!(host_of(Some("a.com"), &h), "a.com");
    assert_eq!(host_of(None, &h), "example.com");
    assert_eq!(host_of(None, &HeaderMap::new()), "unknown");
}

#[test]
fn room_for_a_request_follows_its_modifier() {
    let mut cfg = config();
    cfg.modify_request = Some(vec![adding_request_modifier("a.com")]);
    assert_eq!(request_room_for(&HeaderMap::new(), Some("a.com"), &cfg), 2);
    assert_eq!(request_room_for(&map_of(&[("host", "a.com")]), None, &cfg), 2);
    assert_eq!(request_room_for(&HeaderMap::new(), Some("b.com"), &cfg), 0);
}

#[test]
fn room_for_a_response_is_none_when_paused_or_domain_unknown() {
    let mut cfg = config();
    cfg.modify_response = Some(vec![ResponseModifier {
        domain: "*".to_string(),
        csp: None,
        remove_headers: None,
        add_headers: pairs(&[("x-a", "1")]),
        inject_at: None,
    }]);
    assert_eq!(response_room_for(&HeaderMap::new(), "a.com", &cfg), 1);
    assert_eq!(response_room_for(&HeaderMap::new(), "", &cfg), 0);
    cfg.server.pause = Some(true);
    assert_eq!(response_room_for(&HeaderMap::new(), "a.com", &cfg), 0);
}

#[test]
fn a_request_is_admitted_when_its_headers_have_room() {
    let mut cfg = config();
    cfg.modify_request = Some(vec![adding_request_modifier("a.com")]);
    let mut t = PendingTable::new();
    let mut h = HeaderMap::new();
    let a = try_admit_request(&mut t, "c", "GET", "/", Some("a.com"), false, &mut h, &cfg).unwrap();
    assert_eq!(a.host, "a.com");
    assert!(matches!(a.entry, LogEntry::Request { .. }));
    assert_eq!(h.get("x-one").unwrap(), "1");
    assert_eq!(h.get("x-three").unwrap(), "3");
    assert_eq!(response_origin(&mut t, "c"), (a.req_id.clone(), "https://a.com/".to_string()));
}

#[test]
fn a_request_without_room_is_refused_and_nothing_changes() {
    let mut cfg = config();
    cfg.modify_request = Some(vec![adding_request_modifier("a.com")]);
    let mut t = PendingTable::new();
    let mut h = map_with_names(6553);
    assert!(try_admit_request(&mut t, "c", "GET", "/", Some("a.com"), false, &mut h, &cfg).is_none());
    assert_eq!(h.keys_len(), 6553);
    assert!(h.get("x-one").is_none());
    assert_eq!(response_origin(&mut t, "c"), ("-".to_string(), String::new()));
    let connect = try_admit_request(&mut t, "c", "CONNECT", "a.com:443", Some("a.com"), false, &mut h, &cfg);
    assert!(connect.is_some());
}

#[test]
fn a_page_is_rewritten_only_with_room() {
    let mut cfg = config();
    cfg.modify_response = Some(vec![ResponseModifier {
        domain: "a.com".to_string(),
        csp: None,
        remove_headers: None,
        add_headers: pairs(&[("x-a", "1")]),
        inject_at: None,
    }]);
    let mut h = HeaderMap::new();
    let mut html = "<p></p>".to_string();
    assert!(try_rewrite_html(&mut h, &mut html, "a.com", &cfg, &vec![], ""));
    assert_eq!(h.get("x-a").unwrap(), "1");
    let mut full = map_with_names(6554);
    assert!(!try_rewrite_html(&mut full, &mut html, "a.com", &cfg, &vec![], ""));
    assert!(full.get("x-a").is_none());
    assert!(try_rewrite_html(&mut full, &mut html, "b.com", &cfg, &vec![], ""));
}

#[test]
fn responses_pair_with_requests_in_order() {
    let cfg = config();
    let mut t = PendingTable::new();
    let mut ids = Vec::new();
    for path in ["/1", "/2", "/3"] {
        let mut h = HeaderMap::new();
        let a = try_admit_request(&mut t, "c", "GET", path, Some("a.com"), false, &mut h, &cfg).unwrap();
        ids.push(a.req_id);
    }
    assert_eq!(response_origin(&mut t, "c"), (ids[0].clone(), "https://a.com/1".to_string()));
    assert_eq!(response_origin(&mut t, "c"), (ids[1].clone(), "https://a.com/2".to_string()));
    assert_eq!(response_origin(&mut t, "c"), (ids[2].clone(), "https://a.com/3".to_string()));
    assert_eq!(response_origin(&mut t, "c"), ("-".to_string(), String::new()));
}

fn standalone_config() -> standalone::Config {
    standalone::Config {
        server: standalone::ServerConfig { port: 8080 },
        scripts: None,
        modify_response: Some(vec![ResponseModifier {
            domain: "a.com".to_string(),
            csp: None,
            remove_headers: None,
            add_headers: pairs(&[("x-a", "1"), ("x-b", "2")]),
            inject_at: None,
        }]),
        modify_request: Some(vec![adding_request_modifier("a.com")]),
    }
}

#[test]
fn standalone_room_and_checked_steps() {
    let cfg = standalone_config();
    assert_eq!(standalone::request_room_for(&HeaderMap::new(), Some("a.com"), &cfg), 2);
    assert_eq!(standalone::request_room_for(&HeaderMap::new(), Some("b.com"), &cfg), 0);
    assert_eq!(standalone::response_room_for(&HeaderMap::new(), "a.com", &cfg), 2);
    assert_eq!(standalone::response_room_for(&HeaderMap::new(), "", &cfg), 0);

    let mut p = standalone::PendingUrls::new();
    let mut h = HeaderMap::new();
    let a = standalone::try_admit_request(&mut p, "c", "-", "GET", "/", Some("a.com"), false, &mut h, &cfg);
    assert_eq!(a.unwrap().host, "a.com");
    assert_eq!(p.take("c"), "https://a.com/");
    let mut full = map_with_names(6553);
    assert!(standalone::try_admit_request(&mut p, "c", "-", "GET", "/", Some("a.com"), false, &mut full, &cfg).is_none());
    assert_eq!(p.take("c"), "");

    let mut r = HeaderMap::new();
    assert!(standalone::try_modify_html_response(&mut r, "a.com", &cfg));
    assert_eq!(r.get("x-b").unwrap(), "2");
    let mut full = map_with_names(6553);
    assert!(!standalone::try_modify_html_response(&mut full, "a.com", &cfg));
    assert!(full.get("x-a").is_none());
}

#[test]
fn preview_cuts_must_fall_between_characters() {
    let short = "é".repeat(50);
    assert!(standalone::cuts_fall_between_chars(&short));
    let ascii = "a".repeat(200);
    assert!(standalone::cuts_fall_between_chars(&ascii));
    let odd = format!("a{}", "é".repeat(60));
    assert!(!standalone::cuts_fall_between_chars(&odd));
    let h = map_of(&[("content-type", "text/html")]);
    assert!(standalone::try_log_response("-", 200, &h, &odd).is_none());
    match standalone::try_log_response("-", 200, &h, &ascii) {
        Some(LogEntry::Response { status, content_type, body_preview, .. }) => {
            assert_eq!(status, 200);
            assert_eq!(content_type, "text/html");
            assert_eq!(body_preview, format!("{} ... {}", "a".repeat(40), "a".repeat(40)));
        }
        _ => panic!("expected a response entry"),
    }
}

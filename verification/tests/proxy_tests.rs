use dope::config::{Config, RequestModifier, ResponseModifier, ScriptRule, ServerConfig};
use dope::log::LogEntry;
use dope::proxy::{
    admit_request, error_request_id, extract_domain, finalize_headers, is_html,
    is_websocket_upgrade, pick_decoding, response_origin, rewrite_html, strip_websocket_offers,
    url_host_text, Decoding, PendingRequest, PendingTable,
};
use http::{HeaderMap, HeaderValue};

fn map_of(pairs: &[(&'static str, &'static str)]) -> HeaderMap {
    let mut m = HeaderMap::new();
    for (k, v) in pairs {
        m.append(*k, HeaderValue::from_static(v));
    }
    m
}

fn text(m: &HeaderMap, k: &str) -> Option<String> {
    m.get(k).map(|v| v.to_str().unwrap().to_string())
}

fn empty_config() -> Config {
    Config {
        server: ServerConfig { port: 8080, pause: None },
        scripts: None,
        modify_response: None,
        modify_request: None,
    }
}

fn pending(url: &str, id: &str) -> PendingRequest {
    PendingRequest { url: url.to_string(), req_id: id.to_string() }
}

#[test]
fn extract_domain_strips_scheme_path_and_port() {
    assert_eq!(extract_domain("https://github.com:443/user/repo"), "github.com");
    assert_eq!(extract_domain("http://example.org/index.html"), "example.org");
    assert_eq!(extract_domain("example.org:8080"), "example.org");
    assert_eq!(extract_domain("https://www.google.com"), "www.google.com");
    assert_eq!(extract_domain(""), "");
}

#[test]
fn url_host_keeps_port() {
    assert_eq!(url_host_text("https://github.com:443/user/repo"), "github.com:443");
    assert_eq!(url_host_text("ftp://x/y"), "ftp://x/y");
}

#[test]
fn html_is_recognised_by_content_type() {
    assert!(is_html(&map_of(&[("content-type", "text/html; charset=iso-8859-1")])));
    assert!(!is_html(&map_of(&[("content-type", "application/json")])));
    assert!(!is_html(&HeaderMap::new()));
    let mut m = HeaderMap::new();
    m.insert("content-type", HeaderValue::from_bytes(b"text/html\xff").unwrap());
    assert!(!is_html(&m));
}

#[test]
fn websocket_upgrade_ignores_case() {
    assert!(is_websocket_upgrade(&map_of(&[("upgrade", "WebSocket")])));
    assert!(!is_websocket_upgrade(&map_of(&[("upgrade", "h2c")])));
    assert!(!is_websocket_upgrade(&HeaderMap::new()));
}

#[test]
fn websocket_offers_are_stripped_only_for_upgrades() {
    let mut m = map_of(&[
        ("upgrade", "websocket"),
        ("sec-websocket-extensions", "permessage-deflate"),
        ("sec-websocket-protocol", "chat"),
        ("sec-websocket-key", "k"),
    ]);
    strip_websocket_offers(&mut m);
    assert!(m.get("sec-websocket-extensions").is_none());
    assert!(m.get("sec-websocket-protocol").is_none());
    assert!(m.get("sec-websocket-key").is_some());
    let mut plain = map_of(&[("sec-websocket-protocol", "chat")]);
    strip_websocket_offers(&mut plain);
    assert!(plain.get("sec-websocket-protocol").is_some());
}

#[test]
fn decoding_follows_content_encoding() {
    assert_eq!(pick_decoding(&map_of(&[("content-encoding", "gzip")])), Decoding::Gzip);
    assert_eq!(pick_decoding(&map_of(&[("content-encoding", "br")])), Decoding::Brotli);
    assert_eq!(pick_decoding(&map_of(&[("content-encoding", "deflate")])), Decoding::Deflate);
    assert_eq!(pick_decoding(&map_of(&[("content-encoding", "zstd")])), Decoding::Zstd);
    assert_eq!(pick_decoding(&HeaderMap::new()), Decoding::Identity);
    assert_eq!(pick_decoding(&map_of(&[("content-encoding", "compress")])), Decoding::Unsupported);
    assert_eq!(pick_decoding(&map_of(&[("content-encoding", "GZIP")])), Decoding::Unsupported);
}

#[test]
fn finalize_restates_charset_and_drops_encoding() {
    let mut m = map_of(&[
        ("content-type", "text/html ; charset=iso-8859-1"),
        ("content-encoding", "gzip"),
        ("content-length", "10"),
        ("x-other", "1"),
    ]);
    finalize_headers(&mut m);
    assert!(m.get("content-encoding").is_none());
    assert!(m.get("content-length").is_none());
    assert_eq!(text(&m, "content-type").as_deref(), Some("text/html; charset=utf-8"));
    assert_eq!(text(&m, "x-other").as_deref(), Some("1"));
}

#[test]
fn finalize_without_content_type_only_drops() {
    let mut m = map_of(&[("content-length", "10")]);
    finalize_headers(&mut m);
    assert_eq!(m.keys_len(), 0);
}

#[test]
fn pending_requests_come_back_in_order_per_client() {
    let mut t = PendingTable::new();
    t.push("1.1.1.1:1", pending("https://a/1", "r1"));
    t.push("2.2.2.2:2", pending("https://b/1", "s1"));
    t.push("1.1.1.1:1", pending("https://a/2", "r2"));
    assert_eq!(t.pop("1.1.1.1:1").map(|p| p.req_id), Some("r1".to_string()));
    assert_eq!(t.pop("2.2.2.2:2").map(|p| p.url), Some("https://b/1".to_string()));
    assert_eq!(t.pop("1.1.1.1:1").map(|p| p.req_id), Some("r2".to_string()));
    assert!(t.pop("1.1.1.1:1").is_none());
    assert!(t.pop("3.3.3.3:3").is_none());
}

#[test]
fn admitted_request_is_queued_and_logged_under_one_id() {
    let mut t = PendingTable::new();
    let mut h = map_of(&[("user-agent", "curl/8"), ("host", "example.com")]);
    let cfg = empty_config();
    let a = admit_request(&mut t, "c", "GET", "/index.html", None, false, &mut h, &cfg);
    assert_eq!(a.host, "example.com");
    match &a.entry {
        LogEntry::Request { req_id, method, uri, host, user_agent, accept, .. } => {
            assert_eq!(req_id, &a.req_id);
            assert_eq!(method, "GET");
            assert_eq!(uri, "/index.html");
            assert_eq!(host, "example.com");
            assert_eq!(user_agent, "curl/8");
            assert_eq!(accept, "-");
        }
        _ => panic!("expected a request entry"),
    }
    let (id, url) = response_origin(&mut t, "c");
    assert_eq!(id, a.req_id);
    assert_eq!(url, "https://example.com/index.html");
    let (none_id, none_url) = response_origin(&mut t, "c");
    assert_eq!(none_id, "-");
    assert_eq!(none_url, "");
}

#[test]
fn connect_requests_are_not_queued() {
    let mut t = PendingTable::new();
    let mut h = HeaderMap::new();
    let cfg = empty_config();
    let a = admit_request(&mut t, "c", "CONNECT", "example.com:443", Some("example.com"), false, &mut h, &cfg);
    assert_eq!(a.host, "example.com");
    assert!(t.pop("c").is_none());
}

#[test]
fn unknown_host_and_request_modifier() {
    let mut t = PendingTable::new();
    let mut h = map_of(&[("upgrade", "websocket"), ("sec-websocket-protocol", "x"), ("cookie", "c")]);
    let mut cfg = empty_config();
    cfg.modify_request = Some(vec![RequestModifier {
        domain: "unknown".to_string(),
        remove_headers: Some(vec!["cookie".to_string()]),
        add_headers: Some(vec![("x-forwarded-proto".to_string(), "https".to_string())]),
    }]);
    let a = admit_request(&mut t, "c", "GET", "https://x/y", None, true, &mut h, &cfg);
    assert_eq!(a.host, "unknown");
    assert!(h.get("sec-websocket-protocol").is_none());
    assert!(h.get("cookie").is_none());
    assert_eq!(text(&h, "x-forwarded-proto").as_deref(), Some("https"));
    assert_eq!(t.pop("c").map(|p| p.url), Some("https://x/y".to_string()));
}

#[test]
fn error_id_comes_from_the_queue_or_is_fresh() {
    let mut t = PendingTable::new();
    t.push("c", pending("u", "abc"));
    assert_eq!(error_request_id(&mut t, "c"), "abc");
    let fresh = error_request_id(&mut t, "c");
    assert_eq!(fresh.len(), 36);
    assert_ne!(fresh, error_request_id(&mut t, "c"));
}

#[test]
fn rewrite_applies_modifier_and_injects() {
    let mut cfg = empty_config();
    cfg.scripts = Some(vec![ScriptRule { domain: "a.com".to_string(), scripts: vec!["s".to_string()] }]);
    cfg.modify_response = Some(vec![ResponseModifier {
        domain: "a.com".to_string(),
        csp: Some("remove_all".to_string()),
        remove_headers: None,
        add_headers: Some(vec![("x-dope".to_string(), "injected".to_string())]),
        inject_at: Some("append".to_string()),
    }]);
    let mut h = map_of(&[("content-security-policy", "default-src 'self'")]);
    let mut html = String::from("<p>hi</p>");
    rewrite_html(&mut h, &mut html, "a.com", &cfg, &vec![Some("alert(1)".to_string())], "");
    assert_eq!(html, "<p>hi</p><script>alert(1)</script>");
    assert!(h.get("content-security-policy").is_none());
    assert_eq!(text(&h, "x-dope").as_deref(), Some("injected"));
}

#[test]
fn paused_proxy_and_unknown_domain_change_nothing() {
    let mut cfg = empty_config();
    cfg.scripts = Some(vec![ScriptRule { domain: "*".to_string(), scripts: vec!["s".to_string()] }]);
    cfg.server.pause = Some(true);
    let mut h = HeaderMap::new();
    let mut html = String::from("<body></body>");
    rewrite_html(&mut h, &mut html, "a.com", &cfg, &vec![Some("x".to_string())], "");
    assert_eq!(html, "<body></body>");
    cfg.server.pause = Some(false);
    rewrite_html(&mut h, &mut html, "", &cfg, &vec![Some("x".to_string())], "");
    assert_eq!(html, "<body></body>");
    rewrite_html(&mut h, &mut html, "a.com", &cfg, &vec![Some("x".to_string())], "");
    assert_eq!(html, "<body><script>x</script></body>");
}

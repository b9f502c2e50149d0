use dope::config::{
    config_path, fallback_config, trace_path, Config, RequestModifier, ResponseModifier,
    ScriptRule, ServerConfig,
};
use dope::cli::{parse_args, CliCommand};
use dope::standalone;
use http::{HeaderMap, HeaderValue};

fn rule(domain: &str, scripts: &[&str]) -> ScriptRule {
    ScriptRule { domain: domain.to_string(), scripts: scripts.iter().map(|s| s.to_string()).collect() }
}

fn resp(domain: &str, inject_at: &str) -> ResponseModifier {
    ResponseModifier {
        domain: domain.to_string(),
        csp: None,
        remove_headers: None,
        add_headers: None,
        inject_at: Some(inject_at.to_string()),
    }
}

fn req(domain: &str) -> RequestModifier {
    RequestModifier { domain: domain.to_string(), remove_headers: None, add_headers: None }
}

fn config() -> Config {
    Config {
        server: ServerConfig { port: 8080, pause: None },
        scripts: Some(vec![
            rule("github.com", &["a", "b"]),
            rule("*", &["all"]),
            rule("github.com", &["c"]),
            rule("other.org", &["x"]),
        ]),
        modify_response: Some(vec![resp("*", "append"), resp("github.com", "head_end"), resp("github.com", "html_end")]),
        modify_request: Some(vec![req("*"), req("github.com")]),
    }
}

#[test]
fn scripts_of_all_matching_rules_are_merged() {
    assert_eq!(config().get_scripts_for_domain("github.com"), vec!["a", "b", "all", "c"]);
    assert_eq!(config().get_scripts_for_domain("nowhere.net"), vec!["all"]);
}

#[test]
fn first_exact_response_modifier_wins_over_wildcard() {
    let c = config();
    assert_eq!(c.get_response_modifiers("github.com").unwrap().inject_at.as_deref(), Some("head_end"));
    assert_eq!(c.get_response_modifiers("nowhere.net").unwrap().inject_at.as_deref(), Some("append"));
    assert_eq!(c.get_request_modifiers("github.com").unwrap().domain, "github.com");
    assert_eq!(c.get_request_modifiers("x").unwrap().domain, "*");
}

#[test]
fn no_rules_no_matches() {
    let c = fallback_config();
    assert_eq!(c.server.port, 8080);
    assert!(c.server.pause.is_none());
    assert!(c.get_scripts_for_domain("a").is_empty());
    assert!(c.get_response_modifiers("a").is_none());
    assert!(c.get_request_modifiers("a").is_none());
}

#[test]
fn paths() {
    let defaults = match parse_args(&vec!["dope".to_string()]) {
        CliCommand::Run(o) => o,
        _ => panic!("expected options"),
    };
    assert_eq!(config_path(&defaults), "config.toml");
    assert_eq!(trace_path(&defaults.logs_dir), "logs/dope-traces.jsonl");
    let moved = match parse_args(&vec!["dope".to_string(), "--config".to_string(), "etc/d.toml".to_string(), "--logs".to_string(), "/var/log/dope".to_string()]) {
        CliCommand::Run(o) => o,
        _ => panic!("expected options"),
    };
    assert_eq!(config_path(&moved), "etc/d.toml");
    assert_eq!(trace_path(&moved.logs_dir), "/var/log/dope/dope-traces.jsonl");
    assert_eq!(standalone::get_trace_path(), "logs/dope-traces.jsonl");
}

#[test]
fn standalone_rules_match_exactly() {
    let c = standalone::Config {
        server: standalone::ServerConfig { port: 9000 },
        scripts: Some(vec![rule("github.com", &["a"]), rule("*", &["all"]), rule("github.com", &["b"])]),
        modify_response: Some(vec![resp("*", "append"), resp("github.com", "html_end")]),
        modify_request: Some(vec![req("*")]),
    };
    assert_eq!(c.get_scripts_for_domain("github.com"), vec!["a", "b"]);
    assert!(c.get_scripts_for_domain("nowhere").is_empty());
    assert_eq!(c.get_response_modifiers("github.com").unwrap().inject_at.as_deref(), Some("html_end"));
    assert!(c.get_response_modifiers("nowhere").is_none());
    assert!(c.get_request_modifiers("github.com").is_none());
    assert_eq!(c.get_request_modifiers("*").unwrap().domain, "*");
    let f = standalone::fallback_config();
    assert_eq!(f.server.port, 8080);
    assert!(f.scripts.is_none());
}

#[test]
fn standalone_domain_keeps_port_and_pending_urls_are_replaced() {
    assert_eq!(standalone::extract_domain("https://a.com:8443/x"), "a.com:8443");
    let mut p = standalone::PendingUrls::new();
    p.record("c", "https://a/1");
    p.record("c", "https://a/2");
    p.record("d", "https://b/1");
    assert_eq!(p.take("c"), "https://a/2");
    assert_eq!(p.take("c"), "");
    assert_eq!(p.take("d"), "https://b/1");
}

#[test]
fn standalone_requests_record_their_address_and_apply_exact_modifiers() {
    let c = standalone::Config {
        server: standalone::ServerConfig { port: 9000 },
        scripts: None,
        modify_response: None,
        modify_request: Some(vec![RequestModifier {
            domain: "a.com".to_string(),
            remove_headers: Some(vec!["cookie".to_string()]),
            add_headers: None,
        }]),
    };
    let mut pending = standalone::PendingUrls::new();
    let mut h = HeaderMap::new();
    h.insert("host", HeaderValue::from_static("a.com"));
    h.insert("cookie", HeaderValue::from_static("x=1"));
    let a = standalone::admit_request(&mut pending, "c", "-", "GET", "/p", None, false, &mut h, &c);
    assert_eq!(a.host, "a.com");
    assert!(h.get("cookie").is_none());
    assert_eq!(pending.take("c"), "https://a.com/p");
    let mut r = HeaderMap::new();
    r.insert("content-length", HeaderValue::from_static("3"));
    r.insert("content-type", HeaderValue::from_static("text/html"));
    standalone::finalize_headers(&mut r);
    assert!(r.get("content-length").is_none());
    assert_eq!(r.get("content-type").unwrap(), "text/html");
}

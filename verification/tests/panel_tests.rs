use dope::html::page_shell;
use dope::log::LogEntry;
use dope::panel::{dashboard_counts, page_or_fragment, toast_trigger};
use http::{HeaderMap, HeaderValue};

fn req(host: &str) -> LogEntry {
    LogEntry::Request {
        req_id: "r".to_string(),
        ts: 1,
        method: "GET".to_string(),
        uri: "/".to_string(),
        host: host.to_string(),
        user_agent: "-".to_string(),
        accept: "-".to_string(),
    }
}

fn resp(status: u16) -> LogEntry {
    LogEntry::Response {
        req_id: "r".to_string(),
        ts: 2,
        status,
        content_type: "-".to_string(),
        body_preview: String::new(),
    }
}

#[test]
fn counts_distinct_hosts_and_errors() {
    let err = LogEntry::Error { req_id: "e".to_string(), ts: 3, client_addr: "c".to_string(), error: "x".to_string() };
    let entries = vec![req("a"), req("b"), req("a"), resp(200), resp(500), resp(503), resp(499), err];
    assert_eq!(dashboard_counts(&entries), (2, 3));
    assert_eq!(dashboard_counts(&[]), (0, 0));
}

#[test]
fn htmx_requests_get_fragments() {
    let mut h = HeaderMap::new();
    assert_eq!(page_or_fragment(&h, "<p>x</p>".to_string()), page_shell("<p>x</p>"));
    h.insert("hx-request", HeaderValue::from_static("true"));
    assert_eq!(page_or_fragment(&h, "<p>x</p>".to_string()), "<p>x</p>");
}

#[test]
fn toast_payload() {
    assert_eq!(toast_trigger("Port updated"), r#"{"showToast":"Port updated"}"#);
}

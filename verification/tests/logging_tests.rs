use dope::log::{select_log_entries, LogEntry};
use dope::logging::{body_preview, log_proxy_error, log_request, log_response, now_millis};
use dope::standalone::byte_preview;
use http::{HeaderMap, HeaderValue};

fn request(id: &str, ts: u64) -> LogEntry {
    LogEntry::Request {
        req_id: id.to_string(),
        ts,
        method: "GET".to_string(),
        uri: "/".to_string(),
        host: "h".to_string(),
        user_agent: "-".to_string(),
        accept: "-".to_string(),
    }
}

#[test]
fn short_bodies_are_kept_with_escaped_line_breaks() {
    assert_eq!(body_preview("a\nb\r\n"), "a\\nb\\r\\n");
    assert_eq!(body_preview(""), "");
    let hundred = "x".repeat(100);
    assert_eq!(body_preview(&hundred), hundred);
}

#[test]
fn long_bodies_show_both_ends() {
    let body = format!("{}{}{}", "a".repeat(40), "m".repeat(30), "z".repeat(40));
    assert_eq!(body_preview(&body), format!("{} ... {}", "a".repeat(40), "z".repeat(40)));
}

#[test]
fn long_bodies_are_cut_by_characters() {
    let body = "é".repeat(60);
    assert_eq!(body_preview(&body), format!("{} ... {}", "é".repeat(40), "é".repeat(40)));
    let wide = "😀".repeat(30);
    assert_eq!(body_preview(&wide), format!("{} ... {}", wide, wide));
}

#[test]
fn byte_preview_cuts_by_bytes() {
    let body = format!("{}\n{}{}", "a".repeat(39), "m".repeat(30), "z".repeat(40));
    assert_eq!(byte_preview(&body), format!("{}\\n ... {}", "a".repeat(39), "z".repeat(40)));
    assert_eq!(byte_preview("short\r"), "short\\r");
}

#[test]
fn request_entries_take_header_fields_or_dashes() {
    let mut h = HeaderMap::new();
    h.insert("accept", HeaderValue::from_static("text/html"));
    match log_request("id1", "POST", "https://a/b", &h, "a") {
        LogEntry::Request { req_id, method, uri, host, user_agent, accept, .. } => {
            assert_eq!((req_id.as_str(), method.as_str(), uri.as_str(), host.as_str()), ("id1", "POST", "https://a/b", "a"));
            assert_eq!(user_agent, "-");
            assert_eq!(accept, "text/html");
        }
        _ => panic!("expected a request entry"),
    }
}

#[test]
fn response_entries_carry_status_type_and_preview() {
    let mut h = HeaderMap::new();
    h.insert("content-type", HeaderValue::from_static("text/html"));
    match log_response("id2", 404, &h, "not\nfound") {
        LogEntry::Response { req_id, status, content_type, body_preview, .. } => {
            assert_eq!(req_id, "id2");
            assert_eq!(status, 404);
            assert_eq!(content_type, "text/html");
            assert_eq!(body_preview, "not\\nfound");
        }
        _ => panic!("expected a response entry"),
    }
    match log_response("id3", 200, &HeaderMap::new(), "") {
        LogEntry::Response { content_type, .. } => assert_eq!(content_type, "-"),
        _ => panic!("expected a response entry"),
    }
}

#[test]
fn error_entries_carry_address_and_text() {
    let before = now_millis();
    match log_proxy_error("id4", "127.0.0.1:5000", "connection refused") {
        LogEntry::Error { req_id, ts, client_addr, error } => {
            assert_eq!(req_id, "id4");
            assert_eq!(client_addr, "127.0.0.1:5000");
            assert_eq!(error, "connection refused");
            assert!(ts >= before);
        }
        _ => panic!("expected an error entry"),
    }
}

#[test]
fn entry_accessors() {
    let e = request("r", 7);
    assert_eq!(e.ts(), 7);
    assert_eq!(e.req_id(), "r");
}

#[test]
fn selection_filters_by_time_and_keeps_the_last() {
    let entries = vec![request("a", 1), request("b", 5), request("c", 3), request("d", 9)];
    let picked = select_log_entries(&entries, 3, 2);
    let ids: Vec<&str> = picked.iter().map(|e| e.req_id()).collect();
    assert_eq!(ids, vec!["c", "d"]);
    let all = select_log_entries(&entries, 0, 100);
    assert_eq!(all.len(), 4);
    assert!(select_log_entries(&entries, 10, 5).is_empty());
    assert!(select_log_entries(&entries, 0, 0).is_empty());
}

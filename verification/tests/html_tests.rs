use dope::config::{Config, RequestModifier, ResponseModifier, ScriptRule, ServerConfig};
use dope::groups::group_log_entries;
use dope::html::{
    activity_table, combined_row, config_page, csp_options, dashboard_page, format_ts,
    header_pair_row, inject_options, log_rows, logs_page, page_shell, pair_row_lowered,
    remove_header_row, request_card, request_detail, response_card, script_card, scripts_section,
    stats_cards,
};
use dope::log::LogEntry;
use dope::text::{html_esc, urlencode};

fn req(id: &str, ts: u64, host: &str) -> LogEntry {
    LogEntry::Request {
        req_id: id.to_string(),
        ts,
        method: "GET".to_string(),
        uri: "/x".to_string(),
        host: host.to_string(),
        user_agent: "ua".to_string(),
        accept: "*/*".to_string(),
    }
}

fn resp(id: &str, ts: u64, status: u16) -> LogEntry {
    LogEntry::Response {
        req_id: id.to_string(),
        ts,
        status,
        content_type: "text/html".to_string(),
        body_preview: "<p>".to_string(),
    }
}

#[test]
fn escaping_and_encoding() {
    assert_eq!(html_esc(r#"<a href="x">Tom & 'Jerry'</a>"#), "&lt;a href=&quot;x&quot;&gt;Tom &amp; &#39;Jerry&#39;&lt;/a&gt;");
    assert_eq!(urlencode("x-Dope_1.~"), "x-Dope_1.~");
    assert_eq!(urlencode("a b/é"), "a%20b%2F%C3%A9");
}

#[test]
fn time_stamps_show_hours_minutes_seconds() {
    assert_eq!(format_ts(0), "00:00:00");
    assert_eq!(format_ts(3_723_999), "01:02:03");
    assert_eq!(format_ts(90_061_000), "01:01:01");
}

#[test]
fn stats_and_dashboard() {
    let cards = stats_cards(12, 3, 1);
    assert_eq!(
        cards,
        "<div class=\"stat-card\"><div class=\"value\">12</div><div class=\"label\">Total Entries</div></div>\n<div class=\"stat-card\"><div class=\"value\">3</div><div class=\"label\">Unique Hosts</div></div>\n<div class=\"stat-card\"><div class=\"value\">1</div><div class=\"label\">Errors</div></div>"
    );
    assert!(dashboard_page(12, 3, 1).contains(&cards));
    assert!(logs_page().starts_with("<h2>Logs</h2>"));
    let shell = page_shell("<p>content</p>");
    assert!(shell.starts_with("<!DOCTYPE html>"));
    assert!(shell.contains("<div id=\"app\"><p>content</p></div>"));
}

#[test]
fn activity_of_nothing_and_of_a_pair() {
    assert_eq!(activity_table(&[]), "<div class=\"empty\">No entries yet.</div>");
    let t = activity_table(&[req("a", 1000, "h.com"), resp("a", 1250, 503)]);
    assert!(t.starts_with("<table>"));
    assert!(t.contains("<td>h.com</td>"));
    assert!(t.contains("badge-5xx"));
    assert!(t.contains("<span class=\"duration\">250ms</span>"));
}

#[test]
fn groups_are_newest_first_with_earliest_stamp() {
    let entries = vec![req("a", 10, "x"), req("b", 20, "y"), resp("a", 30, 200), resp("b", 15, 200)];
    let groups = group_log_entries(&entries);
    assert_eq!(groups.len(), 2);
    assert_eq!(groups[0].req_id, "b");
    assert_eq!(groups[0].ts, 15);
    assert_eq!(groups[1].req_id, "a");
    assert_eq!(groups[1].ts, 10);
}

#[test]
fn log_rows_search_and_details() {
    let entries = vec![req("a", 1, "alpha.com"), req("b", 2, "beta.com")];
    let serialized = vec!["{\"host\":\"ALPHA.com\"}".to_string(), "{\"host\":\"beta.com\"}".to_string()];
    let only_alpha = log_rows(&entries, &serialized, Some("Alpha"));
    assert!(only_alpha.contains("alpha.com"));
    assert!(!only_alpha.contains("beta.com"));
    assert_eq!(log_rows(&entries, &serialized, Some("gamma")), "<div class=\"empty\">No matching entries.</div>");
    let all = log_rows(&entries, &serialized, Some(""));
    assert!(all.contains("alpha.com") && all.contains("beta.com"));
    assert!(all.contains("<h4>Request</h4>"));
    let none = log_rows(&[], &[], None);
    assert_eq!(none, "<div class=\"empty\">No matching entries.</div>");
}

#[test]
fn details_hold_escaped_json() {
    assert_eq!(
        request_detail("{\"a\": \"<b>\"}"),
        "<div class=\"detail-section\"><h4>Request</h4><pre>{&quot;a&quot;: &quot;&lt;b&gt;&quot;}</pre></div>"
    );
    let g = &group_log_entries(&[LogEntry::Error {
        req_id: "e".to_string(),
        ts: 5,
        client_addr: "1.2.3.4:5".to_string(),
        error: "boom".to_string(),
    }])[0];
    let row = combined_row(g, true);
    assert!(row.contains("badge-error"));
    assert!(row.contains("<td>1.2.3.4:5</td>"));
    assert!(row.contains("&quot;error&quot;: &quot;boom&quot;"));
}

#[test]
fn option_lists_mark_the_current_choice() {
    assert!(csp_options(Some("remove_all")).contains("value=\"remove_all\" selected"));
    assert!(!csp_options(None).contains("selected"));
    assert!(inject_options(Some("html_end")).contains("value=\"html_end\" selected"));
}

#[test]
fn header_rows() {
    let row = header_pair_row("Response", 2, 0, "x-a b", "<v>");
    assert_eq!(row, pair_row_lowered("response", 2, "x-a b", "<v>"));
    assert!(row.contains("x-a%20b"));
    assert!(row.contains("&lt;v&gt;"));
    assert!(row.contains("#response-card-2"));
    let rm = remove_header_row("response", 1, 3, "x-frame-options");
    assert!(rm.contains("/api/html/config/response/1/remove-headers/3"));
    assert!(rm.contains("value=\"x-frame-options\""));
}

#[test]
fn config_cards_and_page() {
    let s = ScriptRule { domain: "github.com".to_string(), scripts: vec!["a".to_string(), "b".to_string()] };
    let card = script_card(0, &s);
    assert!(card.contains("github.com"));
    assert!(card.contains("a, b"));
    assert!(scripts_section(&[s.clone()]).contains(&card));
    let r = ResponseModifier {
        domain: "r.com".to_string(),
        csp: Some("keep".to_string()),
        remove_headers: Some(vec!["x-frame-options".to_string()]),
        add_headers: Some(vec![("x-dope".to_string(), "injected".to_string())]),
        inject_at: None,
    };
    let rc = response_card(1, &r);
    assert!(rc.contains("r.com") && rc.contains("x-dope") && rc.contains("x-frame-options"));
    let q = RequestModifier { domain: "q.com".to_string(), remove_headers: None, add_headers: None };
    assert!(request_card(0, &q).contains("q.com"));
    let cfg = Config {
        server: ServerConfig { port: 8123, pause: Some(true) },
        scripts: Some(vec![s]),
        modify_response: Some(vec![r]),
        modify_request: Some(vec![q]),
    };
    let page = config_page(&cfg);
    assert!(page.contains("8123"));
    assert!(page.contains("github.com") && page.contains("r.com") && page.contains("q.com"));
}

#[test]
fn config_page_holds_each_rule_editor_and_its_rows() {
    let rm = ResponseModifier {
        domain: "a.com".to_string(),
        csp: Some("remove_all".to_string()),
        remove_headers: Some(vec!["x-old".to_string(), "x-older".to_string()]),
        add_headers: Some(vec![("x-new".to_string(), "1".to_string())]),
        inject_at: Some("prepend".to_string()),
    };
    let qm = RequestModifier {
        domain: "b.com".to_string(),
        remove_headers: Some(vec!["cookie".to_string()]),
        add_headers: Some(vec![("x-req".to_string(), "2".to_string())]),
    };
    let sr = ScriptRule { domain: "c.com".to_string(), scripts: vec!["s.js".to_string()] };
    let cfg = Config {
        server: ServerConfig { port: 9123, pause: Some(true) },
        scripts: Some(vec![sr.clone(), sr.clone()]),
        modify_response: Some(vec![rm.clone()]),
        modify_request: Some(vec![qm.clone()]),
    };
    let page = config_page(&cfg);
    assert!(page.contains("9123"));
    assert!(page.contains("name=\"cfg-pause\" checked"));
    assert!(page.contains(&script_card(0, &sr)));
    assert!(page.contains(&script_card(1, &sr)));
    let card = response_card(0, &rm);
    assert!(page.contains(&card));
    assert!(card.contains(&csp_options(Some("remove_all"))));
    assert!(card.contains(&inject_options(Some("prepend"))));
    assert!(card.contains(&remove_header_row("response", 0, 1, "x-older")));
    assert!(card.contains(&header_pair_row("Response", 0, 0, "x-new", "1")));
    let qcard = request_card(0, &qm);
    assert!(page.contains(&qcard));
    assert!(qcard.contains(&remove_header_row("request", 0, 0, "cookie")));
    assert!(qcard.contains(&header_pair_row("Request", 0, 0, "x-req", "2")));
    let unpaused = Config { server: ServerConfig { port: 9123, pause: None }, ..cfg };
    assert!(!config_page(&unpaused).contains("cfg-pause\" checked"));
}

#[test]
fn activity_shows_the_20_newest_groups_and_the_log_all() {
    let entries: Vec<LogEntry> = (0..25).map(|i| req(&format!("id{}", i), 1000 + i as u64, &format!("h{}.com", i))).collect();
    let rows = |t: &str| t.matches("<tr class=\"combined-row\"").count();
    let activity = activity_table(&entries);
    assert_eq!(rows(&activity), 20);
    assert!(activity.contains("<td>h24.com</td>"));
    assert!(activity.contains("<td>h5.com</td>"));
    assert!(!activity.contains("<td>h4.com</td>"));
    assert!(activity.find("h24.com").unwrap() < activity.find("h23.com").unwrap());
    let serialized: Vec<String> = entries.iter().enumerate().map(|(i, _)| format!("{{\"n\":{}}}", i)).collect();
    let all = log_rows(&entries, &serialized, None);
    assert_eq!(rows(&all), 25);
}

use dope::config::{Config, RequestModifier, ResponseModifier, ScriptRule, ServerConfig};
use dope::edit::{
    add_request_header, add_request_remove_header, add_request_rule, add_response_header,
    add_response_remove_header, add_response_rule, add_script_rule, parse_u16,
    remove_request_header, remove_request_remove_header, remove_request_rule,
    remove_response_header, remove_response_remove_header, remove_response_rule,
    remove_script_rule, request_rule_fragment, response_rule_fragment, script_rule_fragment,
    update_request_header_key, update_request_header_val, update_request_remove_header,
    update_request_rule, update_response_header_key, update_response_header_val,
    update_response_remove_header, update_response_rule, update_script_rule, update_server_pause,
    update_server_port,
};
use dope::html::{request_card, response_card, response_section, script_card, scripts_section};

fn form(p: &[(&str, &str)]) -> Vec<(String, String)> {
    p.iter().map(|(a, b)| (a.to_string(), b.to_string())).collect()
}

fn base() -> Config {
    Config {
        server: ServerConfig { port: 8080, pause: None },
        scripts: None,
        modify_response: None,
        modify_request: None,
    }
}

#[test]
fn port_is_parsed_like_u16() {
    assert_eq!(parse_u16("8080"), Some(8080));
    assert_eq!(parse_u16("+80"), Some(80));
    assert_eq!(parse_u16("0065535"), Some(65535));
    assert_eq!(parse_u16("65536"), None);
    assert_eq!(parse_u16(""), None);
    assert_eq!(parse_u16("+"), None);
    assert_eq!(parse_u16("80a"), None);
    assert_eq!(parse_u16(" 80"), None);
    assert_eq!(parse_u16("-1"), None);
}

#[test]
fn port_form_prefers_value_then_cfg_port() {
    let mut c = base();
    update_server_port(&mut c, &form(&[("cfg-port", "9000")]));
    assert_eq!(c.server.port, 9000);
    update_server_port(&mut c, &form(&[("cfg-port", "1"), ("value", "9100")]));
    assert_eq!(c.server.port, 9100);
    update_server_port(&mut c, &form(&[("value", "not a port")]));
    assert_eq!(c.server.port, 9100);
    update_server_port(&mut c, &form(&[]));
    assert_eq!(c.server.port, 9100);
}

#[test]
fn pause_follows_the_checkbox() {
    let mut c = base();
    update_server_pause(&mut c, "cfg-pause=on");
    assert_eq!(c.server.pause, Some(true));
    update_server_pause(&mut c, "");
    assert_eq!(c.server.pause, None);
}

#[test]
fn script_rules_are_added_edited_and_removed() {
    let mut c = base();
    add_script_rule(&mut c);
    assert_eq!(c.scripts.as_ref().unwrap().len(), 1);
    assert!(update_script_rule(&mut c, 0, &form(&[("domain", "github.com"), ("scripts", " a, ,b ,"), ("other", "x")])));
    let r = &c.scripts.as_ref().unwrap()[0];
    assert_eq!(r.domain, "github.com");
    assert_eq!(r.scripts, vec!["a", "b"]);
    assert!(!update_script_rule(&mut c, 5, &form(&[("domain", "x")])));
    assert_eq!(script_rule_fragment(&c, 0), script_card(0, &c.scripts.as_ref().unwrap()[0]));
    assert_eq!(script_rule_fragment(&c, 3), scripts_section(c.scripts.as_ref().unwrap()));
    remove_script_rule(&mut c, 7);
    assert_eq!(c.scripts.as_ref().unwrap().len(), 1);
    remove_script_rule(&mut c, 0);
    assert!(c.scripts.as_ref().unwrap().is_empty());
}

#[test]
fn response_rule_fields_and_headers() {
    let mut c = base();
    add_response_rule(&mut c);
    assert!(update_response_rule(&mut c, 0, &form(&[("domain", "a.com"), ("csp", "remove_all"), ("inject_at", "")])));
    {
        let r = &c.modify_response.as_ref().unwrap()[0];
        assert_eq!(r.domain, "a.com");
        assert_eq!(r.csp.as_deref(), Some("remove_all"));
        assert!(r.inject_at.is_none());
    }
    assert!(add_response_header(&mut c, 0));
    assert!(add_response_header(&mut c, 0));
    assert_eq!(
        c.modify_response.as_ref().unwrap()[0].add_headers,
        Some(vec![("key0".to_string(), "value".to_string()), ("key1".to_string(), "value".to_string())])
    );
    assert!(update_response_header_key(&mut c, 0, &form(&[("key0", "x-dope")])));
    assert!(update_response_header_val(&mut c, 0, &form(&[("x-dope", "injected"), ("missing", "v")])));
    assert!(remove_response_header(&mut c, 0, "key1"));
    assert_eq!(
        c.modify_response.as_ref().unwrap()[0].add_headers,
        Some(vec![("x-dope".to_string(), "injected".to_string())])
    );
    assert!(add_response_remove_header(&mut c, 0));
    assert!(update_response_remove_header(&mut c, 0, 0, &form(&[("v", "x-frame-options")])));
    assert_eq!(c.modify_response.as_ref().unwrap()[0].remove_headers, Some(vec!["x-frame-options".to_string()]));
    assert!(remove_response_remove_header(&mut c, 0, 0));
    assert_eq!(c.modify_response.as_ref().unwrap()[0].remove_headers, Some(vec![]));
    assert!(!add_response_header(&mut c, 1));
    assert_eq!(response_rule_fragment(&c, 0), response_card(0, &c.modify_response.as_ref().unwrap()[0]));
    assert_eq!(response_rule_fragment(&c, 9), response_section(c.modify_response.as_ref().unwrap()));
    remove_response_rule(&mut c, 0);
    assert!(c.modify_response.as_ref().unwrap().is_empty());
}

#[test]
fn adding_then_removing_a_rule_restores_the_list() {
    let mut c = base();
    c.modify_request = Some(vec![RequestModifier { domain: "keep".to_string(), remove_headers: None, add_headers: None }]);
    add_request_rule(&mut c);
    assert_eq!(c.modify_request.as_ref().unwrap().len(), 2);
    remove_request_rule(&mut c, 1);
    let rules = c.modify_request.as_ref().unwrap();
    assert_eq!(rules.len(), 1);
    assert_eq!(rules[0].domain, "keep");
}

#[test]
fn request_rule_headers() {
    let mut c = base();
    add_request_rule(&mut c);
    assert!(update_request_rule(&mut c, 0, &form(&[("domain", "b.com"), ("csp", "ignored")])));
    assert_eq!(c.modify_request.as_ref().unwrap()[0].domain, "b.com");
    assert!(add_request_header(&mut c, 0));
    assert!(update_request_header_key(&mut c, 0, &form(&[("key0", "x-forwarded-proto")])));
    assert!(update_request_header_val(&mut c, 0, &form(&[("x-forwarded-proto", "https")])));
    assert_eq!(
        c.modify_request.as_ref().unwrap()[0].add_headers,
        Some(vec![("x-forwarded-proto".to_string(), "https".to_string())])
    );
    assert!(remove_request_header(&mut c, 0, "x-forwarded-proto"));
    assert_eq!(c.modify_request.as_ref().unwrap()[0].add_headers, Some(vec![]));
    assert!(add_request_remove_header(&mut c, 0));
    assert!(add_request_remove_header(&mut c, 0));
    assert!(update_request_remove_header(&mut c, 0, 1, &form(&[("v", "cookie")])));
    assert!(!update_request_remove_header(&mut c, 2, 0, &form(&[("v", "x")])));
    assert!(remove_request_remove_header(&mut c, 0, 0));
    assert_eq!(c.modify_request.as_ref().unwrap()[0].remove_headers, Some(vec!["cookie".to_string()]));
    assert_eq!(request_rule_fragment(&c, 0), request_card(0, &c.modify_request.as_ref().unwrap()[0]));
}

#[test]
fn placeholder_header_added_then_removed() {
    let mut c = base();
    c.modify_response = Some(vec![ResponseModifier {
        domain: "d".to_string(),
        csp: None,
        remove_headers: None,
        add_headers: Some(vec![("x-a".to_string(), "1".to_string())]),
        inject_at: None,
    }]);
    assert!(add_response_header(&mut c, 0));
    assert!(remove_response_header(&mut c, 0, "key1"));
    assert_eq!(c.modify_response.as_ref().unwrap()[0].add_headers, Some(vec![("x-a".to_string(), "1".to_string())]));
    let _ = ScriptRule { domain: String::new(), scripts: vec![] };
}

#[test]
fn a_shown_port_reads_back() {
    for p in [0u16, 7, 80, 443, 8080, 65535] {
        assert_eq!(parse_u16(&p.to_string()), Some(p));
    }
}

#[test]
fn renaming_onto_an_existing_name_keeps_names_distinct() {
    let mut c = base();
    c.modify_request = Some(vec![RequestModifier {
        domain: "d".to_string(),
        remove_headers: None,
        add_headers: Some(vec![("a".to_string(), "1".to_string()), ("b".to_string(), "2".to_string())]),
    }]);
    assert!(update_request_header_key(&mut c, 0, &form(&[("a", "b")])));
    assert_eq!(c.modify_request.as_ref().unwrap()[0].add_headers, Some(vec![("b".to_string(), "1".to_string())]));
}

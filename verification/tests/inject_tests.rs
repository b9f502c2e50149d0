use dope::config::{Config, ResponseModifier, ScriptRule, ServerConfig};
use dope::inject::{inject_scripts, script_tag};

fn config_at(position: Option<&str>) -> Config {
    Config {
        server: ServerConfig { port: 8080, pause: None },
        scripts: Some(vec![ScriptRule { domain: "a.com".to_string(), scripts: vec!["one".to_string(), "two".to_string()] }]),
        modify_response: position.map(|p| {
            vec![ResponseModifier {
                domain: "a.com".to_string(),
                csp: None,
                remove_headers: None,
                add_headers: None,
                inject_at: Some(p.to_string()),
            }]
        }),
        modify_request: None,
    }
}

fn loaded(a: &str, b: Option<&str>) -> Vec<Option<String>> {
    vec![Some(a.to_string()), b.map(|s| s.to_string())]
}

#[test]
fn tags_carry_the_polyfill_only_for_gm_scripts() {
    assert_eq!(script_tag("x()", "P"), "<script>x()</script>");
    assert_eq!(script_tag("GM_setValue(1)", "P"), "<script>P</script><script>GM_setValue(1)</script>");
}

#[test]
fn body_end_is_the_default_and_falls_back() {
    let mut html = String::from("<html><body>x</body></html>");
    inject_scripts(&mut html, "a.com", &config_at(None), &loaded("1", Some("2")), "");
    assert_eq!(html, "<html><body>x<script>1</script><script>2</script></body></html>");
    let mut no_body = String::from("<html>x</html>");
    inject_scripts(&mut no_body, "a.com", &config_at(Some("body_end")), &loaded("1", None), "");
    assert_eq!(no_body, "<html>x<script>1</script></html>");
    let mut bare = String::from("x");
    inject_scripts(&mut bare, "a.com", &config_at(None), &loaded("1", None), "");
    assert_eq!(bare, "x<script>1</script>");
}

#[test]
fn head_end_html_end_and_append() {
    let mut h = String::from("<head></head><body></body>");
    inject_scripts(&mut h, "a.com", &config_at(Some("head_end")), &loaded("1", None), "");
    assert_eq!(h, "<head><script>1</script></head><body></body>");
    let mut b = String::from("<body></body>");
    inject_scripts(&mut b, "a.com", &config_at(Some("head_end")), &loaded("1", None), "");
    assert_eq!(b, "<script>1</script><body></body>");
    let mut e = String::from("<html></html>");
    inject_scripts(&mut e, "a.com", &config_at(Some("html_end")), &loaded("1", None), "");
    assert_eq!(e, "<html><script>1</script></html>");
    let mut a = String::from("<body></body>");
    inject_scripts(&mut a, "a.com", &config_at(Some("append")), &loaded("1", None), "");
    assert_eq!(a, "<body></body><script>1</script>");
    let mut u = String::from("<body></body>");
    inject_scripts(&mut u, "a.com", &config_at(Some("nowhere")), &loaded("1", None), "");
    assert_eq!(u, "<body></body><script>1</script>");
}

#[test]
fn every_anchor_gets_the_tag_and_other_domains_none() {
    let mut two = String::from("</body></body>");
    inject_scripts(&mut two, "a.com", &config_at(None), &loaded("1", None), "");
    assert_eq!(two, "<script>1</script></body><script>1</script></body>");
    let mut other = String::from("<body></body>");
    inject_scripts(&mut other, "b.com", &config_at(None), &loaded("1", None), "");
    assert_eq!(other, "<body></body>");
}

use dope::cli::{config_summary, parse_args, CliCommand};
use dope::config::{Config, RequestModifier, ResponseModifier, ScriptRule, ServerConfig};

fn args(a: &[&str]) -> Vec<String> {
    a.iter().map(|s| s.to_string()).collect()
}

#[test]
fn defaults_without_options() {
    match parse_args(&args(&["dope"])) {
        CliCommand::Run(o) => {
            assert!(!o.pretty);
            assert_eq!(o.scripts_dir, "scripts");
            assert_eq!(o.logs_dir, "logs");
            assert_eq!(o.ca_dir, "ca");
            assert_eq!(o.config_path, "config.toml");
        }
        _ => panic!("expected options"),
    }
}

#[test]
fn options_are_read_in_order() {
    match parse_args(&args(&["dope", "-pp", "--scripts", "s", "--logs", "l", "--ca", "c", "--config", "x.toml"])) {
        CliCommand::Run(o) => {
            assert!(o.pretty);
            assert_eq!((o.scripts_dir.as_str(), o.logs_dir.as_str(), o.ca_dir.as_str(), o.config_path.as_str()), ("s", "l", "c", "x.toml"));
        }
        _ => panic!("expected options"),
    }
}

#[test]
fn help_and_unknown_options() {
    assert!(matches!(parse_args(&args(&["dope", "--logs", "l", "-h"])), CliCommand::Help));
    assert!(matches!(parse_args(&args(&["dope", "--help", "--bogus"])), CliCommand::Help));
    match parse_args(&args(&["dope", "--bogus", "-h"])) {
        CliCommand::UnknownOption(a) => assert_eq!(a, "--bogus"),
        _ => panic!("expected an unknown option"),
    }
    match parse_args(&args(&["dope", "--scripts"])) {
        CliCommand::UnknownOption(a) => assert_eq!(a, "--scripts"),
        _ => panic!("expected a missing value"),
    }
}

#[test]
fn summary_lists_rules_and_modifiers() {
    let cfg = Config {
        server: ServerConfig { port: 8080, pause: None },
        scripts: Some(vec![ScriptRule { domain: "github.com".to_string(), scripts: vec!["a".to_string(), "b".to_string()] }]),
        modify_response: Some(vec![ResponseModifier {
            domain: "github.com".to_string(),
            csp: Some("remove_nonce".to_string()),
            remove_headers: Some(vec!["x-frame-options".to_string(), "strict-transport-security".to_string()]),
            add_headers: Some(vec![("x-dope".to_string(), "injected".to_string())]),
            inject_at: Some("body_end".to_string()),
        }]),
        modify_request: Some(vec![RequestModifier {
            domain: "github.com".to_string(),
            remove_headers: None,
            add_headers: Some(vec![("x-forwarded-proto".to_string(), "https".to_string())]),
        }]),
    };
    assert_eq!(
        config_summary(&cfg),
        vec![
            "----------",
            "Target domains:",
            "- github.com [\"a\", \"b\"]",
            "  modify_response on github.com:",
            "    csp: remove_nonce",
            "    remove_headers: [x-frame-options, strict-transport-security]",
            "    add_header: x-dope = injected",
            "    inject_at: body_end",
            "  modify_request on github.com:",
            "    add_header: x-forwarded-proto = https",
            "----------",
        ]
    );
    let empty = Config { server: ServerConfig { port: 1, pause: None }, scripts: None, modify_response: None, modify_request: None };
    assert_eq!(config_summary(&empty), vec!["----------", "Target domains:", "----------"]);
}

#[test]
fn a_single_config_or_logs_option_moves_only_that_path() {
    match parse_args(&args(&["dope", "--config", "other.toml"])) {
        CliCommand::Run(o) => {
            assert_eq!(o.config_path, "other.toml");
            assert_eq!(o.logs_dir, "logs");
            assert_eq!(o.scripts_dir, "scripts");
        }
        _ => panic!("expected options"),
    }
    match parse_args(&args(&["dope", "--logs", "/tmp/l"])) {
        CliCommand::Run(o) => {
            assert_eq!(o.logs_dir, "/tmp/l");
            assert_eq!(o.config_path, "config.toml");
            assert_eq!(o.ca_dir, "ca");
        }
        _ => panic!("expected options"),
    }
}

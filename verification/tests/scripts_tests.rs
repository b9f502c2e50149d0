use dope::scripts::{script_names, script_path, sort_names, text_le_exec, ScriptError};

#[test]
fn script_files_live_under_scripts() {
    assert_eq!(script_path("example"), "./scripts/example.user.js");
    assert_eq!(script_path(""), "./scripts/.user.js");
}

#[test]
fn script_error_describes_path_and_cause() {
    let e = ScriptError::new("./scripts/x.user.js".to_string(), "No such file or directory".to_string());
    assert_eq!(e.path(), "./scripts/x.user.js");
    assert_eq!(e.source(), "No such file or directory");
    assert_eq!(
        e.message(),
        "Error while reading userscript ./scripts/x.user.js: No such file or directory"
    );
}

#[test]
fn only_userscripts_are_listed_sorted_without_suffix() {
    let files: Vec<String> = ["zeta.user.js", "readme.md", "Alpha.user.js", "beta.user.js", "x.js", ".user.js", "beta.user.js.bak"]
        .iter()
        .map(|s| s.to_string())
        .collect();
    assert_eq!(script_names(&files), vec!["", "Alpha", "beta", "zeta"]);
    assert!(script_names(&Vec::new()).is_empty());
}

#[test]
fn names_sort_as_str_does() {
    let names: Vec<String> = ["b", "ab", "a", "é", "Z", "aa"].iter().map(|s| s.to_string()).collect();
    let mut expected = names.clone();
    expected.sort();
    assert_eq!(sort_names(names), expected);
    assert!(text_le_exec("a", "ab"));
    assert!(!text_le_exec("b", "ab"));
    assert!(text_le_exec("same", "same"));
}

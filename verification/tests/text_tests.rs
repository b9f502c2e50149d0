use dope::text::{
    count_lines, eq_ignore_ascii_case, join, parse_comma_list, replace_all, split_char,
    split_lines, trim, until_char_string,
};

#[test]
fn lines_are_counted_as_split() {
    let text = "a\r\nb\n\nc";
    assert_eq!(split_lines(text), vec!["a", "b", "", "c"]);
    assert_eq!(count_lines(text), 4);
    assert_eq!(count_lines("a\n"), 1);
    assert_eq!(split_lines("a\n"), vec!["a"]);
    assert_eq!(count_lines(""), 0);
}

#[test]
fn string_helpers() {
    assert_eq!(trim("\t x y \n"), "x y");
    assert_eq!(replace_all("aaa", "aa", "b"), "ba");
    assert_eq!(until_char_string("text/html; charset=x", ';'), "text/html");
    assert_eq!(split_char("a,,b", ','), vec!["a", "", "b"]);
    assert_eq!(parse_comma_list(" a , b,, c "), vec!["a", "b", "c"]);
    assert_eq!(join(&vec!["a".to_string(), "b".to_string()], ", "), "a, b");
    assert!(eq_ignore_ascii_case("WebSocket", "websocket"));
    assert!(!eq_ignore_ascii_case("websockets", "websocket"));
}

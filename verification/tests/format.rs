use batch_translator::output::MToolOutput;
use batch_translator::output::ReplaceOutput;
use batch_translator::output::RewriteOutput;
use batch_translator::output::TextOutput;
use batch_translator::output::escape_json_string;
use batch_translator::output::replace_sub;
use batch_translator::output::trim_newlines;

#[test]
fn mtool_escape_json_string_test() {
    let s = r#"hello\world"#;
    let escaped = escape_json_string(s, Some(5));
    assert_eq!(escaped, "hello\\n\\\\worl\\nd");
}

#[test]
fn replace_escape_json_string_test() {
    let s = r#"hello\world"#;
    let escaped = escape_json_string(s, Some(5));
    assert_eq!(escaped, "hello\\n\\\\worl\\nd");
}

#[test]
fn escape_json_string_escapes_all_specials() {
    let s = "a\"b\\c\u{8}d\u{c}e\nf\rg\th";
    let escaped = escape_json_string(s, None);
    assert_eq!(escaped, "a\\\"b\\\\c\\bd\\fe\\nf\\rg\\th");
}

#[test]
fn test_format_line_for_mtool() {
    let output = ReplaceOutput::new(r#""(.*)""#, r#""(.*)""#, r#": "$trans""#, r#":\s"(.+)""#);
    let line = output.format_line(r#""请翻译": "待翻译","#, "翻译完成");
    assert_eq!(line, r#""请翻译": "翻译完成","#);
    let content = r#" "请原\"谅\"我": "请原\"谅\"我", "#;
    let line = output.format_line(content, "翻译完成");
    assert_eq!(line, r#" "请原\"谅\"我": "翻译完成", "#);
}

#[test]
fn test_format_line_for_ain() {
    let output = ReplaceOutput::new(r#""(.*)""#, r#""(.*)""#, r#"= "$trans""#, r#"=\s"(.+)""#);
    let content = r#";m[300] = "请原谅我""#;
    let line = output.format_line(content, "翻译完成");
    assert_eq!(line, r#";m[300] = "翻译完成""#);
}

#[test]
fn mtool_format_line_renders_pair() {
    let mut output = MToolOutput::new(r#"\n{2,}"#, r#"\(\d+\)\s?(.+)"#);
    output.set_line_width(None);
    let line = output.format_line("\"你好\":\"你好\"\n", "hello");
    assert_eq!(line, "\"\"你好\":\"你好\"\": \"hello\",\n");
}

#[test]
fn text_extract_lines_takes_group_one() {
    let output = TextOutput::new(r#"\n{2,}"#, r#"\(\d+\)\s?(.+)"#);
    let lines = output.extract_lines("(1) one\n(2) two\n(3) three");
    assert_eq!(lines, vec!["one", "two", "three"]);
}

#[test]
fn text_extract_lines_applies_replace_first() {
    // The replace rule joins a wrapped line back together before capture.
    let output = TextOutput::new(r#"\n\n"#, r#"\(\d+\)\s?(.+)"#);
    let lines = output.extract_lines("(1) one\n\n(2) two");
    assert_eq!(lines, vec!["one\\n(2) two"]);
}

#[test]
fn text_format_line_appends_newline() {
    let output = TextOutput::new(r#"x"#, r#"(.+)"#);
    assert_eq!(output.format_line("raw", "translated"), "translated\n");
}

#[test]
fn trim_newlines_strips_both_ends() {
    assert_eq!(trim_newlines("\n\nabc\n"), "abc");
    assert_eq!(trim_newlines("abc"), "abc");
    assert_eq!(trim_newlines("\n\n"), "");
    assert_eq!(trim_newlines("a\nb"), "a\nb");
}

#[test]
fn replace_sub_replaces_every_occurrence() {
    assert_eq!(replace_sub("a$transb$trans", "$trans", "X"), "aXbX");
    assert_eq!(replace_sub("no needle", "$trans", "X"), "no needle");
    assert_eq!(replace_sub("$tr", "$trans", "X"), "$tr");
}

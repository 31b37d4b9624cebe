use linelint::config::Config;
use linelint::line::LineEnding;
use linelint::rule::trailing_ws_lint::TrailingWhitespaceLint;

fn lines_of(policy: LineEnding, content: &str) -> Vec<usize> {
    let config = Config::new(policy);
    let lint = TrailingWhitespaceLint {};
    lint.check(&config, "f.txt", content).iter().map(|i| i.line_number).collect()
}

fn strip(content: &str) -> String {
    let config = Config::new(LineEnding::Auto);
    TrailingWhitespaceLint {}.format(&config, content)
}

#[test]
fn trailing_ws_two_lines_under_any_policy() {
    for policy in [LineEnding::Unix, LineEnding::Windows, LineEnding::Auto] {
        assert_eq!(lines_of(policy, "foo \nbar\t\n"), vec![1, 2]);
        let config = Config::new(policy);
        assert_eq!(TrailingWhitespaceLint {}.format(&config, "foo \nbar\t\n"), "foo\nbar\n");
    }
}

#[test]
fn trailing_ws_issue_fields() {
    let config = Config::new(LineEnding::Unix);
    let lint = TrailingWhitespaceLint {};
    let issues = lint.check(&config, "dir/f.txt", "ok\nbad \n");
    assert_eq!(issues.len(), 1);
    assert_eq!(issues[0].rule, "trailing-whitespace");
    assert_eq!(issues[0].rule, lint.name());
    assert_eq!(issues[0].filename, "dir/f.txt");
    assert_eq!(issues[0].description, "Trailing whitespace found");
    assert_eq!(issues[0].line_number, 2);
}

#[test]
fn trailing_ws_keeps_each_line_break() {
    assert_eq!(strip("a \r\nb\t \nc  "), "a\r\nb\nc");
    assert_eq!(lines_of(LineEnding::Auto, "a \r\nb\t \nc  "), vec![1, 2, 3]);
}

#[test]
fn trailing_ws_final_line_with_and_without_break() {
    assert_eq!(strip("a "), "a");
    assert_eq!(strip("a \n"), "a\n");
    assert_eq!(strip("a\n "), "a\n");
    assert_eq!(strip(" "), "");
    assert_eq!(strip(""), "");
    assert_eq!(lines_of(LineEnding::Unix, "a\n "), vec![2]);
    assert_eq!(lines_of(LineEnding::Unix, ""), Vec::<usize>::new());
}

#[test]
fn trailing_ws_leaves_inner_blanks() {
    assert_eq!(strip("  a  b\t c\n\td e"), "  a  b\t c\n\td e");
    assert!(lines_of(LineEnding::Unix, "  a  b\t c\n\td e").is_empty());
    assert_eq!(strip("a \rb\n"), "a \rb\n");
    assert_eq!(strip("\u{e9} \n\u{4e16}\t"), "\u{e9}\n\u{4e16}");
}

#[test]
fn trailing_ws_blank_lines() {
    assert_eq!(strip(" \n\t\n \t \r\n"), "\n\n\r\n");
    assert_eq!(lines_of(LineEnding::Unix, " \n\t\n \t \r\n"), vec![1, 2, 3]);
    assert_eq!(lines_of(LineEnding::Unix, "\n\n x \n"), vec![3]);
}

#[test]
fn trailing_ws_stray_carriage_return() {
    assert_eq!(strip("a \r \n"), "a \r\n");
    assert_eq!(strip("a \r\n"), "a\r\n");
    assert_eq!(strip("a\r \n"), "a\r\n");
    assert_eq!(strip("\r \r \n"), "\r \r\n");
    assert_eq!(strip("a \r"), "a \r");
    assert_eq!(strip("a \r \t"), "a \r");
    assert_eq!(lines_of(LineEnding::Unix, "a \r \n"), vec![1]);
    assert_eq!(lines_of(LineEnding::Unix, "a \r\n"), vec![1]);
    assert!(lines_of(LineEnding::Unix, "a\r\n").is_empty());
}

#[test]
fn trailing_ws_format_is_idempotent_and_consistent() {
    for content in ["", " ", "a \n", "a\r \n", "x\t\r\n y \n z", "\r\r \n", "a\n\n b \n"] {
        let once = strip(content);
        assert_eq!(strip(&once), once);
        assert!(lines_of(LineEnding::Unix, &once).is_empty());
        assert_eq!(lines_of(LineEnding::Unix, content).is_empty(), once == content);
        assert_eq!(once.matches('\n').count(), content.matches('\n').count());
    }
}

#[test]
fn trailing_ws_keeps_line_count() {
    for content in ["a \nb \nc ", "a\r\n b\t\r\n", "one", " x \n\n\n y"] {
        assert_eq!(strip(content).lines().count(), content.lines().count());
    }
}

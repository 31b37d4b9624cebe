use linelint::config::Config;
use linelint::line::LineEnding;
use linelint::rule::line_end_lint::LineEndLint;

#[test]
fn test_line_end_lint_check_with_proper_ending() {
    let config = Config::new(LineEnding::Unix);
    let lint = LineEndLint {};
    let content = "This is a test file.\n";
    let filename = "test_file.rs";

    let issues = lint.check(&config, filename, content);
    assert!(
        issues.is_empty(),
        "There should be no issues when the file ends with the correct line ending"
    );
}

#[test]
fn test_line_end_lint_check_with_incorrect_ending() {
    let config = Config::new(LineEnding::Unix);
    let lint = LineEndLint {};
    let content = "This is a test file.";
    let filename = "test_file.rs";

    let issues = lint.check(&config, filename, content);
    assert_eq!(
        issues.len(),
        1,
        "There should be one issue for missing line ending"
    );
    assert_eq!(
        issues[0].description,
        "File does not end with the expected line ending"
    );
}

#[test]
fn test_line_end_lint_format_adds_missing_ending() {
    let config = Config::new(LineEnding::Unix);
    let lint = LineEndLint {};
    let content = "This is a test file.";

    let formatted = lint.format(&config, content);
    assert_eq!(
        formatted, "This is a test file.\n",
        "The formatted content should end with the correct line ending"
    );
}

#[test]
fn test_line_end_lint_format_does_nothing_if_correct_ending() {
    let config = Config::new(LineEnding::Unix);
    let lint = LineEndLint {};
    let content = "This is a test file.\n";

    let formatted = lint.format(&config, content);
    assert_eq!(
        formatted, content,
        "The content should not be changed if the correct line ending is present"
    );
}

#[test]
fn line_end_issue_on_single_line_without_break() {
    let config = Config::new(LineEnding::Unix);
    let lint = LineEndLint {};
    let issues = lint.check(&config, "f.txt", "hello");
    assert_eq!(issues.len(), 1);
    assert_eq!(issues[0].line_number, 1);
    assert_eq!(issues[0].rule, "line-end");
    assert_eq!(issues[0].rule, lint.name());
    assert_eq!(issues[0].filename, "f.txt");
    assert_eq!(lint.format(&config, "hello"), "hello\n");
}

#[test]
fn line_end_auto_accepts_inferred_windows_ending() {
    let config = Config::new(LineEnding::Auto);
    let lint = LineEndLint {};
    assert!(lint.check(&config, "f.txt", "a\r\nb\r\n").is_empty());
    assert_eq!(lint.format(&config, "a\r\nb\r\n"), "a\r\nb\r\n");
}

#[test]
fn line_end_auto_appends_inferred_ending() {
    let config = Config::new(LineEnding::Auto);
    let lint = LineEndLint {};
    assert_eq!(lint.format(&config, "a\r\nb"), "a\r\nb\r\n");
    assert_eq!(lint.format(&config, "a\nb"), "a\nb\n");
    assert_eq!(lint.format(&config, ""), "\n");
    let issues = lint.check(&config, "f.txt", "a\r\nb");
    assert_eq!(issues.len(), 1);
    assert_eq!(issues[0].line_number, 2);
}

#[test]
fn line_end_windows_appends_after_unix_ending() {
    let config = Config::new(LineEnding::Windows);
    let lint = LineEndLint {};
    assert_eq!(lint.format(&config, "a\n"), "a\n\r\n");
    let issues = lint.check(&config, "f.txt", "a\n");
    assert_eq!(issues.len(), 1);
    assert_eq!(issues[0].line_number, 1);
    assert!(lint.check(&config, "f.txt", "a\r\n").is_empty());
}

#[test]
fn line_end_line_number_counts_lines() {
    let config = Config::new(LineEnding::Windows);
    let lint = LineEndLint {};
    assert_eq!(lint.check(&config, "f", "")[0].line_number, 0);
    assert_eq!(lint.check(&config, "f", "a\nb\nc")[0].line_number, 3);
    assert_eq!(lint.check(&config, "f", "a\nb\n")[0].line_number, 2);
    assert_eq!(lint.check(&config, "f", "\u{e9}t\u{e9}\n\u{4e16}")[0].line_number, 2);
}

#[test]
fn line_end_format_is_idempotent() {
    for policy in [LineEnding::Unix, LineEnding::Windows, LineEnding::Auto] {
        let config = Config::new(policy);
        let lint = LineEndLint {};
        for content in ["", "a", "a\n", "a\r", "a\r\n", "a\r\nb", "\r", "x \n y"] {
            let once = lint.format(&config, content);
            let twice = lint.format(&config, &once);
            assert_eq!(once, twice);
            assert!(lint.check(&config, "f", &once).is_empty());
            assert_eq!(lint.check(&config, "f", content).is_empty(), once == content);
        }
    }
}

#[test]
fn get_ending_resolves_each_policy() {
    assert_eq!(LineEnding::Unix.get_ending("a\r\n"), "\n");
    assert_eq!(LineEnding::Windows.get_ending("a\n"), "\r\n");
    assert_eq!(LineEnding::Auto.get_ending("a\r\nb\n"), "\r\n");
    assert_eq!(LineEnding::Auto.get_ending("a\nb\r\n"), "\r\n");
    assert_eq!(LineEnding::Auto.get_ending("a\nb\n"), "\n");
    assert_eq!(LineEnding::Auto.get_ending("no breaks"), "\n");
    assert_eq!(LineEnding::Auto.get_ending(""), "\n");
    assert_eq!(LineEnding::Auto.get_ending("a\rb\n\r"), "\n");
    assert_eq!(LineEnding::Auto.get_ending("\r\n"), "\r\n");
}

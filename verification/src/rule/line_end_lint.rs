use vstd::prelude::*;
use vstd::string::StringExecFns;
use crate::config::Config;
use crate::issue::{Issue, IssueView};
use crate::issue::issue_views;
use crate::line::{LineEnding, crlf, crlf_at, has_crlf};
use crate::rule::LINE_END_RULE_NAME;
use crate::text::{chars_end_with, count_lines, ends_with, line_count, to_chars};

verus! {

/// The rule that a file ends with the line ending of the policy.
#[derive(Clone, Copy, Debug)]
pub struct LineEndLint {}

/// What an issue of this rule says.
pub const LINE_END_DESCRIPTION: &'static str = "File does not end with the expected line ending";

/// Whether `content` ends with the ending that `policy` asks of it.
pub open spec fn line_end_ok(policy: LineEnding, content: Seq<char>) -> bool {
    ends_with(content, policy.ending(content))
}

/// `content` with the missing ending appended, or unchanged where it is there.
pub open spec fn line_end_format(policy: LineEnding, content: Seq<char>) -> Seq<char> {
    if line_end_ok(policy, content) {
        content
    } else {
        content + policy.ending(content)
    }
}

/// No issue where the ending is there; else one, at the content's last line.
pub open spec fn line_end_issues(policy: LineEnding, filename: Seq<char>, content: Seq<char>) -> Seq<
    IssueView,
> {
    if line_end_ok(policy, content) {
        Seq::empty()
    } else {
        seq![
            IssueView {
                rule: LINE_END_RULE_NAME@,
                filename: filename,
                description: LINE_END_DESCRIPTION@,
                line_number: line_count(content),
            },
        ]
    }
}

impl LineEndLint {
    /// The rule's name.
    pub fn name(&self) -> (r: &'static str)
        ensures
            r@ == LINE_END_RULE_NAME@,
    {
        LINE_END_RULE_NAME
    }

    /// Reports the missing line ending, if it is missing.
    pub fn check(&self, config: &Config, filename: &str, content: &str) -> (issues: Vec<Issue>)
        ensures
            issue_views(issues@) == line_end_issues(config.line_ending, filename@, content@),
            issues@.len() == 0 <==> line_end_ok(config.line_ending, content@),
    {
        let mut issues: Vec<Issue> = Vec::new();
        let chars = to_chars(content);
        let ending = to_chars(config.line_ending.get_ending(content));
        if !chars_end_with(&chars, &ending) {
            issues.push(
                Issue::new(LINE_END_RULE_NAME, filename, LINE_END_DESCRIPTION, count_lines(&chars)),
            );
        }
        assert(issue_views(issues@) =~= line_end_issues(
            config.line_ending,
            filename@,
            content@,
        ));
        issues
    }

    /// Appends the line ending where it is missing.
    pub fn format(&self, config: &Config, content: &str) -> (r: String)
        ensures
            r@ == line_end_format(config.line_ending, content@),
    {
        let mut formatted = String::from_str(content);
        let line_ending = config.line_ending.get_ending(content);
        if !chars_end_with(&to_chars(content), &to_chars(line_ending)) {
            formatted.append(line_ending);
        }
        formatted
    }
}

/// Content that the rule has rewritten ends as the policy asks: rewriting it
/// again changes nothing.
pub proof fn lemma_line_end_format_idempotent(policy: LineEnding, content: Seq<char>)
    ensures
        line_end_ok(policy, line_end_format(policy, content)),
        line_end_format(policy, line_end_format(policy, content)) == line_end_format(
            policy,
            content,
        ),
{
    let t = line_end_format(policy, content);
    if !line_end_ok(policy, content) {
        let e = policy.ending(content);
        assert(t.subrange(t.len() - e.len(), t.len() as int) =~= e);
        if policy is Auto {
            if has_crlf(content) {
                let i = choose|i: int| crlf_at(content, i);
                assert(crlf_at(t, i));
            } else if has_crlf(t) {
                let i = choose|i: int| crlf_at(t, i);
                if i + 1 < content.len() {
                    assert(crlf_at(content, i));
                }
                assert(t.subrange(t.len() - 2, t.len() as int) =~= crlf());
            }
        }
    }
}

/// The rule finds nothing exactly where it would change nothing.
pub proof fn lemma_line_end_check_format_consistent(
    policy: LineEnding,
    filename: Seq<char>,
    content: Seq<char>,
)
    ensures
        line_end_issues(policy, filename, content).len() == 0 <==> line_end_format(policy, content)
            == content,
{
    if !line_end_ok(policy, content) {
        assert(policy.ending(content).len() > 0);
        assert(line_end_format(policy, content).len() > content.len());
    }
}

} // verus!

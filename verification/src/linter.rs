use vstd::prelude::*;
use crate::config::Config;
use crate::issue::{Issue, IssueView};
use crate::issue::issue_views;
use crate::line::{LineEnding, crlf, crlf_at, has_crlf, lf};
use crate::rule::LintRule;
use crate::rule::line_end_lint::{
    LineEndLint,
    lemma_line_end_check_format_consistent,
    lemma_line_end_format_idempotent,
    line_end_format,
    line_end_ok,
};
use crate::rule::trailing_ws_lint::{
    TrailingWhitespaceLint,
    lemma_strip_idempotent,
    lemma_strip_keeps_last,
    lemma_trailing_ws_check_format_consistent,
    blank_before_parted_break,
    strip,
};
use crate::text::ends_with;

verus! {

/// A file that could not be read or written, and why.
#[derive(Debug)]
pub struct FileError {
    pub filename: String,
    pub message: String,
}

/// Runs the rules of a configuration over the content of files.
pub struct Linter<'a> {
    pub config: &'a Config,
}

/// The issues that the rules find in `content`, rule after rule.
pub open spec fn all_issues(
    rules: Seq<LintRule>,
    policy: LineEnding,
    filename: Seq<char>,
    content: Seq<char>,
) -> Seq<IssueView>
    decreases rules.len(),
{
    if rules.len() == 0 {
        Seq::empty()
    } else {
        all_issues(rules.drop_last(), policy, filename, content) + rules.last().issues(
            policy,
            filename,
            content,
        )
    }
}

/// `content` after each rule has rewritten what the rule before it gave.
pub open spec fn format_all(rules: Seq<LintRule>, policy: LineEnding, content: Seq<char>) -> Seq<
    char,
>
    decreases rules.len(),
{
    if rules.len() == 0 {
        content
    } else {
        rules.last().formatted(policy, format_all(rules.drop_last(), policy, content))
    }
}

impl<'a> Linter<'a> {
    /// A linter bound to `config`.
    pub fn new(config: &'a Config) -> (r: Linter<'a>)
        ensures
            r.config == config,
    {
        Linter { config }
    }

    /// Checks the content of one file against every rule, in their order.
    pub fn check_content(&self, filename: &str, content: &str) -> (issues: Vec<Issue>)
        ensures
            issue_views(issues@) == all_issues(
                self.config.rules@,
                self.config.line_ending,
                filename@,
                content@,
            ),
    {
        let mut issues: Vec<Issue> = Vec::new();
        let mut i: usize = 0;
        assert(issue_views(issues@) =~= Seq::<IssueView>::empty());
        assert(self.config.rules@.take(0) =~= Seq::<LintRule>::empty());
        while i < self.config.rules.len()
            invariant
                i <= self.config.rules.len(),
                issue_views(issues@) == all_issues(
                    self.config.rules@.take(i as int),
                    self.config.line_ending,
                    filename@,
                    content@,
                ),
            decreases self.config.rules.len() - i,
        {
            let ghost before = issues@;
            let mut found = self.config.rules[i].check(self.config, filename, content);
            let ghost added = found@;
            issues.append(&mut found);
            assert(self.config.rules@.take(i + 1).drop_last() =~= self.config.rules@.take(
                i as int,
            ));
            assert(issue_views(issues@) =~= issue_views(before) + issue_views(added));
            i += 1;
        }
        assert(self.config.rules@.take(i as int) =~= self.config.rules@);
        issues
    }

    /// Passes the content of one file through every rule, in their order.
    pub fn format_content(&self, content: &str) -> (r: String)
        ensures
            r@ == format_all(self.config.rules@, self.config.line_ending, content@),
    {
        let mut current: String = content.to_owned();
        let mut i: usize = 0;
        assert(self.config.rules@.take(0) =~= Seq::<LintRule>::empty());
        while i < self.config.rules.len()
            invariant
                i <= self.config.rules.len(),
                current@ == format_all(
                    self.config.rules@.take(i as int),
                    self.config.line_ending,
                    content@,
                ),
            decreases self.config.rules.len() - i,
        {
            assert(self.config.rules@.take(i + 1).drop_last() =~= self.config.rules@.take(
                i as int,
            ));
            current = self.config.rules[i].format(self.config, current.as_str());
            i += 1;
        }
        assert(self.config.rules@.take(i as int) =~= self.config.rules@);
        current
    }

    /// What is to be written back for a file: the rewritten content where
    /// it differs from what was read, nothing where it does not.
    pub fn rewrite(&self, content: &str) -> (r: Option<String>)
        ensures
            r is None <==> format_all(self.config.rules@, self.config.line_ending, content@)
                == content@,
            r is Some ==> r->0@ == format_all(
                self.config.rules@,
                self.config.line_ending,
                content@,
            ),
    {
        let formatted = self.format_content(content);
        let given: String = content.to_owned();
        if formatted == given {
            None
        } else {
            Some(formatted)
        }
    }

    /// The result of a check over many files: the issues, unless a file
    /// could not be read; then the errors and no issue.
    pub fn check_outcome(issues: Vec<Issue>, errors: Vec<FileError>) -> (r: Result<
        Vec<Issue>,
        Vec<FileError>,
    >)
        ensures
            errors@.len() == 0 ==> r == Ok::<Vec<Issue>, Vec<FileError>>(issues),
            errors@.len() > 0 ==> r == Err::<Vec<Issue>, Vec<FileError>>(errors),
    {
        if errors.len() == 0 {
            Ok(issues)
        } else {
            Err(errors)
        }
    }

    /// The result of rewriting many files: the errors, if there were any.
    pub fn format_outcome(errors: Vec<FileError>) -> (r: Result<(), Vec<FileError>>)
        ensures
            errors@.len() == 0 ==> r == Ok::<(), Vec<FileError>>(()),
            errors@.len() > 0 ==> r == Err::<(), Vec<FileError>>(errors),
    {
        if errors.len() == 0 {
            Ok(())
        } else {
            Err(errors)
        }
    }
}

/// A rule reports nothing in a file's content exactly where it would
/// change nothing in it.
pub proof fn lemma_rule_check_format_consistent(
    rule: LintRule,
    policy: LineEnding,
    filename: Seq<char>,
    content: Seq<char>,
)
    ensures
        rule.issues(policy, filename, content).len() == 0 <==> rule.formatted(policy, content)
            == content,
{
    match rule {
        LintRule::LineEnd(_) => lemma_line_end_check_format_consistent(policy, filename, content),
        LintRule::TrailingWhitespace(_) => lemma_trailing_ws_check_format_consistent(
            filename,
            content,
        ),
    }
}

/// Each rule leaves alone what it has rewritten; the trailing-whitespace
/// rule unless a blank stood before a parted break.
pub proof fn lemma_rule_format_idempotent(rule: LintRule, policy: LineEnding, content: Seq<char>)
    requires
        rule is TrailingWhitespace ==> !blank_before_parted_break(content),
    ensures
        rule.formatted(policy, rule.formatted(policy, content)) == rule.formatted(policy, content),
{
    match rule {
        LintRule::LineEnd(_) => lemma_line_end_format_idempotent(policy, content),
        LintRule::TrailingWhitespace(_) => lemma_strip_idempotent(content),
    }
}

/// Content in which no rule of the list finds anything passes through all
/// of them unchanged.
pub proof fn lemma_no_issue_no_change(
    rules: Seq<LintRule>,
    policy: LineEnding,
    filename: Seq<char>,
    content: Seq<char>,
)
    requires
        all_issues(rules, policy, filename, content).len() == 0,
    ensures
        format_all(rules, policy, content) == content,
    decreases rules.len(),
{
    if rules.len() > 0 {
        lemma_no_issue_no_change(rules.drop_last(), policy, filename, content);
        lemma_rule_check_format_consistent(rules.last(), policy, filename, content);
    }
}

/// The line-end rule followed by the trailing-whitespace rule.
pub open spec fn standard_rules() -> Seq<LintRule> {
    seq![LintRule::LineEnd(LineEndLint {  }), LintRule::TrailingWhitespace(TrailingWhitespaceLint {  })]
}

/// `content` with its ending put right and its trailing blanks removed.
pub open spec fn standard_format(policy: LineEnding, content: Seq<char>) -> Seq<char> {
    strip(line_end_format(policy, content))
}

/// The two standard rules in a row append the ending and then strip.
pub proof fn lemma_standard_format(policy: LineEnding, content: Seq<char>)
    ensures
        format_all(standard_rules(), policy, content) == standard_format(policy, content),
{
    let rules = standard_rules();
    let first = rules.drop_last();
    assert(first.drop_last() =~= Seq::<LintRule>::empty());
    assert(format_all(first.drop_last(), policy, content) == content);
    assert(format_all(first, policy, content) == line_end_format(policy, content));
}

/// Text that ends in a carriage return and a line feed still does once its
/// trailing blanks are removed.
pub proof fn lemma_strip_keeps_crlf_end(s: Seq<char>)
    requires
        ends_with(s, crlf()),
    ensures
        ends_with(strip(s), crlf()),
    decreases s.len(),
{
    let n = s.len() as int;
    assert(s.subrange(n - 2, n)[0] == '\r' && s.subrange(n - 2, n)[1] == '\n');
    let rest = s.drop_first();
    if n == 2 {
        assert(strip(rest.drop_first()) =~= Seq::<char>::empty());
        assert(strip(rest) =~= seq!['\n']);
        assert(strip(s) =~= crlf());
        assert(strip(s).subrange(0, 2) =~= crlf());
    } else {
        assert(rest.subrange(rest.len() - 2, rest.len() as int) =~= s.subrange(n - 2, n));
        lemma_strip_keeps_crlf_end(rest);
        let r = strip(rest);
        let t = seq![s[0]] + r;
        assert(t.subrange(t.len() - 2, t.len() as int) =~= r.subrange(
            r.len() - 2,
            r.len() as int,
        ));
    }
}

/// The two standard rules in a row leave alone what they have rewritten,
/// unless a blank stood before a parted break once the ending was there,
/// or, under the automatic policy, the removal of blanks has joined a
/// carriage return to a line feed before the end of content that had no
/// such pair: the policy then changes its mind.
pub proof fn lemma_standard_format_idempotent(policy: LineEnding, content: Seq<char>)
    requires
        !blank_before_parted_break(line_end_format(policy, content)),
        policy is Auto && !has_crlf(content) && has_crlf(standard_format(policy, content))
            ==> ends_with(standard_format(policy, content), crlf()),
    ensures
        format_all(standard_rules(), policy, format_all(standard_rules(), policy, content))
            == format_all(standard_rules(), policy, content),
{
    let z = line_end_format(policy, content);
    let y = strip(z);
    lemma_standard_format(policy, content);
    lemma_standard_format(policy, y);
    lemma_line_end_format_idempotent(policy, content);
    lemma_strip_idempotent(z);
    let e = policy.ending(z);
    assert(z.subrange(z.len() - e.len(), z.len() as int)[e.len() - 1] == e[e.len() - 1]);
    if e == crlf() {
        lemma_strip_keeps_crlf_end(z);
        assert(crlf_at(y, y.len() - 2)) by {
            assert(y.subrange(y.len() - 2, y.len() as int)[0] == '\r');
            assert(y.subrange(y.len() - 2, y.len() as int)[1] == '\n');
        }
    } else {
        lemma_strip_keeps_last(z);
        assert(y.subrange(y.len() - 1, y.len() as int) =~= lf());
        if policy is Auto && has_crlf(content) {
            let i = choose|i: int| crlf_at(content, i);
            assert(crlf_at(z, i));
        }
    }
    assert(line_end_ok(policy, y));
}

} // verus!

use vstd::prelude::*;
use crate::config::Config;
use crate::issue::{Issue, IssueView};
use crate::issue::issue_views;
use crate::line::LineEnding;
use crate::rule::line_end_lint::{LineEndLint, line_end_format, line_end_issues};
use crate::rule::trailing_ws_lint::{TrailingWhitespaceLint, strip, trailing_ws_issues};

pub mod line_end_lint;
pub mod trailing_ws_lint;

verus! {

/// The name of the rule on how a file ends.
pub const LINE_END_RULE_NAME: &'static str = "line-end";

/// The name of the rule on how lines end.
pub const TRAILING_WS_RULE_NAME: &'static str = "trailing-whitespace";

/// A rule that a file's content can be checked against and rewritten to meet.
#[derive(Clone, Copy, Debug)]
pub enum LintRule {
    LineEnd(LineEndLint),
    TrailingWhitespace(TrailingWhitespaceLint),
}

impl LintRule {
    /// The name under which the rule reports.
    pub open spec fn spec_name(self) -> Seq<char> {
        match self {
            LintRule::LineEnd(_) => LINE_END_RULE_NAME@,
            LintRule::TrailingWhitespace(_) => TRAILING_WS_RULE_NAME@,
        }
    }

    /// The issues that the rule finds in `content` under `policy`.
    pub open spec fn issues(self, policy: LineEnding, filename: Seq<char>, content: Seq<char>) -> Seq<
        IssueView,
    > {
        match self {
            LintRule::LineEnd(_) => line_end_issues(policy, filename, content),
            LintRule::TrailingWhitespace(_) => trailing_ws_issues(filename, content),
        }
    }

    /// `content` rewritten to meet the rule under `policy`.
    pub open spec fn formatted(self, policy: LineEnding, content: Seq<char>) -> Seq<char> {
        match self {
            LintRule::LineEnd(_) => line_end_format(policy, content),
            LintRule::TrailingWhitespace(_) => strip(content),
        }
    }

    /// The rule's name.
    pub fn name(&self) -> (r: &'static str)
        ensures
            r@ == self.spec_name(),
    {
        match self {
            LintRule::LineEnd(rule) => rule.name(),
            LintRule::TrailingWhitespace(rule) => rule.name(),
        }
    }

    /// Checks `content` against the rule.
    pub fn check(&self, config: &Config, filename: &str, content: &str) -> (issues: Vec<Issue>)
        ensures
            issue_views(issues@) == self.issues(config.line_ending, filename@, content@),
    {
        match self {
            LintRule::LineEnd(rule) => rule.check(config, filename, content),
            LintRule::TrailingWhitespace(rule) => rule.check(config, filename, content),
        }
    }

    /// Rewrites `content` to meet the rule.
    pub fn format(&self, config: &Config, content: &str) -> (r: String)
        ensures
            r@ == self.formatted(config.line_ending, content@),
    {
        match self {
            LintRule::LineEnd(rule) => rule.format(config, content),
            LintRule::TrailingWhitespace(rule) => rule.format(config, content),
        }
    }
}

} // verus!

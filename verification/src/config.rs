use vstd::prelude::*;
use crate::line::LineEnding;
use crate::rule::LintRule;

verus! {

/// The line-ending policy of a run and the rules that it applies, in the
/// order in which they were added.
pub struct Config {
    pub line_ending: LineEnding,
    pub rules: Vec<LintRule>,
}

impl Config {
    /// A configuration with the given policy and no rule.
    pub fn new(line_ending: LineEnding) -> (r: Config)
        ensures
            r.line_ending == line_ending,
            r.rules@ == Seq::<LintRule>::empty(),
    {
        Config { line_ending, rules: Vec::new() }
    }

    /// Adds `rule` behind the rules that are there.
    pub fn add_rule(&mut self, rule: LintRule)
        ensures
            final(self).line_ending == old(self).line_ending,
            final(self).rules@ == old(self).rules@.push(rule),
    {
        self.rules.push(rule);
    }
}

} // verus!

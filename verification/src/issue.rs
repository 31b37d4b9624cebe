use vstd::prelude::*;
use vstd::string::StringExecFns;

verus! {

/// One violation of a rule, found in a file at a line.
#[derive(Debug, Clone)]
pub struct Issue {
    pub rule: String,
    pub filename: String,
    pub description: String,
    pub line_number: usize,
}

/// What an [`Issue`] says, as plain text and a number.
pub struct IssueView {
    pub rule: Seq<char>,
    pub filename: Seq<char>,
    pub description: Seq<char>,
    pub line_number: nat,
}

impl View for Issue {
    type V = IssueView;

    open spec fn view(&self) -> IssueView {
        IssueView {
            rule: self.rule@,
            filename: self.filename@,
            description: self.description@,
            line_number: self.line_number as nat,
        }
    }
}

/// The views of a sequence of issues, in order.
pub open spec fn issue_views(v: Seq<Issue>) -> Seq<IssueView> {
    Seq::new(v.len(), |i: int| v[i]@)
}

impl Issue {
    /// An issue of the rule named `rule`, in the file `filename`, at the
    /// 1-based line `line_number`.
    pub fn new(rule: &str, filename: &str, description: &str, line_number: usize) -> (r: Issue)
        ensures
            r@ == (IssueView {
                rule: rule@,
                filename: filename@,
                description: description@,
                line_number: line_number as nat,
            }),
    {
        Issue {
            rule: String::from_str(rule),
            filename: String::from_str(filename),
            description: String::from_str(description),
            line_number,
        }
    }
}

} // verus!

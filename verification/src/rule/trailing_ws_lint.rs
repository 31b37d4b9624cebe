use vstd::prelude::*;
use crate::config::Config;
use crate::issue::{Issue, IssueView};
use crate::issue::issue_views;
use crate::line::crlf_at;
use crate::rule::TRAILING_WS_RULE_NAME;
use crate::text::{from_chars, lemma_line_breaks_push, line_breaks, line_count, to_chars};

verus! {

/// The rule that no line ends in spaces or tabs.
#[derive(Clone, Copy, Debug)]
pub struct TrailingWhitespaceLint {}

/// What an issue of this rule says.
pub const TRAILING_WS_DESCRIPTION: &'static str = "Trailing whitespace found";

/// A space or a tab.
pub open spec fn is_blank(c: char) -> bool {
    c == ' ' || c == '\t'
}

/// Whether `s` is empty or begins with a line break.
pub open spec fn starts_break(s: Seq<char>) -> bool {
    s.len() == 0 || s[0] == '\n' || crlf_at(s, 0)
}

/// Whether a blank stands at `i`, directly before a line break or the end.
pub open spec fn blank_before_break(s: Seq<char>, i: int) -> bool {
    0 <= i < s.len() && is_blank(s[i]) && starts_break(s.subrange(i + 1, s.len() as int))
}

/// Whether nothing but blanks stands between the start of `s` and a line
/// break or the end.
pub open spec fn at_break(s: Seq<char>) -> bool
    decreases s.len(),
{
    starts_break(s) || (is_blank(s[0]) && at_break(s.drop_first()))
}

/// `s` without its trailing blanks: a blank goes exactly if nothing but
/// blanks stands between it and a line break of `s` or the end of `s`.
/// Every other character stays.
pub open spec fn strip(s: Seq<char>) -> Seq<char>
    decreases s.len(),
{
    if s.len() == 0 {
        s
    } else if is_blank(s[0]) && at_break(s.drop_first()) {
        strip(s.drop_first())
    } else {
        seq![s[0]] + strip(s.drop_first())
    }
}

/// The 1-based numbers of the lines among the first `n` characters of `s`
/// that end in a blank, in rising order.
pub open spec fn offending_lines(s: Seq<char>, n: int) -> Seq<nat>
    decreases n,
{
    if n <= 0 {
        Seq::empty()
    } else {
        let before = offending_lines(s, n - 1);
        if blank_before_break(s, n - 1) {
            before.push(line_breaks(s.take(n - 1)) + 1)
        } else {
            before
        }
    }
}

/// One issue for each line of `content` that ends in a blank.
pub open spec fn trailing_ws_issues(filename: Seq<char>, content: Seq<char>) -> Seq<IssueView> {
    offending_lines(content, content.len() as int).map_values(
        |line: nat|
            IssueView {
                rule: TRAILING_WS_RULE_NAME@,
                filename: filename,
                description: TRAILING_WS_DESCRIPTION@,
                line_number: line,
            },
    )
}

/// Whether `strip` drops the character at `k`.
pub open spec fn dropped(s: Seq<char>, k: int) -> bool {
    is_blank(s[k]) && at_break(s.subrange(k + 1, s.len() as int))
}

/// Removes the trailing blanks of every line.
pub fn strip_chars(v: &Vec<char>) -> (out: Vec<char>)
    ensures
        out@ == strip(v@),
{
    let n: usize = v.len();
    let mut keep: Vec<bool> = Vec::new();
    while keep.len() < n
        invariant
            keep.len() <= n,
        decreases n - keep.len(),
    {
        keep.push(true);
    }
    let mut blanks_to_break: bool = true;
    let mut i: usize = n;
    assert(v@.subrange(n as int, n as int) =~= Seq::<char>::empty());
    while i > 0
        invariant
            i <= n,
            n == v.len(),
            keep.len() == n,
            blanks_to_break == at_break(v@.subrange(i as int, n as int)),
            forall|k: int| i <= k < n ==> keep@[k] == !dropped(v@, k),
        decreases i,
    {
        i -= 1;
        let c: char = v[i];
        let blank: bool = c == ' ' || c == '\t';
        assert(v@.subrange(i as int, n as int).drop_first() =~= v@.subrange(i + 1, n as int));
        keep.set(i, !(blank && blanks_to_break));
        blanks_to_break = c == '\n' || (c == '\r' && i + 1 < n && v[i + 1] == '\n') || (blank
            && blanks_to_break);
    }
    let mut out: Vec<char> = Vec::new();
    let mut j: usize = 0;
    assert(v@.subrange(0, n as int) =~= v@);
    while j < n
        invariant
            j <= n,
            n == v.len(),
            keep.len() == n,
            forall|k: int| 0 <= k < n ==> keep@[k] == !dropped(v@, k),
            out@ + strip(v@.subrange(j as int, n as int)) == strip(v@),
        decreases n - j,
    {
        assert(v@.subrange(j as int, n as int).drop_first() =~= v@.subrange(j + 1, n as int));
        let ghost before = out@;
        if keep[j] {
            out.push(v[j]);
            assert(out@ + strip(v@.subrange(j + 1, n as int)) =~= before + strip(
                v@.subrange(j as int, n as int),
            ));
        }
        j += 1;
    }
    assert(out@ + Seq::<char>::empty() =~= out@);
    out
}

impl TrailingWhitespaceLint {
    /// The rule's name.
    pub fn name(&self) -> (r: &'static str)
        ensures
            r@ == TRAILING_WS_RULE_NAME@,
    {
        TRAILING_WS_RULE_NAME
    }

    /// Reports each line that ends in a space or a tab.
    pub fn check(&self, config: &Config, filename: &str, content: &str) -> (issues: Vec<Issue>)
        ensures
            issue_views(issues@) == trailing_ws_issues(filename@, content@),
    {
        let v = to_chars(content);
        let n: usize = v.len();
        let mut issues: Vec<Issue> = Vec::new();
        let mut breaks: usize = 0;
        let mut i: usize = 0;
        assert(v@.take(0) =~= Seq::<char>::empty());
        while i < n
            invariant
                i <= n,
                n == v.len(),
                v@ == content@,
                breaks == line_breaks(v@.take(i as int)),
                breaks <= i,
                issues@.len() == offending_lines(v@, i as int).len(),
                forall|k: int|
                    0 <= k < issues@.len() ==> issues@[k]@ == (IssueView {
                        rule: TRAILING_WS_RULE_NAME@,
                        filename: filename@,
                        description: TRAILING_WS_DESCRIPTION@,
                        line_number: offending_lines(v@, i as int)[k],
                    }),
            decreases n - i,
        {
            let c: char = v[i];
            let before_break: bool = i + 1 == n || v[i + 1] == '\n' || (v[i + 1] == '\r' && i + 2
                < n && v[i + 2] == '\n');
            proof {
                lemma_line_breaks_push(v@.take(i as int), v@[i as int]);
                assert(v@.take(i + 1) =~= v@.take(i as int).push(v@[i as int]));
                let tail = v@.subrange(i + 1, n as int);
                assert(before_break == starts_break(tail));
            }
            if (c == ' ' || c == '\t') && before_break {
                issues.push(
                    Issue::new(TRAILING_WS_RULE_NAME, filename, TRAILING_WS_DESCRIPTION, breaks + 1),
                );
            }
            if c == '\n' {
                breaks += 1;
            }
            i += 1;
        }
        assert(issue_views(issues@) =~= trailing_ws_issues(filename@, content@));
        issues
    }

    /// Removes the spaces and tabs in which lines end.
    pub fn format(&self, config: &Config, content: &str) -> (r: String)
        ensures
            r@ == strip(content@),
    {
        let v = to_chars(content);
        let out = strip_chars(&v);
        from_chars(&out)
    }
}

/// The characters of `s` that are no blanks, in order.
pub open spec fn without_blanks(s: Seq<char>) -> Seq<char>
    decreases s.len(),
{
    if s.len() == 0 {
        s
    } else if is_blank(s[0]) {
        without_blanks(s.drop_first())
    } else {
        seq![s[0]] + without_blanks(s.drop_first())
    }
}

/// Rewriting removes blanks and nothing else: every other character stays,
/// in its place among the others.
pub proof fn lemma_strip_removes_only_blanks(s: Seq<char>)
    ensures
        without_blanks(strip(s)) == without_blanks(s),
        strip(s).len() <= s.len(),
    decreases s.len(),
{
    if s.len() > 0 {
        let rest = strip(s.drop_first());
        lemma_strip_removes_only_blanks(s.drop_first());
        assert((seq![s[0]] + rest).drop_first() =~= rest);
    }
}

/// Whether no blank of `s` stands directly before a line break or the end.
pub open spec fn clean(s: Seq<char>) -> bool {
    forall|i: int| 0 <= i < s.len() ==> !blank_before_break(s, i)
}

/// Whether `s` begins with blanks, or with none, and then a line feed.
pub open spec fn blanks_then_lf(s: Seq<char>) -> bool
    decreases s.len(),
{
    s.len() > 0 && (s[0] == '\n' || (is_blank(s[0]) && blanks_then_lf(s.drop_first())))
}

/// Whether `s` begins with a carriage return that one or more blanks, and
/// nothing else, part from a line feed.
pub open spec fn parted_break(s: Seq<char>) -> bool {
    s.len() > 1 && s[0] == '\r' && is_blank(s[1]) && blanks_then_lf(s.drop_first())
}

/// Whether `s` begins with blanks, or with none, and then a parted break.
pub open spec fn blanks_then_parted_break(s: Seq<char>) -> bool
    decreases s.len(),
{
    s.len() > 0 && (parted_break(s) || (is_blank(s[0]) && blanks_then_parted_break(
        s.drop_first(),
    )))
}

/// Whether `s` holds a blank directly before a carriage return that one or
/// more blanks, and nothing else, part from a line feed. The blanks in the
/// break go and the one before it stays: it then stands before a line break.
pub open spec fn blank_before_parted_break(s: Seq<char>) -> bool
    decreases s.len(),
{
    s.len() > 0 && ((is_blank(s[0]) && blanks_then_parted_break(s.drop_first()))
        || blank_before_parted_break(s.drop_first()))
}

/// Whether `s` ends in a line that has blanks and nothing else.
pub open spec fn ends_in_blank_line(s: Seq<char>) -> bool
    decreases s.len(),
{
    s.len() > 0 && is_blank(s.last()) && (s.len() == 1 || s[s.len() - 2] == '\n'
        || ends_in_blank_line(s.drop_last()))
}

/// No line among the first `n` characters is reported exactly if none of
/// these characters is a blank before a line break or the end.
pub proof fn lemma_offending_none(s: Seq<char>, n: int)
    requires
        0 <= n <= s.len(),
    ensures
        offending_lines(s, n).len() == 0 <==> (forall|i: int|
            0 <= i < n ==> !blank_before_break(s, i)),
    decreases n,
{
    if n > 0 {
        lemma_offending_none(s, n - 1);
    }
}

/// A blank before a line break of `rest` is one of the text that has one
/// character more in front.
proof fn lemma_blank_before_break_shift(s: Seq<char>, i: int)
    requires
        s.len() > 0,
        0 <= i < s.len() - 1,
    ensures
        blank_before_break(s.drop_first(), i) == blank_before_break(s, i + 1),
{
    let rest = s.drop_first();
    assert(rest.subrange(i + 1, rest.len() as int) =~= s.subrange(i + 2, s.len() as int));
}

/// Where nothing but blanks stands between a blank and a line break or the
/// end, one of these blanks stands directly before it.
proof fn lemma_dropped_is_reported(s: Seq<char>)
    requires
        s.len() > 0,
        is_blank(s[0]),
        at_break(s.drop_first()),
    ensures
        !clean(s),
    decreases s.len(),
{
    let rest = s.drop_first();
    assert(s.subrange(1, s.len() as int) =~= rest);
    if starts_break(rest) {
        assert(blank_before_break(s, 0));
    } else {
        lemma_dropped_is_reported(rest);
        let j = choose|j: int| 0 <= j < rest.len() && blank_before_break(rest, j);
        lemma_blank_before_break_shift(s, j);
        assert(blank_before_break(s, j + 1));
    }
}

/// Text with no blank before a line break or the end is left as it is.
pub proof fn lemma_clean_fixed(s: Seq<char>)
    requires
        clean(s),
    ensures
        strip(s) == s,
    decreases s.len(),
{
    if s.len() > 0 {
        let rest = s.drop_first();
        assert forall|i: int| 0 <= i < rest.len() implies !blank_before_break(rest, i) by {
            lemma_blank_before_break_shift(s, i);
        }
        lemma_clean_fixed(rest);
        if is_blank(s[0]) && at_break(rest) {
            lemma_dropped_is_reported(s);
        }
        assert(seq![s[0]] + rest =~= s);
    }
}

/// Text that is left as it is holds no blank before a line break or the end.
pub proof fn lemma_fixed_clean(s: Seq<char>)
    requires
        strip(s) == s,
    ensures
        clean(s),
    decreases s.len(),
{
    if s.len() > 0 {
        let rest = s.drop_first();
        lemma_strip_removes_only_blanks(rest);
        assert((seq![s[0]] + strip(rest)).drop_first() =~= strip(rest));
        lemma_fixed_clean(rest);
        assert(s.subrange(1, s.len() as int) =~= rest);
        assert forall|i: int| 0 <= i < s.len() implies !blank_before_break(s, i) by {
            if i > 0 {
                lemma_blank_before_break_shift(s, i - 1);
            }
        }
    }
}

/// The rule reports nothing exactly where it would change nothing. In what
/// it has rewritten it reports nothing either, unless a blank stood before
/// a parted break.
pub proof fn lemma_trailing_ws_check_format_consistent(filename: Seq<char>, content: Seq<char>)
    ensures
        trailing_ws_issues(filename, content).len() == 0 <==> strip(content) == content,
        !blank_before_parted_break(content) ==> trailing_ws_issues(
            filename,
            strip(content),
        ).len() == 0,
{
    lemma_offending_none(content, content.len() as int);
    lemma_offending_none(strip(content), strip(content).len() as int);
    if clean(content) {
        lemma_clean_fixed(content);
    }
    if strip(content) == content {
        lemma_fixed_clean(content);
    }
    if !blank_before_parted_break(content) {
        lemma_strip_clean(content);
    }
}

/// What is left of text begins with a line feed only if the text began
/// with blanks, or with none, and then a line feed.
proof fn lemma_strip_starts_with_lf(s: Seq<char>)
    requires
        strip(s).len() > 0,
        strip(s)[0] == '\n',
    ensures
        blanks_then_lf(s),
    decreases s.len(),
{
    if s.len() > 0 && is_blank(s[0]) && at_break(s.drop_first()) {
        lemma_strip_starts_with_lf(s.drop_first());
    }
}

/// Where only blanks stand between the start of what is left of text and a
/// line break or the end, this was so in the text, or the text began with
/// blanks, or with none, and then a parted break.
proof fn lemma_strip_at_break(s: Seq<char>)
    requires
        at_break(strip(s)),
    ensures
        at_break(s) || blanks_then_parted_break(s),
    decreases s.len(),
{
    if s.len() > 0 {
        let rest = s.drop_first();
        let r = strip(rest);
        if is_blank(s[0]) {
            if !at_break(rest) {
                assert((seq![s[0]] + r).drop_first() =~= r);
                lemma_strip_at_break(rest);
            }
        } else if s[0] == '\r' {
            assert((seq![s[0]] + r).drop_first() =~= r);
            assert(crlf_at(strip(s), 0));
            assert(r.len() > 0 && r[0] == '\n');
            lemma_strip_starts_with_lf(rest);
        }
    }
}

/// What the rule has rewritten holds no blank before a line break or the
/// end, unless a blank stood before a parted break.
pub proof fn lemma_strip_clean(s: Seq<char>)
    requires
        !blank_before_parted_break(s),
    ensures
        clean(strip(s)),
    decreases s.len(),
{
    if s.len() > 0 {
        let rest = s.drop_first();
        let r = strip(rest);
        lemma_strip_clean(rest);
        if !(is_blank(s[0]) && at_break(rest)) {
            let t = seq![s[0]] + r;
            assert(t.drop_first() =~= r);
            assert(t.subrange(1, t.len() as int) =~= r);
            assert forall|i: int| 0 <= i < t.len() implies !blank_before_break(t, i) by {
                if i > 0 {
                    lemma_blank_before_break_shift(t, i - 1);
                } else if is_blank(s[0]) && starts_break(r) {
                    lemma_strip_at_break(rest);
                }
            }
        }
    }
}

/// Rewriting twice gives what rewriting once gives, unless a blank stood
/// before a parted break: on `"a \r \n"` the first pass gives `"a \r\n"`
/// and the second `"a\r\n"`.
pub proof fn lemma_strip_idempotent(s: Seq<char>)
    requires
        !blank_before_parted_break(s),
    ensures
        strip(strip(s)) == strip(s),
{
    lemma_strip_clean(s);
    lemma_clean_fixed(strip(s));
}

/// Rewriting neither adds nor removes a line feed.
pub proof fn lemma_strip_keeps_line_breaks(s: Seq<char>)
    ensures
        line_breaks(strip(s)) == line_breaks(s),
    decreases s.len(),
{
    if s.len() > 0 {
        let rest = strip(s.drop_first());
        lemma_strip_keeps_line_breaks(s.drop_first());
        assert((seq![s[0]] + rest).drop_first() =~= rest);
    }
}

/// A last character that is no blank stays the last.
pub proof fn lemma_strip_keeps_last(s: Seq<char>)
    requires
        s.len() > 0,
        !is_blank(s.last()),
    ensures
        strip(s).len() > 0,
        strip(s).last() == s.last(),
    decreases s.len(),
{
    if s.len() > 1 {
        lemma_strip_keeps_last(s.drop_first());
    } else {
        assert(strip(s.drop_first()) =~= Seq::<char>::empty());
    }
}

/// A blank more at the end does not change whether only blanks stand
/// between the start and a line break or the end.
proof fn lemma_at_break_push_blank(s: Seq<char>, c: char)
    requires
        is_blank(c),
    ensures
        at_break(s.push(c)) == at_break(s),
    decreases s.len(),
{
    let t = s.push(c);
    if s.len() == 0 {
        assert(t.drop_first() =~= Seq::<char>::empty());
        assert(at_break(t.drop_first()));
        assert(at_break(t));
    } else {
        assert(t.drop_first() =~= s.drop_first().push(c));
        lemma_at_break_push_blank(s.drop_first(), c);
        assert(t[0] == s[0]);
        if s.len() > 1 {
            assert(t[1] == s[1]);
        } else {
            assert(t[1] == c);
        }
        assert(starts_break(t) == starts_break(s));
    }
}

/// A blank at the very end goes, and nothing else changes for it.
pub proof fn lemma_strip_drops_last_blank(s: Seq<char>, c: char)
    requires
        is_blank(c),
    ensures
        strip(s.push(c)) == strip(s),
    decreases s.len(),
{
    if s.len() == 0 {
        assert(s.push(c).drop_first() =~= Seq::<char>::empty());
        assert(strip(s.push(c).drop_first()) =~= Seq::<char>::empty());
    } else {
        assert(s.push(c).drop_first() =~= s.drop_first().push(c));
        lemma_at_break_push_blank(s.drop_first(), c);
        lemma_strip_drops_last_blank(s.drop_first(), c);
    }
}

/// Rewriting keeps the number of lines, unless the text ends in a line of
/// blanks alone, which is emptied and then no longer counts as a line.
pub proof fn lemma_strip_keeps_line_count(s: Seq<char>)
    requires
        !ends_in_blank_line(s),
    ensures
        line_count(strip(s)) == line_count(s),
    decreases s.len(),
{
    lemma_strip_keeps_line_breaks(s);
    if s.len() > 0 {
        if is_blank(s.last()) {
            let front = s.drop_last();
            assert(front.push(s.last()) =~= s);
            lemma_strip_drops_last_blank(front, s.last());
            lemma_line_breaks_push(front, s.last());
            lemma_strip_keeps_line_count(front);
        } else {
            lemma_strip_keeps_last(s);
        }
    }
}

} // verus!

use vstd::prelude::*;
use vstd::std_specs::iter::IteratorSpec;

verus! {

/// `String::push` of the standard library: the character is appended and
/// everything that was in the string before stays in front of it.
pub assume_specification[ String::push ](s: &mut String, c: char)
    ensures
        final(s)@ == old(s)@.push(c),
;

/// Whether `e` is the tail of `s`.
pub open spec fn ends_with(s: Seq<char>, e: Seq<char>) -> bool {
    e.len() <= s.len() && s.subrange(s.len() - e.len(), s.len() as int) == e
}

/// The characters of `s`, in order.
pub fn to_chars(s: &str) -> (v: Vec<char>)
    ensures
        v@ == s@,
{
    let mut v: Vec<char> = Vec::new();
    let chars = s.chars();
    for c in it: chars
        invariant
            v@ == it.seq().take(it.index() as int),
    {
        v.push(c);
    }
    v
}

/// The string made of the characters of `v`, in order.
pub fn from_chars(v: &Vec<char>) -> (s: String)
    ensures
        s@ == v@,
{
    let mut s = String::new();
    let mut i: usize = 0;
    while i < v.len()
        invariant
            i <= v.len(),
            s@ == v@.take(i as int),
        decreases v.len() - i,
    {
        s.push(v[i]);
        i += 1;
        assert(v@.take(i as int) == v@.take(i - 1).push(v@[i - 1]));
    }
    assert(v@.take(v.len() as int) == v@);
    s
}

/// Whether `s` ends with `e`.
pub fn chars_end_with(s: &Vec<char>, e: &Vec<char>) -> (r: bool)
    ensures
        r == ends_with(s@, e@),
{
    if e.len() > s.len() {
        return false;
    }
    let off: usize = s.len() - e.len();
    let mut i: usize = 0;
    while i < e.len()
        invariant
            i <= e.len(),
            off + e.len() == s.len(),
            forall|k: int| 0 <= k < i ==> s@[off + k] == e@[k],
        decreases e.len() - i,
    {
        if s[off + i] != e[i] {
            assert(s@.subrange(s.len() - e.len(), s.len() as int)[i as int] != e@[i as int]);
            return false;
        }
        i += 1;
    }
    assert(s@.subrange(s.len() - e.len(), s.len() as int) =~= e@);
    true
}

/// The number of line feeds in `s`.
pub open spec fn line_breaks(s: Seq<char>) -> nat
    decreases s.len(),
{
    if s.len() == 0 {
        0
    } else {
        line_breaks(s.drop_first()) + if s[0] == '\n' {
            1nat
        } else {
            0nat
        }
    }
}

/// The number of lines of `s`: one for each line feed, and one more for
/// text that follows the last of them.
pub open spec fn line_count(s: Seq<char>) -> nat {
    line_breaks(s) + if s.len() > 0 && s.last() != '\n' {
        1nat
    } else {
        0nat
    }
}

/// A character more at the end adds a line break exactly if it is a line feed.
pub proof fn lemma_line_breaks_push(s: Seq<char>, c: char)
    ensures
        line_breaks(s.push(c)) == line_breaks(s) + if c == '\n' {
            1nat
        } else {
            0nat
        },
    decreases s.len(),
{
    if s.len() == 0 {
        assert(s.push(c).drop_first() =~= s);
        assert(line_breaks(s.push(c).drop_first()) == 0);
    } else {
        assert(s.push(c).drop_first() =~= s.drop_first().push(c));
        lemma_line_breaks_push(s.drop_first(), c);
    }
}

/// There are no more line breaks than characters.
pub proof fn lemma_line_breaks_bound(s: Seq<char>)
    ensures
        line_breaks(s) <= s.len(),
    decreases s.len(),
{
    if s.len() > 0 {
        lemma_line_breaks_bound(s.drop_first());
    }
}

/// Counts the line feeds among the first `n` characters of `s`.
pub fn count_line_breaks(s: &Vec<char>, n: usize) -> (r: usize)
    requires
        n <= s.len(),
    ensures
        r == line_breaks(s@.take(n as int)),
        r <= n,
{
    let mut r: usize = 0;
    let mut i: usize = 0;
    assert(s@.take(0) =~= Seq::<char>::empty());
    while i < n
        invariant
            i <= n,
            n <= s.len(),
            r <= i,
            r == line_breaks(s@.take(i as int)),
        decreases n - i,
    {
        proof {
            lemma_line_breaks_push(s@.take(i as int), s@[i as int]);
            assert(s@.take(i + 1) =~= s@.take(i as int).push(s@[i as int]));
        }
        if s[i] == '\n' {
            r += 1;
        }
        i += 1;
    }
    r
}

/// Counts the lines of `s`.
pub fn count_lines(s: &Vec<char>) -> (r: usize)
    ensures
        r == line_count(s@),
{
    let n: usize = s.len();
    let breaks: usize = count_line_breaks(s, n);
    assert(s@.take(n as int) =~= s@);
    if n > 0 && s[n - 1] != '\n' {
        assert(s@.take(n - 1).push(s@[n - 1]) =~= s@);
        proof {
            lemma_line_breaks_push(s@.take(n - 1), s@[n - 1]);
            lemma_line_breaks_bound(s@.take(n - 1));
        }
        breaks + 1
    } else {
        breaks
    }
}

} // verus!

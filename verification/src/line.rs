use vstd::prelude::*;
use vstd::std_specs::iter::IteratorSpec;

verus! {

/// The end-of-line convention that a file is held to.
#[derive(Clone, Copy, Debug, PartialEq, Eq)]
pub enum LineEnding {
    Unix,
    Windows,
    Auto,
}

/// A line feed.
pub open spec fn lf() -> Seq<char> {
    seq!['\n']
}

/// A carriage return followed by a line feed.
pub open spec fn crlf() -> Seq<char> {
    seq!['\r', '\n']
}

/// Whether a carriage return stands at `i` with a line feed right behind it.
pub open spec fn crlf_at(s: Seq<char>, i: int) -> bool {
    0 <= i && i + 1 < s.len() && s[i] == '\r' && s[i + 1] == '\n'
}

/// Whether `s` holds a carriage return directly followed by a line feed.
pub open spec fn has_crlf(s: Seq<char>) -> bool {
    exists|i: int| crlf_at(s, i)
}

impl LineEnding {
    /// The ending that this policy asks of a file with the given content.
    pub open spec fn ending(self, content: Seq<char>) -> Seq<char> {
        match self {
            LineEnding::Unix => lf(),
            LineEnding::Windows => crlf(),
            LineEnding::Auto => if has_crlf(content) {
                crlf()
            } else {
                lf()
            },
        }
    }

    /// The canonical line ending for `content`: fixed for `Unix` and
    /// `Windows`, read off the content for `Auto`.
    pub fn get_ending(&self, content: &str) -> (r: &'static str)
        ensures
            r@ == self.ending(content@),
            self is Unix ==> r@ == lf(),
            self is Windows ==> r@ == crlf(),
            self is Auto ==> (r@ == crlf() <==> has_crlf(content@)),
            self is Auto ==> (r@ == lf() <==> !has_crlf(content@)),
    {
        proof {
            assert(lf() != crlf()) by {
                assert(lf().len() == 1 && crlf().len() == 2);
            }
            reveal_strlit("\n");
            reveal_strlit("\r\n");
            assert("\n"@ =~= lf());
            assert("\r\n"@ =~= crlf());
        }
        match self {
            LineEnding::Unix => "\n",
            LineEnding::Windows => "\r\n",
            LineEnding::Auto => {
                let mut chars = content.chars();
                let mut after_cr: bool = false;
                let ghost mut seen: int = 0;
                assert(content@.skip(0) =~= content@);
                loop
                    invariant
                        self is Auto,
                        "\n"@ == lf(),
                        "\r\n"@ == crlf(),
                        lf() != crlf(),
                        0 <= seen <= content@.len(),
                        chars.remaining() == content@.skip(seen),
                        after_cr == (seen > 0 && content@[seen - 1] == '\r'),
                        forall|k: int| 0 <= k < seen - 1 ==> !crlf_at(content@, k),
                    decreases content@.len() - seen,
                {
                    match chars.next() {
                        None => {
                            assert(content@.skip(seen).len() == 0);
                            assert(!has_crlf(content@));
                            return "\n";
                        },
                        Some(c) => {
                            assert(c == content@[seen]);
                            if after_cr && c == '\n' {
                                assert(crlf_at(content@, seen - 1));
                                return "\r\n";
                            }
                            after_cr = c == '\r';
                            proof {
                                assert(content@.skip(seen).drop_first() =~= content@.skip(seen + 1));
                                seen = seen + 1;
                            }
                        },
                    }
                }
            },
        }
    }
}

} // verus!

//! Block comments that hold arbitrary text.
use vstd::prelude::*;
use vstd::string::StringExecFns;
use crate::text::{chars_of, push_char};
use crate::Template;

verus! {

/// `s` with each `*/` written as `* /`, scanning from the left.
pub open spec fn escape_comment_end(s: Seq<char>) -> Seq<char>
    decreases s.len(),
{
    if s.len() >= 2 && s[0] == '*' && s[1] == '/' {
        seq!['*', ' ', '/'] + escape_comment_end(s.skip(2))
    } else if s.len() > 0 {
        seq![s[0]] + escape_comment_end(s.drop_first())
    } else {
        Seq::empty()
    }
}

/// Empty text gives nothing; other text is wrapped as `open` + escaped text + ` */`.
pub open spec fn comment_of(s: Seq<char>, open: Seq<char>) -> Seq<char> {
    if s.len() == 0 {
        Seq::empty()
    } else {
        open + escape_comment_end(s) + seq![' ', '*', '/']
    }
}

/// `*/` occurs in `s` at index `i`.
pub open spec fn ends_comment_at(s: Seq<char>, i: int) -> bool {
    0 <= i && i + 1 < s.len() && s[i] == '*' && s[i + 1] == '/'
}

/// A well-formed block comment: `open` at the start, and no `*/` before the
/// closing one at the very end.
pub open spec fn is_block_comment(s: Seq<char>, open: Seq<char>) -> bool {
    &&& s.len() >= open.len() + 3
    &&& s.take(open.len() as int) == open
    &&& s.skip(s.len() - 3) == seq![' ', '*', '/']
    &&& forall|i: int| 0 <= i < s.len() - 2 ==> !#[trigger] ends_comment_at(s, i)
}

proof fn lemma_escape_has_no_end(s: Seq<char>)
    ensures
        forall|i: int| !#[trigger] ends_comment_at(escape_comment_end(s), i),
        s.len() > 0 ==> escape_comment_end(s).len() > 0 && escape_comment_end(s)[0] == s[0],
        s.len() == 0 ==> escape_comment_end(s).len() == 0,
    decreases s.len(),
{
    let e = escape_comment_end(s);
    if s.len() >= 2 && s[0] == '*' && s[1] == '/' {
        lemma_escape_has_no_end(s.skip(2));
        let rest = escape_comment_end(s.skip(2));
        assert forall|i: int| !#[trigger] ends_comment_at(e, i) by {
            if i >= 3 {
                assert(ends_comment_at(rest, i - 3) == ends_comment_at(e, i));
            }
        }
    } else if s.len() > 0 {
        lemma_escape_has_no_end(s.drop_first());
        let rest = escape_comment_end(s.drop_first());
        assert forall|i: int| !#[trigger] ends_comment_at(e, i) by {
            if i >= 1 {
                assert(ends_comment_at(rest, i - 1) == ends_comment_at(e, i));
            } else if i == 0 && s.len() >= 2 && s[0] == '*' {
                assert(e[1] == rest[0]);
            }
        }
    }
}

/// The comment that wraps non-empty text is well formed, with `/*! ` or `/* `
/// in front.
pub proof fn lemma_comment_of_is_block_comment(s: Seq<char>, open: Seq<char>)
    requires
        s.len() > 0,
        open == seq!['/', '*', '!', ' '] || open == seq!['/', '*', ' '],
    ensures
        is_block_comment(comment_of(s, open), open),
{
    lemma_escape_has_no_end(s);
    let e = escape_comment_end(s);
    let r = comment_of(s, open);
    assert(r.take(open.len() as int) =~= open);
    assert(r.skip(r.len() - 3) =~= seq![' ', '*', '/']);
    assert forall|i: int| 0 <= i < r.len() - 2 implies !#[trigger] ends_comment_at(r, i) by {
        if open.len() <= i && i + 1 < open.len() + e.len() {
            assert(ends_comment_at(e, i - open.len()) == ends_comment_at(r, i));
        }
    }
}

/// Appends `open`, the escaped text and ` */` to an empty string.
fn wrap_comment(s: &str, open: &str) -> (r: String)
    requires
        s@.len() > 0,
    ensures
        r@ == comment_of(s@, open@),
{
    let cs = chars_of(s);
    let mut out = String::from_str(open);
    let n = cs.len();
    let mut i: usize = 0;
    proof {
        assert(cs@.skip(0) =~= cs@);
    }
    while i < n
        invariant
            n == cs@.len(),
            cs@ == s@,
            i <= n,
            open@ + escape_comment_end(s@) == out@ + escape_comment_end(cs@.skip(i as int)),
        decreases n - i,
    {
        let ghost t = cs@.skip(i as int);
        let ghost before = out@;
        if i + 1 < n && cs[i] == '*' && cs[i + 1] == '/' {
            push_char(&mut out, '*');
            push_char(&mut out, ' ');
            push_char(&mut out, '/');
            proof {
                assert(t.skip(2) =~= cs@.skip(i + 2));
                assert(before + (seq!['*', ' ', '/'] + escape_comment_end(t.skip(2))) =~= out@
                    + escape_comment_end(cs@.skip(i + 2)));
            }
            i = i + 2;
        } else {
            push_char(&mut out, cs[i]);
            proof {
                assert(t.drop_first() =~= cs@.skip(i + 1));
                assert(before + (seq![t[0]] + escape_comment_end(t.drop_first())) =~= out@
                    + escape_comment_end(cs@.skip(i + 1)));
            }
            i = i + 1;
        }
    }
    proof {
        assert(cs@.skip(n as int) =~= Seq::<char>::empty());
        assert(out@ + Seq::<char>::empty() =~= out@);
    }
    out.append(" */");
    proof {
        reveal_strlit(" */");
        assert(out@ =~= comment_of(s@, open@));
    }
    out
}

impl Template {
    /// Wraps `s` in a preserved comment `/*! ... */`; see `comment_of`.
    pub fn to_commemnt(s: &str) -> (r: String)
        ensures
            r@ == comment_of(s@, seq!['/', '*', '!', ' ']),
            s@.len() > 0 ==> is_block_comment(r@, seq!['/', '*', '!', ' ']),
    {
        if s.is_empty() {
            return String::new();
        }
        proof {
            reveal_strlit("/*! ");
            lemma_comment_of_is_block_comment(s@, seq!['/', '*', '!', ' ']);
        }
        let r = wrap_comment(s, "/*! ");
        proof {
            assert("/*! "@ =~= seq!['/', '*', '!', ' ']);
        }
        r
    }

    /// Wraps `s` in a plain comment `/* ... */`; see `comment_of`.
    pub fn to_normal_commemnt(s: &str) -> (r: String)
        ensures
            r@ == comment_of(s@, seq!['/', '*', ' ']),
            s@.len() > 0 ==> is_block_comment(r@, seq!['/', '*', ' ']),
    {
        if s.is_empty() {
            return String::new();
        }
        proof {
            reveal_strlit("/* ");
            lemma_comment_of_is_block_comment(s@, seq!['/', '*', ' ']);
        }
        let r = wrap_comment(s, "/* ");
        proof {
            assert("/* "@ =~= seq!['/', '*', ' ']);
        }
        r
    }
}

} // verus!

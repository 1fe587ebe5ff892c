//! Block layout: indenting a block of lines and prefixing every line.
use vstd::prelude::*;
use vstd::string::StringExecFns;
use crate::lines::{lines, line_bounds};
use crate::text::{chars_of, push_char, push_range, trim, trim_bounds};
use crate::Template;

verus! {

/// Each line with a tab before it and a newline after it.
pub open spec fn indented_lines(ls: Seq<Seq<char>>) -> Seq<char>
    decreases ls.len(),
{
    if ls.len() == 0 {
        Seq::empty()
    } else {
        indented_lines(ls.drop_last()) + seq!['\t'] + ls.last() + seq!['\n']
    }
}

/// All lines of `s` but the last, indented by one tab; then, where there were
/// such lines, a blank line; then the last line, trimmed and not indented.
pub open spec fn indented(s: Seq<char>) -> Seq<char> {
    let ls = lines(s);
    if ls.len() == 0 {
        Seq::empty()
    } else {
        let rest = ls.drop_last();
        indented_lines(rest) + (if rest.len() > 0 { seq!['\n'] } else { Seq::empty() }) + trim(
            ls.last(),
        )
    }
}

/// `t` with `p` inserted after each newline that starts a non-empty line.
pub open spec fn with_line_prefixes(t: Seq<char>, p: Seq<char>) -> Seq<char>
    decreases t.len(),
{
    if t.len() == 0 {
        Seq::empty()
    } else if t[0] == '\n' && t.len() > 1 && t[1] != '\n' {
        seq!['\n'] + p + with_line_prefixes(t.drop_first(), p)
    } else {
        seq![t[0]] + with_line_prefixes(t.drop_first(), p)
    }
}

/// `s`, trimmed, with `p` before each of its non-empty lines; empty lines
/// stay empty, and text that is all white space gives nothing.
pub open spec fn prefixed(s: Seq<char>, p: Seq<char>) -> Seq<char> {
    let t = trim(s);
    if t.len() == 0 {
        Seq::empty()
    } else {
        p + with_line_prefixes(t, p)
    }
}

impl Template {
    /// Indents a block for a brace-delimited body; see `indented`.
    pub fn indent(s: &str) -> (r: String)
        ensures
            r@ == indented(s@),
    {
        let cs = chars_of(s);
        let b = line_bounds(&cs);
        let ghost ls = lines(s@);
        let mut out = String::new();
        if b.len() == 0 {
            return out;
        }
        let last = b.len() - 1;
        let mut j: usize = 0;
        while j < last
            invariant
                cs@ == s@,
                ls == lines(s@),
                last + 1 == b@.len() == ls.len(),
                j <= last,
                forall|k: int|
                    0 <= k < b@.len() ==> #[trigger] b@[k].0 <= b@[k].1 <= cs@.len()
                        && cs@.subrange(b@[k].0 as int, b@[k].1 as int) == ls[k],
                out@ == indented_lines(ls.take(j as int)),
            decreases last - j,
        {
            push_char(&mut out, '\t');
            push_range(&mut out, &cs, b[j].0, b[j].1);
            push_char(&mut out, '\n');
            proof {
                assert(ls.take(j + 1).drop_last() =~= ls.take(j as int));
            }
            j = j + 1;
        }
        proof {
            assert(ls.take(last as int) =~= ls.drop_last());
        }
        if last > 0 {
            push_char(&mut out, '\n');
        }
        let (lo, hi) = trim_bounds(&cs, b[last].0, b[last].1);
        push_range(&mut out, &cs, lo, hi);
        proof {
            assert(out@ =~= indented(s@));
        }
        out
    }

    /// Trims `s` and puts `prefix` before each of its non-empty lines; see `prefixed`.
    pub fn prefix(s: &str, prefix: &str) -> (r: String)
        ensures
            r@ == prefixed(s@, prefix@),
    {
        let cs = chars_of(s);
        let (lo, hi) = trim_bounds(&cs, 0, cs.len());
        let mut out = String::new();
        proof {
            assert(cs@.subrange(0, cs@.len() as int) =~= s@);
        }
        if lo == hi {
            return out;
        }
        out.append(prefix);
        let ghost p = prefix@;
        let mut i = lo;
        proof {
            assert(out@ =~= p);
        }
        while i < hi
            invariant
                lo <= i <= hi <= cs@.len(),
                p == prefix@,
                p + with_line_prefixes(cs@.subrange(lo as int, hi as int), p) == out@
                    + with_line_prefixes(cs@.subrange(i as int, hi as int), p),
            decreases hi - i,
        {
            let ghost t = cs@.subrange(i as int, hi as int);
            let ghost before = out@;
            assert(t.drop_first() =~= cs@.subrange(i + 1, hi as int));
            let c = cs[i];
            push_char(&mut out, c);
            if c == '\n' && i + 1 < hi && cs[i + 1] != '\n' {
                out.append(prefix);
                assert(before + (seq!['\n'] + p + with_line_prefixes(t.drop_first(), p))
                    =~= out@ + with_line_prefixes(t.drop_first(), p));
            } else {
                assert(before + (seq![c] + with_line_prefixes(t.drop_first(), p))
                    =~= out@ + with_line_prefixes(t.drop_first(), p));
            }
            i = i + 1;
        }
        proof {
            assert(cs@.subrange(hi as int, hi as int) =~= Seq::<char>::empty());
            assert(out@ + Seq::<char>::empty() =~= out@);
        }
        out
    }
}

} // verus!

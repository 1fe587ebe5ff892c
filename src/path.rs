//! Bundle-safe path fragments.
use vstd::prelude::*;
use crate::text::{
    chars_of, collapse_runs, is_path_char, lemma_collapse_runs_chars, push_collapsed, push_range,
    CharSet,
};
use crate::Template;

verus! {

/// `s` without the hyphens at its start.
pub open spec fn trim_start_hyphens(s: Seq<char>) -> Seq<char>
    decreases s.len(),
{
    if s.len() > 0 && s[0] == '-' {
        trim_start_hyphens(s.drop_first())
    } else {
        s
    }
}

/// `s` without the hyphens at its end.
pub open spec fn trim_end_hyphens(s: Seq<char>) -> Seq<char>
    decreases s.len(),
{
    if s.len() > 0 && s.last() == '-' {
        trim_end_hyphens(s.drop_last())
    } else {
        s
    }
}

/// Each run of characters outside the path set becomes one hyphen; then the
/// hyphens at both ends go.
pub open spec fn path_of(s: Seq<char>) -> Seq<char> {
    trim_end_hyphens(trim_start_hyphens(collapse_runs(s, CharSet::Path, '-')))
}

/// Only path characters, and no hyphen at either end.
pub open spec fn is_path_fragment(s: Seq<char>) -> bool {
    &&& forall|i: int| 0 <= i < s.len() ==> is_path_char(#[trigger] s[i])
    &&& s.len() > 0 ==> s[0] != '-' && s.last() != '-'
}

impl Template {
    /// Normalises `str` into a bundle-safe path fragment; see `path_of`.
    pub fn to_path(str: &str) -> (r: String)
        ensures
            r@ == path_of(str@),
            is_path_fragment(r@),
    {
        let cs = chars_of(str);
        let mut collapsed = String::new();
        push_collapsed(&mut collapsed, &cs, &CharSet::Path, '-');
        let t = chars_of(collapsed.as_str());
        let ghost whole = t@;
        proof {
            lemma_collapse_runs_chars(cs@, CharSet::Path, '-');
            assert(t@ == collapse_runs(str@, CharSet::Path, '-'));
        }
        let n = t.len();
        let mut lo: usize = 0;
        proof {
            assert(t@.subrange(0, n as int) =~= whole);
        }
        while lo < n && t[lo] == '-'
            invariant
                lo <= n == t@.len(),
                whole == t@,
                trim_start_hyphens(whole) == trim_start_hyphens(t@.subrange(lo as int, n as int)),
            decreases n - lo,
        {
            assert(t@.subrange(lo + 1, n as int) =~= t@.subrange(lo as int, n as int).drop_first());
            lo = lo + 1;
        }
        let mut hi = n;
        while hi > lo && t[hi - 1] == '-'
            invariant
                lo <= hi <= n == t@.len(),
                lo < n ==> t@[lo as int] != '-',
                trim_end_hyphens(t@.subrange(lo as int, n as int)) == trim_end_hyphens(
                    t@.subrange(lo as int, hi as int),
                ),
            decreases hi,
        {
            assert(t@.subrange(lo as int, hi - 1) =~= t@.subrange(lo as int, hi as int).drop_last());
            hi = hi - 1;
        }
        let mut out = String::new();
        push_range(&mut out, &t, lo, hi);
        proof {
            assert(out@ =~= t@.subrange(lo as int, hi as int));
            assert forall|i: int| 0 <= i < out@.len() implies is_path_char(#[trigger] out@[i]) by {
                assert(out@[i] == t@[lo + i]);
            }
        }
        out
    }
}

} // verus!

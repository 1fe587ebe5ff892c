//! Turning arbitrary text into an identifier.
use vstd::prelude::*;
use crate::numbering::is_identifier;
use crate::text::{
    chars_of, collapse_runs, id_start, is_id_start, lemma_collapse_runs_chars,
    lemma_collapse_runs_keeps, push_char, push_collapsed, CharSet,
};
use crate::Template;

verus! {

/// Empty text stays empty. Otherwise an underscore goes in front when the
/// first character cannot begin an identifier, and each run of characters
/// outside `[a-zA-Z0-9_$]` becomes one underscore.
pub open spec fn identifier_of(s: Seq<char>) -> Seq<char> {
    if s.len() == 0 {
        Seq::empty()
    } else if is_id_start(s[0]) {
        collapse_runs(s, CharSet::Identifier, '_')
    } else {
        seq!['_'] + collapse_runs(s, CharSet::Identifier, '_')
    }
}

/// What comes out for non-empty text is a valid identifier.
pub proof fn lemma_identifier_of_is_identifier(s: Seq<char>)
    requires
        s.len() > 0,
    ensures
        is_identifier(identifier_of(s)),
{
    let c = collapse_runs(s, CharSet::Identifier, '_');
    lemma_collapse_runs_chars(s, CharSet::Identifier, '_');
    if !is_id_start(s[0]) {
        let r = seq!['_'] + c;
        assert forall|i: int| 0 <= i < r.len() implies crate::text::is_id_char(#[trigger] r[i]) by {
            if i > 0 {
                assert(r[i] == c[i - 1]);
            }
        }
    }
}

/// Normalising an identifier a second time changes nothing.
pub proof fn lemma_identifier_of_idempotent(s: Seq<char>)
    ensures
        identifier_of(identifier_of(s)) == identifier_of(s),
{
    let r = identifier_of(s);
    if s.len() > 0 {
        lemma_identifier_of_is_identifier(s);
        lemma_collapse_runs_keeps(r, CharSet::Identifier, '_');
    }
}

impl Template {
    /// Turns `s` into an identifier; see `identifier_of`.
    pub fn to_identifier(s: &str) -> (r: String)
        ensures
            r@ == identifier_of(s@),
            s@.len() > 0 ==> is_identifier(r@),
    {
        let cs = chars_of(s);
        let mut out = String::new();
        if cs.len() == 0 {
            return out;
        }
        if !id_start(cs[0]) {
            push_char(&mut out, '_');
        }
        push_collapsed(&mut out, &cs, &CharSet::Identifier, '_');
        proof {
            assert(out@ =~= identifier_of(s@));
            lemma_identifier_of_is_identifier(s@);
        }
        out
    }
}

} // verus!

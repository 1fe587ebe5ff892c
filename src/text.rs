//! Character classes and small string helpers shared by the transformations.
use vstd::prelude::*;
use vstd::std_specs::iter::IteratorSpec;

verus! {

/// ASCII letter.
pub open spec fn is_ascii_letter(c: char) -> bool {
    ('a' <= c && c <= 'z') || ('A' <= c && c <= 'Z')
}

/// ASCII decimal digit.
pub open spec fn is_ascii_digit(c: char) -> bool {
    '0' <= c && c <= '9'
}

/// A character that may begin an identifier: `[a-zA-Z_$]`.
pub open spec fn is_id_start(c: char) -> bool {
    is_ascii_letter(c) || c == '_' || c == '$'
}

/// A character that may continue an identifier: `[a-zA-Z0-9_$]`.
pub open spec fn is_id_char(c: char) -> bool {
    is_id_start(c) || is_ascii_digit(c)
}

/// The Unicode `White_Space` property.
pub open spec fn is_white_space(c: char) -> bool {
    ('\u{9}' <= c && c <= '\u{d}') || c == ' ' || c == '\u{85}' || c == '\u{a0}'
        || c == '\u{1680}' || ('\u{2000}' <= c && c <= '\u{200a}') || c == '\u{2028}'
        || c == '\u{2029}' || c == '\u{202f}' || c == '\u{205f}' || c == '\u{3000}'
}

/// A character allowed in a bundle-safe path fragment:
/// `[a-zA-Z0-9_!§$()=\-^°]`.
pub open spec fn is_path_char(c: char) -> bool {
    is_ascii_letter(c) || is_ascii_digit(c) || c == '_' || c == '!' || c == '\u{a7}' || c == '$'
        || c == '(' || c == ')' || c == '=' || c == '-' || c == '^' || c == '\u{b0}'
}

/// The characters that a normalisation keeps as they are.
pub enum CharSet {
    Identifier,
    Path,
}

pub open spec fn in_set(set: CharSet, c: char) -> bool {
    match set {
        CharSet::Identifier => is_id_char(c),
        CharSet::Path => is_path_char(c),
    }
}

/// `s` with each maximal run of characters outside `set` replaced by one `sub`.
pub open spec fn collapse_runs(s: Seq<char>, set: CharSet, sub: char) -> Seq<char>
    decreases s.len(),
{
    if s.len() == 0 {
        Seq::empty()
    } else {
        let p = collapse_runs(s.drop_last(), set, sub);
        let c = s.last();
        if in_set(set, c) {
            p.push(c)
        } else if s.len() >= 2 && !in_set(set, s[s.len() - 2]) {
            p
        } else {
            p.push(sub)
        }
    }
}

/// Only characters of `set`, and `sub`, come out of `collapse_runs`; a first
/// character in `set` stays first.
pub proof fn lemma_collapse_runs_chars(s: Seq<char>, set: CharSet, sub: char)
    ensures
        forall|i: int|
            0 <= i < collapse_runs(s, set, sub).len() ==> in_set(
                set,
                #[trigger] collapse_runs(s, set, sub)[i],
            ) || collapse_runs(s, set, sub)[i] == sub,
        s.len() > 0 ==> collapse_runs(s, set, sub).len() > 0,
        s.len() > 0 ==> collapse_runs(s, set, sub)[0] == if in_set(set, s[0]) {
            s[0]
        } else {
            sub
        },
    decreases s.len(),
{
    if s.len() > 0 {
        let t = s.drop_last();
        lemma_collapse_runs_chars(t, set, sub);
        let p = collapse_runs(t, set, sub);
        let r = collapse_runs(s, set, sub);
        assert forall|i: int| 0 <= i < r.len() implies in_set(set, #[trigger] r[i]) || r[i] == sub by {
            if i < p.len() {
                assert(r[i] == p[i]);
            }
        }
        if s.len() >= 2 {
            assert(t[0] == s[0]);
            assert(r[0] == p[0]);
        }
    }
}

/// A text made only of characters of `set` is left unchanged.
pub proof fn lemma_collapse_runs_keeps(s: Seq<char>, set: CharSet, sub: char)
    requires
        forall|i: int| 0 <= i < s.len() ==> in_set(set, #[trigger] s[i]),
    ensures
        collapse_runs(s, set, sub) == s,
    decreases s.len(),
{
    if s.len() > 0 {
        lemma_collapse_runs_keeps(s.drop_last(), set, sub);
        assert(s.drop_last().push(s.last()) =~= s);
    }
}

pub fn id_start(c: char) -> (r: bool)
    ensures
        r == is_id_start(c),
{
    ('a' <= c && c <= 'z') || ('A' <= c && c <= 'Z') || c == '_' || c == '$'
}

pub fn id_char(c: char) -> (r: bool)
    ensures
        r == is_id_char(c),
{
    id_start(c) || ('0' <= c && c <= '9')
}

pub fn white_space(c: char) -> (r: bool)
    ensures
        r == is_white_space(c),
{
    ('\u{9}' <= c && c <= '\u{d}') || c == ' ' || c == '\u{85}' || c == '\u{a0}'
        || c == '\u{1680}' || ('\u{2000}' <= c && c <= '\u{200a}') || c == '\u{2028}'
        || c == '\u{2029}' || c == '\u{202f}' || c == '\u{205f}' || c == '\u{3000}'
}

pub fn path_char(c: char) -> (r: bool)
    ensures
        r == is_path_char(c),
{
    ('a' <= c && c <= 'z') || ('A' <= c && c <= 'Z') || ('0' <= c && c <= '9') || c == '_'
        || c == '!' || c == '\u{a7}' || c == '$' || c == '(' || c == ')' || c == '=' || c == '-'
        || c == '^' || c == '\u{b0}'
}

pub fn char_in_set(set: &CharSet, c: char) -> (r: bool)
    ensures
        r == in_set(*set, c),
{
    match set {
        CharSet::Identifier => id_char(c),
        CharSet::Path => path_char(c),
    }
}

/// Appends `collapse_runs(s, set, sub)` to `out`.
pub fn push_collapsed(out: &mut String, s: &Vec<char>, set: &CharSet, sub: char)
    ensures
        final(out)@ == old(out)@ + collapse_runs(s@, *set, sub),
{
    let mut i: usize = 0;
    let mut in_run = false;
    proof {
        assert(s@.take(0) =~= Seq::<char>::empty());
        assert(old(out)@ + Seq::<char>::empty() =~= old(out)@);
    }
    while i < s.len()
        invariant
            i <= s@.len(),
            in_run == (i > 0 && !in_set(*set, s@[i - 1])),
            out@ == old(out)@ + collapse_runs(s@.take(i as int), *set, sub),
        decreases s@.len() - i,
    {
        let c = s[i];
        let ghost prev = out@;
        proof {
            assert(s@.take(i + 1).drop_last() =~= s@.take(i as int));
        }
        if char_in_set(set, c) {
            push_char(out, c);
            in_run = false;
            assert(out@ =~= old(out)@ + collapse_runs(s@.take(i + 1), *set, sub));
        } else if in_run {
            assert(out@ =~= old(out)@ + collapse_runs(s@.take(i + 1), *set, sub));
        } else {
            push_char(out, sub);
            in_run = true;
            assert(out@ =~= old(out)@ + collapse_runs(s@.take(i + 1), *set, sub));
        }
        i = i + 1;
    }
    proof {
        assert(s@.take(i as int) =~= s@);
    }
}

/// The characters of `s`, in order.
pub fn chars_of(s: &str) -> (r: Vec<char>)
    ensures
        r@ == s@,
{
    let mut out: Vec<char> = Vec::new();
    let mut it = s.chars();
    let ghost total = s@;
    proof {
        broadcast use vstd::string::group_string_axioms;
    }
    loop
        invariant
            total == s@,
            out@ + it.remaining() == total,
            it.decrease() is Some,
        ensures
            out@ == s@,
        decreases it.decrease()->0,
    {
        match it.next() {
            Some(c) => {
                out.push(c);
            },
            None => {
                assert(out@ =~= total);
                break;
            },
        }
    }
    out
}

/// Relies on `String::push`: appends one character at the end.
#[verifier::external_body]
pub(crate) fn push_char(s: &mut String, c: char)
    ensures
        final(s)@ == old(s)@.push(c),
{
    s.push(c);
}

/// Appends `s[from..to]` to `out`.
pub fn push_range(out: &mut String, s: &Vec<char>, from: usize, to: usize)
    requires
        from <= to <= s@.len(),
    ensures
        final(out)@ == old(out)@ + s@.subrange(from as int, to as int),
{
    let mut i = from;
    while i < to
        invariant
            from <= i <= to <= s@.len(),
            out@ == old(out)@ + s@.subrange(from as int, i as int),
        decreases to - i,
    {
        push_char(out, s[i]);
        assert(s@.subrange(from as int, i + 1) =~= s@.subrange(from as int, i as int).push(s@[i as int]));
        i = i + 1;
    }
}

/// `s` without its leading white space.
pub open spec fn trim_start(s: Seq<char>) -> Seq<char>
    decreases s.len(),
{
    if s.len() > 0 && is_white_space(s[0]) {
        trim_start(s.drop_first())
    } else {
        s
    }
}

/// `s` without its trailing white space.
pub open spec fn trim_end(s: Seq<char>) -> Seq<char>
    decreases s.len(),
{
    if s.len() > 0 && is_white_space(s.last()) {
        trim_end(s.drop_last())
    } else {
        s
    }
}

/// `s` without white space at either end.
pub open spec fn trim(s: Seq<char>) -> Seq<char> {
    trim_end(trim_start(s))
}

/// The bounds `lo..hi` of `trim(s[from..to])` within `s`.
pub fn trim_bounds(s: &Vec<char>, from: usize, to: usize) -> (r: (usize, usize))
    requires
        from <= to <= s@.len(),
    ensures
        from <= r.0 <= r.1 <= to,
        s@.subrange(r.0 as int, r.1 as int) == trim(s@.subrange(from as int, to as int)),
{
    let ghost whole = s@.subrange(from as int, to as int);
    let mut lo = from;
    while lo < to && white_space(s[lo])
        invariant
            from <= lo <= to <= s@.len(),
            trim_start(whole) == trim_start(s@.subrange(lo as int, to as int)),
        decreases to - lo,
    {
        assert(s@.subrange(lo + 1, to as int) =~= s@.subrange(lo as int, to as int).drop_first());
        lo = lo + 1;
    }
    let mut hi = to;
    while hi > lo && white_space(s[hi - 1])
        invariant
            from <= lo <= hi <= to <= s@.len(),
            trim_end(s@.subrange(lo as int, to as int)) == trim_end(s@.subrange(lo as int, hi as int)),
        decreases hi,
    {
        assert(s@.subrange(lo as int, hi - 1) =~= s@.subrange(lo as int, hi as int).drop_last());
        hi = hi - 1;
    }
    (lo, hi)
}

} // verus!

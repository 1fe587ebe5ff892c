//! Extracting the body from the text of a `function() { ... }` definition.
use vstd::prelude::*;
use crate::text::{chars_of, is_white_space, push_char, white_space};
use crate::Template;

verus! {

/// `i + 1` where `s[i]` is white space, else `i`.
pub open spec fn skip_space(s: Seq<char>, i: int) -> int {
    if 0 <= i < s.len() && is_white_space(s[i]) {
        i + 1
    } else {
        i
    }
}

/// `i + 1` where `s[i] == c`, else `i`.
pub open spec fn skip_char(s: Seq<char>, i: int, c: char) -> int {
    if 0 <= i < s.len() && s[i] == c {
        i + 1
    } else {
        i
    }
}

/// The length of the header `function`, at most one white space, `()`, at
/// most one white space, `{`, an optional `'\r'` and an optional `'\n'` at the
/// start of `s`; 0 where `s` does not start with one.
pub open spec fn header_len(s: Seq<char>) -> int {
    if s.len() >= 8 && s.take(8) == seq!['f', 'u', 'n', 'c', 't', 'i', 'o', 'n'] {
        let a = skip_space(s, 8);
        if a + 1 < s.len() && s[a] == '(' && s[a + 1] == ')' {
            let b = skip_space(s, a + 2);
            if b < s.len() && s[b] == '{' {
                skip_char(s, skip_char(s, b + 1, '\r'), '\n')
            } else {
                0
            }
        } else {
            0
        }
    } else {
        0
    }
}

/// Only white space, and at most one `;`.
pub open spec fn is_closing_tail(t: Seq<char>) -> bool {
    &&& forall|i: int| 0 <= i < t.len() ==> is_white_space(#[trigger] t[i]) || t[i] == ';'
    &&& forall|i: int, j: int| 0 <= i < j < t.len() ==> !(#[trigger] t[i] == ';' && #[trigger] t[j] == ';')
}

/// `t` is an optional `'\r'`, an optional `'\n'`, `}`, and then a closing tail.
pub open spec fn is_trailer(t: Seq<char>) -> bool {
    let b = skip_char(t, skip_char(t, 0, '\r'), '\n');
    b < t.len() && t[b] == '}' && is_closing_tail(t.skip(b + 1))
}

/// The first index from `i` on where a trailer starts; `s.len()` where none does.
pub open spec fn first_trailer(s: Seq<char>, i: int) -> int
    decreases s.len() - i,
{
    if i >= s.len() {
        s.len() as int
    } else if is_trailer(s.skip(i)) {
        i
    } else {
        first_trailer(s, i + 1)
    }
}

/// `t` without one tab at the start of each line; `at_start` says whether
/// `t` begins a line.
pub open spec fn strip_line_tabs(t: Seq<char>, at_start: bool) -> Seq<char>
    decreases t.len(),
{
    if t.len() == 0 {
        Seq::empty()
    } else if at_start && t[0] == '\t' {
        strip_line_tabs(t.drop_first(), false)
    } else {
        seq![t[0]] + strip_line_tabs(t.drop_first(), t[0] == '\n')
    }
}

/// `t` with each `"\r\n"` written as `"\n"`.
pub open spec fn normalize_newlines(t: Seq<char>) -> Seq<char>
    decreases t.len(),
{
    if t.len() >= 2 && t[0] == '\r' && t[1] == '\n' {
        normalize_newlines(t.drop_first())
    } else if t.len() > 0 {
        seq![t[0]] + normalize_newlines(t.drop_first())
    } else {
        Seq::empty()
    }
}

/// The body of the function whose text is `s`: without the header at the
/// start and the first trailer after it, with one tab less at the start of
/// each line, and with `"\n"` for each line break.
pub open spec fn function_body_of(s: Seq<char>) -> Seq<char> {
    let h = header_len(s);
    normalize_newlines(strip_line_tabs(s.subrange(h, first_trailer(s, h)), true))
}

fn header_length(s: &Vec<char>) -> (r: usize)
    ensures
        r == header_len(s@),
        r <= s@.len(),
{
    let n = s.len();
    if n < 8 || s[0] != 'f' || s[1] != 'u' || s[2] != 'n' || s[3] != 'c' || s[4] != 't' || s[5]
        != 'i' || s[6] != 'o' || s[7] != 'n' {
        proof {
            if n >= 8 {
                assert(s@.take(8)[0] == s@[0] && s@.take(8)[1] == s@[1] && s@.take(8)[2] == s@[2]
                    && s@.take(8)[3] == s@[3] && s@.take(8)[4] == s@[4] && s@.take(8)[5] == s@[5]
                    && s@.take(8)[6] == s@[6] && s@.take(8)[7] == s@[7]);
            }
        }
        return 0;
    }
    proof {
        assert(s@.take(8) =~= seq!['f', 'u', 'n', 'c', 't', 'i', 'o', 'n']);
    }
    let a: usize = if n > 8 && white_space(s[8]) { 9 } else { 8 };
    if !(a + 1 < n && s[a] == '(' && s[a + 1] == ')') {
        return 0;
    }
    let b: usize = if a + 2 < n && white_space(s[a + 2]) { a + 3 } else { a + 2 };
    if !(b < n && s[b] == '{') {
        return 0;
    }
    let c: usize = if b + 1 < n && s[b + 1] == '\r' { b + 2 } else { b + 1 };
    if c < n && s[c] == '\n' { c + 1 } else { c }
}

fn closing_tail_at(s: &Vec<char>, from: usize) -> (r: bool)
    requires
        from <= s@.len(),
    ensures
        r == is_closing_tail(s@.skip(from as int)),
{
    let ghost t = s@.skip(from as int);
    let m = s.len() - from;
    let mut seen = false;
    let mut j: usize = 0;
    while j < m
        invariant
            t == s@.skip(from as int),
            m == t.len(),
            from + m == s@.len(),
            s@.len() <= usize::MAX,
            j <= m,
            forall|x: int| 0 <= x < j ==> is_white_space(#[trigger] t[x]) || t[x] == ';',
            seen <==> exists|x: int| 0 <= x < j && #[trigger] t[x] == ';',
            forall|x: int, y: int| 0 <= x < y < j ==> !(#[trigger] t[x] == ';' && #[trigger] t[y] == ';'),
        decreases m - j,
    {
        let c = s[from + j];
        assert(t[j as int] == c);
        if c == ';' {
            if seen {
                proof {
                    let x = choose|x: int| 0 <= x < j && #[trigger] t[x] == ';';
                    assert(t[x] == ';' && t[j as int] == ';');
                }
                return false;
            }
            seen = true;
        } else if !white_space(c) {
            return false;
        }
        j = j + 1;
    }
    true
}

fn trailer_at(s: &Vec<char>, i: usize) -> (r: bool)
    requires
        i <= s@.len(),
    ensures
        r == is_trailer(s@.skip(i as int)),
{
    let n = s.len();
    let ghost t = s@.skip(i as int);
    let a: usize = if i < n && s[i] == '\r' { i + 1 } else { i };
    let b: usize = if a < n && s[a] == '\n' { a + 1 } else { a };
    proof {
        assert(skip_char(t, 0, '\r') == a - i);
        assert(skip_char(t, a - i, '\n') == b - i);
    }
    if b < n && s[b] == '}' {
        proof {
            assert(t.skip(b - i + 1) =~= s@.skip(b + 1));
        }
        closing_tail_at(s, b + 1)
    } else {
        false
    }
}

fn first_trailer_from(s: &Vec<char>, from: usize) -> (r: usize)
    requires
        from <= s@.len(),
    ensures
        r == first_trailer(s@, from as int),
        from <= r <= s@.len(),
{
    let n = s.len();
    let mut i = from;
    while i < n && !trailer_at(s, i)
        invariant
            from <= i <= n == s@.len(),
            first_trailer(s@, from as int) == first_trailer(s@, i as int),
        decreases n - i,
    {
        i = i + 1;
    }
    i
}

impl Template {
    /// The body of the function whose text is `source`; see `function_body_of`.
    pub fn function_body(source: &str) -> (r: String)
        ensures
            r@ == function_body_of(source@),
    {
        let cs = chars_of(source);
        let h = header_length(&cs);
        let e = first_trailer_from(&cs, h);
        let ghost body = cs@.subrange(h as int, e as int);
        let mut untabbed: Vec<char> = Vec::new();
        let mut at_start = true;
        let mut i = h;
        proof {
            assert(cs@.subrange(h as int, e as int) =~= body);
            assert(untabbed@ + strip_line_tabs(body, true) =~= strip_line_tabs(body, true));
        }
        while i < e
            invariant
                h <= i <= e <= cs@.len(),
                body == cs@.subrange(h as int, e as int),
                strip_line_tabs(body, true) == untabbed@ + strip_line_tabs(
                    cs@.subrange(i as int, e as int),
                    at_start,
                ),
            decreases e - i,
        {
            let ghost t = cs@.subrange(i as int, e as int);
            let ghost before = untabbed@;
            assert(t.drop_first() =~= cs@.subrange(i + 1, e as int));
            let c = cs[i];
            if at_start && c == '\t' {
                at_start = false;
            } else {
                untabbed.push(c);
                at_start = c == '\n';
                assert(before + (seq![c] + strip_line_tabs(t.drop_first(), c == '\n')) =~= untabbed@
                    + strip_line_tabs(t.drop_first(), c == '\n'));
            }
            i = i + 1;
        }
        proof {
            assert(cs@.subrange(e as int, e as int) =~= Seq::<char>::empty());
            assert(untabbed@ + Seq::<char>::empty() =~= untabbed@);
        }
        let ghost u = untabbed@;
        let n = untabbed.len();
        let mut out = String::new();
        let mut j: usize = 0;
        proof {
            assert(untabbed@.skip(0) =~= u);
            assert(out@ + normalize_newlines(u) =~= normalize_newlines(u));
        }
        while j < n
            invariant
                u == untabbed@,
                n == u.len(),
                j <= n,
                normalize_newlines(u) == out@ + normalize_newlines(u.skip(j as int)),
            decreases n - j,
        {
            let ghost t = u.skip(j as int);
            let ghost before = out@;
            assert(t.drop_first() =~= u.skip(j + 1));
            let c = untabbed[j];
            if !(c == '\r' && j + 1 < n && untabbed[j + 1] == '\n') {
                push_char(&mut out, c);
                assert(before + (seq![c] + normalize_newlines(t.drop_first())) =~= out@
                    + normalize_newlines(t.drop_first()));
            }
            j = j + 1;
        }
        proof {
            assert(u.skip(n as int) =~= Seq::<char>::empty());
            assert(out@ + Seq::<char>::empty() =~= out@);
        }
        out
    }

    /// Calls `fn_string` for the text of a function and returns its body;
    /// see `function_body_of`.
    pub fn get_function_content<F: FnOnce() -> String>(fn_string: F) -> (r: String)
        requires
            fn_string.requires(()),
        ensures
            exists|text: String| fn_string.ensures((), text) && r@ == function_body_of(text@),
    {
        let text = fn_string();
        Template::function_body(text.as_str())
    }
}

} // verus!

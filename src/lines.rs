//! Splitting text into lines, as `str::lines` does.
use vstd::prelude::*;

verus! {

/// The pieces of `s` between its `'\n'` characters; there is always one more
/// piece than there are newlines.
pub open spec fn pieces(s: Seq<char>) -> Seq<Seq<char>>
    decreases s.len(),
{
    if s.len() == 0 {
        seq![Seq::empty()]
    } else {
        let p = pieces(s.drop_last());
        if s.last() == '\n' {
            p.push(Seq::empty())
        } else {
            p.update(p.len() - 1, p.last().push(s.last()))
        }
    }
}

/// A line that ended in `"\r\n"` loses its `'\r'`.
pub open spec fn strip_cr(l: Seq<char>) -> Seq<char> {
    if l.len() > 0 && l.last() == '\r' {
        l.drop_last()
    } else {
        l
    }
}

/// The lines of `s`: the pieces between newlines, where a final newline ends
/// the last line rather than opening an empty one, and a `'\r'` before a
/// newline belongs to the line ending.
pub open spec fn lines(s: Seq<char>) -> Seq<Seq<char>> {
    if s.len() == 0 {
        Seq::empty()
    } else {
        let p = pieces(s);
        let k = if s.last() == '\n' { p.len() - 1 } else { p.len() as int };
        Seq::new(k as nat, |i: int| if i < p.len() - 1 { strip_cr(p[i]) } else { p[i] })
    }
}

pub proof fn lemma_pieces_len(s: Seq<char>)
    ensures
        pieces(s).len() >= 1,
    decreases s.len(),
{
    if s.len() > 0 {
        lemma_pieces_len(s.drop_last());
    }
}

/// The lines of `s`, each as the bounds of its characters within `s`.
pub fn line_bounds(s: &Vec<char>) -> (r: Vec<(usize, usize)>)
    ensures
        r@.len() == lines(s@).len(),
        forall|j: int|
            0 <= j < r@.len() ==> #[trigger] r@[j].0 <= r@[j].1 <= s@.len()
                && s@.subrange(r@[j].0 as int, r@[j].1 as int) == lines(s@)[j],
{
    let n = s.len();
    let mut r: Vec<(usize, usize)> = Vec::new();
    let mut start: usize = 0;
    let mut i: usize = 0;
    proof {
        assert(s@.take(0) =~= Seq::<char>::empty());
    }
    while i < n
        invariant
            n == s@.len(),
            start <= i <= n,
            pieces(s@.take(i as int)).len() == r@.len() + 1,
            pieces(s@.take(i as int)).last() == s@.subrange(start as int, i as int),
            forall|j: int|
                0 <= j < r@.len() ==> #[trigger] r@[j].0 <= r@[j].1 <= s@.len()
                    && s@.subrange(r@[j].0 as int, r@[j].1 as int) == strip_cr(
                    pieces(s@.take(i as int))[j],
                ),
        decreases n - i,
    {
        let ghost before = s@.take(i as int);
        let ghost p = pieces(before);
        proof {
            assert(s@.take(i + 1).drop_last() =~= before);
            lemma_pieces_len(before);
        }
        if s[i] == '\n' {
            let end = if i > start && s[i - 1] == '\r' { i - 1 } else { i };
            proof {
                let l = s@.subrange(start as int, i as int);
                if i > start && s@[i - 1] == '\r' {
                    assert(l.drop_last() =~= s@.subrange(start as int, end as int));
                }
                assert(s@.subrange(start as int, end as int) == strip_cr(l));
            }
            r.push((start, end));
            start = i + 1;
            proof {
                assert(s@.subrange(start as int, i + 1) =~= Seq::<char>::empty());
            }
        } else {
            proof {
                assert(s@.subrange(start as int, i + 1) =~= s@.subrange(start as int, i as int).push(s@[i as int]));
            }
        }
        i = i + 1;
    }
    proof {
        assert(s@.take(n as int) =~= s@);
        lemma_pieces_len(s@);
    }
    let ghost r0 = r@;
    if n > 0 && s[n - 1] != '\n' {
        r.push((start, n));
    }
    proof {
        let p = pieces(s@);
        if n > 0 {
            assert forall|j: int|
                0 <= j < r@.len() implies #[trigger] r@[j].0 <= r@[j].1 <= s@.len()
                && s@.subrange(r@[j].0 as int, r@[j].1 as int) == lines(s@)[j] by {
                let k = if s@.last() == '\n' { p.len() - 1 } else { p.len() as int };
                assert(lines(s@).len() == k);
                assert(0 <= j < k);
                if j < r0.len() {
                    assert(r@[j] == r0[j]);
                    assert(s@.subrange(r@[j].0 as int, r@[j].1 as int) == strip_cr(p[j]));
                    assert(lines(s@)[j] == strip_cr(p[j]));
                } else {
                    assert(s@.last() != '\n');
                    assert(lines(s@)[j] == p[j]);
                }
            }
        }
    }
    r
}

} // verus!

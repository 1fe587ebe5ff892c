//! Short generated names: a mixed-radix encoding of a number as an identifier.
use vstd::prelude::*;
use crate::text::{is_id_start, is_id_char, push_char};
use crate::Template;
use vstd::string::StringExecFns;

verus! {

/// Number of characters that may begin a generated name: `a-z`, `A-Z`, `_`, `$`.
pub const START_RADIX: u32 = 54;

/// Number of characters that may continue a generated name: the above and `0-9`.
pub const CONTINUATION_RADIX: u32 = 64;

/// The character for digit `d` of a continuation position:
/// `a-z` (0..26), `A-Z` (26..52), `0-9` (52..62), `_` (62), `$` (63).
pub open spec fn continuation_char(d: nat) -> char {
    if d < 26 {
        (97 + d) as u32 as char
    } else if d < 52 {
        (65 + (d - 26)) as u32 as char
    } else if d < 62 {
        (48 + (d - 52)) as u32 as char
    } else if d == 62 {
        '_'
    } else {
        '$'
    }
}

/// The character for digit `d` of the leading position:
/// `a-z` (0..26), `A-Z` (26..52), `_` (52), `$` (53).
pub open spec fn start_char(d: nat) -> char {
    if d < 52 {
        continuation_char(d)
    } else if d == 52 {
        '_'
    } else {
        '$'
    }
}

/// The continuation digits of `n` in base 64, least significant first.
pub open spec fn continuation_name(n: nat) -> Seq<char>
    decreases n,
{
    if n >= 64 {
        continuation_name(n % 64) + continuation_name(n / 64)
    } else {
        seq![continuation_char(n)]
    }
}

/// The generated name of `n`: its least significant digit in base 54 over the
/// leading alphabet, followed by the rest of the number in base 64.
pub open spec fn name_of_number(n: nat) -> Seq<char>
    decreases n,
{
    if n >= 54 {
        name_of_number(n % 54) + continuation_name(n / 54)
    } else {
        seq![start_char(n)]
    }
}

/// A valid identifier: `[a-zA-Z_$][a-zA-Z0-9_$]*`.
pub open spec fn is_identifier(s: Seq<char>) -> bool {
    s.len() > 0 && is_id_start(s[0]) && forall|i: int| 0 <= i < s.len() ==> is_id_char(#[trigger] s[i])
}

pub fn digit_char(d: u32, radix: u32) -> (c: char)
    requires
        radix == START_RADIX || radix == CONTINUATION_RADIX,
        d < radix,
    ensures
        radix == START_RADIX ==> c == start_char(d as nat),
        radix == CONTINUATION_RADIX ==> c == continuation_char(d as nat),
{
    if d < 26 {
        ((97 + d) as u8) as char
    } else if d < 52 {
        ((65 + (d - 26)) as u8) as char
    } else if radix == START_RADIX {
        if d == 52 { '_' } else { '$' }
    } else if d < 62 {
        ((48 + (d - 52)) as u8) as char
    } else if d == 62 {
        '_'
    } else {
        '$'
    }
}

proof fn lemma_digit_chars(d: nat)
    ensures
        d < 64 ==> is_id_char(continuation_char(d)),
        d < 54 ==> is_id_start(start_char(d)),
        d < 64 ==> (continuation_char(d) as u32) as int == (if d < 26 {
            97 + d as int
        } else if d < 52 {
            65 + d - 26
        } else if d < 62 {
            48 + d - 52
        } else if d == 62 {
            95
        } else {
            36
        }),
{
}

proof fn lemma_continuation_shape(n: nat)
    ensures
        continuation_name(n).len() >= 1,
        continuation_name(n).len() == 1 <==> n < 64,
        continuation_name(n)[0] == continuation_char(n % 64),
        is_identifier_tail(continuation_name(n)),
    decreases n,
{
    if n >= 64 {
        lemma_continuation_shape(n % 64);
        lemma_continuation_shape(n / 64);
        let a = continuation_name(n % 64);
        let b = continuation_name(n / 64);
        assert forall|i: int| 0 <= i < (a + b).len() implies is_id_char(#[trigger] (a + b)[i]) by {
            if i >= a.len() {
                assert((a + b)[i] == b[i - a.len()]);
            }
        }
    } else {
        lemma_digit_chars(n);
    }
}

/// Every character of `s` may continue an identifier.
pub open spec fn is_identifier_tail(s: Seq<char>) -> bool {
    forall|i: int| 0 <= i < s.len() ==> is_id_char(#[trigger] s[i])
}

proof fn lemma_continuation_injective(a: nat, b: nat)
    requires
        continuation_name(a) == continuation_name(b),
    ensures
        a == b,
    decreases a,
{
    lemma_continuation_shape(a);
    lemma_continuation_shape(b);
    lemma_digit_chars(a % 64);
    lemma_digit_chars(b % 64);
    if a >= 64 && b >= 64 {
        lemma_continuation_shape(a % 64);
        lemma_continuation_shape(b % 64);
        assert(continuation_name(a / 64) =~= continuation_name(a).skip(1));
        assert(continuation_name(b / 64) =~= continuation_name(b).skip(1));
        lemma_continuation_injective(a / 64, b / 64);
    }
}

/// Distinct numbers receive distinct generated names.
pub proof fn lemma_name_of_number_injective(a: u32, b: u32)
    ensures
        name_of_number(a as nat) == name_of_number(b as nat) ==> a == b,
{
    if name_of_number(a as nat) == name_of_number(b as nat) {
        lemma_digit_chars((a % 54) as nat);
        lemma_digit_chars((b % 54) as nat);
        lemma_continuation_shape((a / 54) as nat);
        lemma_continuation_shape((b / 54) as nat);
        let (na, nb) = (name_of_number(a as nat), name_of_number(b as nat));
        assert(name_of_number((a % 54) as nat) == seq![start_char((a % 54) as nat)]);
        assert(name_of_number((b % 54) as nat) == seq![start_char((b % 54) as nat)]);
        if a >= 54 && b >= 54 {
            assert(na[0] == nb[0]);
            assert(continuation_name((a / 54) as nat) =~= na.skip(1));
            assert(continuation_name((b / 54) as nat) =~= nb.skip(1));
            lemma_continuation_injective((a / 54) as nat, (b / 54) as nat);
        } else if a < 54 && b < 54 {
            assert(na[0] == nb[0]);
        } else {
            assert(na.len() != nb.len());
        }
    }
}

/// Every generated name is a valid identifier.
pub proof fn lemma_name_of_number_is_identifier(n: nat)
    ensures
        is_identifier(name_of_number(n)),
{
    lemma_digit_chars(n % 54);
    if n >= 54 {
        lemma_continuation_shape(n / 54);
        let a = name_of_number(n % 54);
        let b = continuation_name(n / 54);
        assert(a == seq![start_char(n % 54)]);
        assert forall|i: int| 0 <= i < (a + b).len() implies is_id_char(#[trigger] (a + b)[i]) by {
            if i >= a.len() {
                assert((a + b)[i] == b[i - a.len()]);
            }
        }
    }
}

impl Template {
    /// The continuation digits of `n`: base 64, least significant first.
    pub fn number_to_identifier_continuation(n: u32) -> (r: String)
        ensures
            r@ == continuation_name(n as nat),
            is_identifier_tail(r@),
        decreases n,
    {
        proof {
            lemma_continuation_shape(n as nat);
        }
        if n >= CONTINUATION_RADIX {
            let mut r = Template::number_to_identifier_continuation(n % CONTINUATION_RADIX);
            let rest = Template::number_to_identifier_continuation(n / CONTINUATION_RADIX);
            r.append(rest.as_str());
            r
        } else {
            let mut r = String::new();
            push_char(&mut r, digit_char(n, CONTINUATION_RADIX));
            r
        }
    }

    /// A short identifier that names `n`; distinct numbers get distinct names.
    pub fn number_to_identifier(n: u32) -> (r: String)
        ensures
            r@ == name_of_number(n as nat),
            is_identifier(r@),
        decreases n,
    {
        proof {
            lemma_name_of_number_is_identifier(n as nat);
        }
        if n >= START_RADIX {
            let mut r = Template::number_to_identifier(n % START_RADIX);
            let rest = Template::number_to_identifier_continuation(n / START_RADIX);
            r.append(rest.as_str());
            r
        } else {
            let mut r = String::new();
            push_char(&mut r, digit_char(n, START_RADIX));
            r
        }
    }
}

} // verus!

//! Validating the user's selection: a token is accepted exactly when, after
//! trimming surrounding whitespace, it is a decimal index (an optional
//! leading `+` followed by digits) smaller than the candidate count.

use crate::errors::Error;
use crate::text::str_to_chars;
use vstd::prelude::*;

verus! {

/// The whitespace characters trimmed from a selection token.
pub open spec fn is_space(c: char) -> bool {
    c == ' ' || c == '\t' || c == '\n' || c == '\r'
}

/// A decimal digit.
pub open spec fn is_digit(c: char) -> bool {
    0x30 <= (c as u32) <= 0x39
}

/// The numeric value of a decimal digit.
pub open spec fn digit_val(c: char) -> int
    recommends
        is_digit(c),
{
    (c as u32) as int - 0x30
}

/// The sequence with its leading whitespace removed.
pub open spec fn drop_leading(s: Seq<char>) -> Seq<char>
    decreases s.len(),
{
    if s.len() > 0 && is_space(s[0]) {
        drop_leading(s.drop_first())
    } else {
        s
    }
}

/// The sequence with its trailing whitespace removed.
pub open spec fn drop_trailing(s: Seq<char>) -> Seq<char>
    decreases s.len(),
{
    if s.len() > 0 && is_space(s.last()) {
        drop_trailing(s.drop_last())
    } else {
        s
    }
}

/// The sequence with whitespace removed from both ends.
pub open spec fn trim_spec(s: Seq<char>) -> Seq<char> {
    drop_trailing(drop_leading(s))
}

/// True when every character is a decimal digit.
pub open spec fn all_digits(s: Seq<char>) -> bool {
    forall|i: int| 0 <= i < s.len() ==> is_digit(#[trigger] s[i])
}

/// The token with one optional leading `+` removed.
pub open spec fn strip_plus(s: Seq<char>) -> Seq<char> {
    if s.len() > 0 && s[0] == '+' {
        s.drop_first()
    } else {
        s
    }
}

/// The number spelled by a digit sequence, most significant digit first.
pub open spec fn digits_value(s: Seq<char>) -> int
    decreases s.len(),
{
    if s.len() == 0 {
        0
    } else {
        digits_value(s.drop_last()) * 10 + digit_val(s.last())
    }
}

/// The numeric reading of a selection token: trim whitespace, allow one
/// leading `+`, and require at least one digit and nothing else.
pub open spec fn selection_value(s: Seq<char>) -> Option<int> {
    let t = strip_plus(trim_spec(s));
    if t.len() > 0 && all_digits(t) {
        Some(digits_value(t))
    } else {
        None
    }
}

proof fn lemma_digits_nonneg(s: Seq<char>)
    requires
        all_digits(s),
    ensures
        digits_value(s) >= 0,
    decreases s.len(),
{
    if s.len() > 0 {
        assert(all_digits(s.drop_last()));
        lemma_digits_nonneg(s.drop_last());
    }
}

/// Extending a digit sequence never shrinks its value.
proof fn lemma_digits_prefix_le(s: Seq<char>, k: int)
    requires
        all_digits(s),
        0 <= k <= s.len(),
    ensures
        digits_value(s.subrange(0, k)) <= digits_value(s),
    decreases s.len() - k,
{
    if k < s.len() {
        let p = s.subrange(0, k + 1);
        assert(p.drop_last() =~= s.subrange(0, k));
        assert(all_digits(p.drop_last()));
        lemma_digits_nonneg(p.drop_last());
        lemma_digits_prefix_le(s, k + 1);
    } else {
        assert(s.subrange(0, k) =~= s);
    }
}

proof fn lemma_drop_leading_at(s: Seq<char>, k: int)
    requires
        0 <= k <= s.len(),
        forall|i: int| 0 <= i < k ==> is_space(#[trigger] s[i]),
        k < s.len() ==> !is_space(s[k]),
    ensures
        drop_leading(s) == s.skip(k),
    decreases k,
{
    if k == 0 {
        assert(s.skip(0) =~= s);
    } else {
        lemma_drop_leading_at(s.drop_first(), k - 1);
        assert(s.drop_first().skip(k - 1) =~= s.skip(k));
    }
}

proof fn lemma_drop_trailing_at(s: Seq<char>, k: int)
    requires
        0 <= k <= s.len(),
        forall|i: int| k <= i < s.len() ==> is_space(#[trigger] s[i]),
        k > 0 ==> !is_space(s[k - 1]),
    ensures
        drop_trailing(s) == s.subrange(0, k),
    decreases s.len() - k,
{
    if k == s.len() {
        if k > 0 {
            assert(s.subrange(0, k) =~= s);
        } else {
            assert(s.subrange(0, 0) =~= s);
        }
    } else {
        lemma_drop_trailing_at(s.drop_last(), k);
        assert(s.drop_last().subrange(0, k) =~= s.subrange(0, k));
    }
}

/// Reads the selection token against `count` candidates. Returns the
/// zero-based index exactly when the token spells a number below `count`;
/// every other token, numeric or not, is an invalid selection.
pub fn select_index(token: &str, count: usize) -> (r: Result<usize, Error>)
    ensures
        match r {
            Ok(i) => selection_value(token@) == Some(i as int) && i < count,
            Err(e) => {
                &&& e == Error::InvalidSelection
                &&& match selection_value(token@) {
                    Some(v) => v >= count,
                    None => true,
                }
            },
        },
{
    let chars = str_to_chars(token);
    let n = chars.len();
    let mut lo: usize = 0;
    while lo < n && (chars[lo] == ' ' || chars[lo] == '\t' || chars[lo] == '\n' || chars[lo]
        == '\r')
        invariant
            n == chars@.len(),
            0 <= lo <= n,
            forall|i: int| 0 <= i < lo ==> is_space(#[trigger] chars@[i]),
        decreases n - lo,
    {
        lo = lo + 1;
    }
    let mut hi: usize = n;
    while hi > lo && (chars[hi - 1] == ' ' || chars[hi - 1] == '\t' || chars[hi - 1] == '\n'
        || chars[hi - 1] == '\r')
        invariant
            n == chars@.len(),
            lo <= hi <= n,
            forall|i: int| 0 <= i < lo ==> is_space(#[trigger] chars@[i]),
            forall|i: int| hi <= i < n ==> is_space(#[trigger] chars@[i]),
        decreases hi,
    {
        hi = hi - 1;
    }
    let ghost skipped = chars@.skip(lo as int);
    proof {
        lemma_drop_leading_at(chars@, lo as int);
        assert forall|i: int| (hi - lo) <= i < skipped.len() implies is_space(
            #[trigger] skipped[i],
        ) by {
            assert(skipped[i] == chars@[i + lo]);
        }
        if hi > lo {
            assert(!is_space(skipped[hi - lo - 1]));
        }
        lemma_drop_trailing_at(skipped, hi - lo);
        assert(trim_spec(token@) =~= chars@.subrange(lo as int, hi as int));
    }
    let ghost trimmed = chars@.subrange(lo as int, hi as int);
    // strip one optional leading '+'
    let start: usize = if lo < hi && chars[lo] == '+' {
        lo + 1
    } else {
        lo
    };
    let ghost body = chars@.subrange(start as int, hi as int);
    proof {
        assert(body =~= strip_plus(trimmed));
    }
    if start >= hi {
        // empty after trimming and stripping: not a number
        return Err(Error::InvalidSelection);
    }
    let mut acc: usize = 0;
    let mut k: usize = start;
    while k < hi
        invariant
            n == chars@.len(),
            chars@ == token@,
            start <= k <= hi <= n,
            hi > start,
            body == chars@.subrange(start as int, hi as int),
            body == strip_plus(trim_spec(token@)),
            all_digits(body.subrange(0, k - start)),
            acc == digits_value(body.subrange(0, k - start)),
        decreases hi - k,
    {
        let c = chars[k];
        let u = c as u32;
        if u < 0x30 || u > 0x39 {
            proof {
                assert(body[k - start] == chars@[k as int]);
                assert(!is_digit(body[k - start]));
            }
            return Err(Error::InvalidSelection);
        }
        let d = (u - 0x30) as usize;
        let ghost prev = body.subrange(0, k - start);
        let ghost cur = body.subrange(0, k + 1 - start);
        proof {
            assert(cur.drop_last() =~= prev);
            assert(cur.last() == chars@[k as int]);
            assert(all_digits(cur));
        }
        acc = match acc.checked_mul(10) {
            Some(m) => match m.checked_add(d) {
                Some(v) => v,
                None => {
                    proof {
                        if all_digits(body) {
                            assert(digits_value(cur) == acc * 10 + digit_val(cur.last()));
                            lemma_digits_prefix_le(body, k + 1 - start);
                        }
                    }
                    return Err(Error::InvalidSelection);
                },
            },
            None => {
                proof {
                    if all_digits(body) {
                        assert(digits_value(cur) == acc * 10 + digit_val(cur.last()));
                        lemma_digits_prefix_le(body, k + 1 - start);
                    }
                }
                return Err(Error::InvalidSelection);
            },
        };
        k = k + 1;
    }
    proof {
        assert(body.subrange(0, hi - start) =~= body);
    }
    if acc < count {
        Ok(acc)
    } else {
        Err(Error::InvalidSelection)
    }
}

} // verus!

//! Locating the meteogram image URL in a forecast page: the first `div` tag
//! whose `id` attribute is `meteograma`, then, inside that element, the
//! first `img` tag, whose `src` attribute value is the answer.
//!
//! The page is read by a tolerant tag scanner, stated by the spec functions
//! below: it never fails, skips comments and declarations, folds tag and
//! attribute names to lower case, reads quoted and unquoted attribute
//! values, ignores stray `/` inside tags, and tracks `div` nesting to know
//! where the element's subtree ends. Malformed markup yields absence, never
//! an error.

use crate::text::{char_from_u32, str_to_chars, string_from_chars};
use vstd::prelude::*;

verus! {

/// Markup whitespace.
pub open spec fn h_ws(c: char) -> bool {
    c == ' ' || c == '\t' || c == '\n' || c == '\r' || c == '\u{c}'
}

/// ASCII letters and digits, the characters of a tag name.
pub open spec fn is_alnum(c: char) -> bool {
    let u = c as u32;
    (0x41 <= u && u <= 0x5A) || (0x61 <= u && u <= 0x7A) || (0x30 <= u && u <= 0x39)
}

/// ASCII upper case folded to lower case.
pub open spec fn lower(c: char) -> char {
    let u = c as u32;
    if 0x41 <= u && u <= 0x5A {
        (((u + 0x20) as u32) as char)
    } else {
        c
    }
}

/// A name folded to lower case.
pub open spec fn lower_seq(s: Seq<char>) -> Seq<char> {
    s.map_values(|c: char| lower(c))
}

/// The characters that end an attribute name.
pub open spec fn is_attr_name_end(c: char) -> bool {
    h_ws(c) || c == '=' || c == '/' || c == '>'
}

/// The characters that end an unquoted attribute value.
pub open spec fn is_unquoted_end(c: char) -> bool {
    h_ws(c) || c == '>'
}

pub open spec fn div_name() -> Seq<char> {
    seq!['d', 'i', 'v']
}

pub open spec fn img_name() -> Seq<char> {
    seq!['i', 'm', 'g']
}

pub open spec fn id_name() -> Seq<char> {
    seq!['i', 'd']
}

pub open spec fn src_name() -> Seq<char> {
    seq!['s', 'r', 'c']
}

pub open spec fn target_id() -> Seq<char> {
    seq!['m', 'e', 't', 'e', 'o', 'g', 'r', 'a', 'm', 'a']
}

/// The first position at or after `i` holding no markup whitespace.
pub open spec fn hws_end(s: Seq<char>, i: int) -> int
    decreases s.len() - i,
{
    if 0 <= i < s.len() && h_ws(s[i]) {
        hws_end(s, i + 1)
    } else {
        i
    }
}

/// The end of the attribute name starting at `i`.
pub open spec fn attr_name_end(s: Seq<char>, i: int) -> int
    decreases s.len() - i,
{
    if 0 <= i < s.len() && !is_attr_name_end(s[i]) {
        attr_name_end(s, i + 1)
    } else {
        i
    }
}

/// The end of the tag name starting at `i`.
pub open spec fn tag_name_end(s: Seq<char>, i: int) -> int
    decreases s.len() - i,
{
    if 0 <= i < s.len() && is_alnum(s[i]) {
        tag_name_end(s, i + 1)
    } else {
        i
    }
}

/// The end of the unquoted attribute value starting at `i`.
pub open spec fn unquoted_end(s: Seq<char>, i: int) -> int
    decreases s.len() - i,
{
    if 0 <= i < s.len() && !is_unquoted_end(s[i]) {
        unquoted_end(s, i + 1)
    } else {
        i
    }
}

/// The first position at or after `i` holding `c`.
pub open spec fn find_char(s: Seq<char>, i: int, c: char) -> Option<int>
    decreases s.len() - i,
{
    if 0 <= i < s.len() {
        if s[i] == c {
            Some(i)
        } else {
            find_char(s, i + 1, c)
        }
    } else {
        None
    }
}

/// The position after the first `-->` at or after `i`.
pub open spec fn comment_end(s: Seq<char>, i: int) -> Option<int>
    decreases s.len() - i,
{
    if 0 <= i && i + 3 <= s.len() {
        if s[i] == '-' && s[i + 1] == '-' && s[i + 2] == '>' {
            Some(i + 3)
        } else {
            comment_end(s, i + 1)
        }
    } else {
        None
    }
}

proof fn lemma_hws_end_bounds(s: Seq<char>, i: int)
    requires
        0 <= i <= s.len(),
    ensures
        i <= hws_end(s, i) <= s.len(),
        hws_end(s, i) < s.len() ==> !h_ws(s[hws_end(s, i)]),
    decreases s.len() - i,
{
    if i < s.len() && h_ws(s[i]) {
        lemma_hws_end_bounds(s, i + 1);
    }
}

proof fn lemma_attr_name_end_bounds(s: Seq<char>, i: int)
    requires
        0 <= i <= s.len(),
    ensures
        i <= attr_name_end(s, i) <= s.len(),
    decreases s.len() - i,
{
    if i < s.len() && !is_attr_name_end(s[i]) {
        lemma_attr_name_end_bounds(s, i + 1);
    }
}

proof fn lemma_tag_name_end_bounds(s: Seq<char>, i: int)
    requires
        0 <= i <= s.len(),
    ensures
        i <= tag_name_end(s, i) <= s.len(),
    decreases s.len() - i,
{
    if i < s.len() && is_alnum(s[i]) {
        lemma_tag_name_end_bounds(s, i + 1);
    }
}

proof fn lemma_unquoted_end_bounds(s: Seq<char>, i: int)
    requires
        0 <= i <= s.len(),
    ensures
        i <= unquoted_end(s, i) <= s.len(),
    decreases s.len() - i,
{
    if i < s.len() && !is_unquoted_end(s[i]) {
        lemma_unquoted_end_bounds(s, i + 1);
    }
}

proof fn lemma_find_char_bounds(s: Seq<char>, i: int, c: char)
    ensures
        match find_char(s, i, c) {
            Some(j) => i <= j < s.len() && s[j] == c,
            None => true,
        },
    decreases s.len() - i,
{
    if 0 <= i < s.len() && s[i] != c {
        lemma_find_char_bounds(s, i + 1, c);
    }
}

proof fn lemma_comment_end_bounds(s: Seq<char>, i: int)
    ensures
        match comment_end(s, i) {
            Some(j) => i + 3 <= j <= s.len(),
            None => true,
        },
    decreases s.len() - i,
{
    if 0 <= i && i + 3 <= s.len() {
        if !(s[i] == '-' && s[i + 1] == '-' && s[i + 2] == '>') {
            lemma_comment_end_bounds(s, i + 1);
        }
    }
}

/// Reads the attribute section of a tag from `i`: yields the value of the
/// first attribute whose folded name is `name` (an earlier `found` value is
/// kept), and the position after the closing `>`. An unterminated tag
/// yields nothing.
pub open spec fn scan_attrs(s: Seq<char>, i: int, name: Seq<char>, found: Option<Seq<char>>) -> Option<
    (Option<Seq<char>>, int),
>
    decreases s.len() - i,
    via scan_attrs_via
{
    let w = hws_end(s, i);
    if w < 0 || w >= s.len() {
        None
    } else if s[w] == '>' {
        Some((found, w + 1))
    } else if s[w] == '/' || s[w] == '=' {
        scan_attrs(s, w + 1, name, found)
    } else {
        let p = attr_name_end(s, w);
        let an = lower_seq(s.subrange(w, p));
        let w2 = hws_end(s, p);
        if w2 < s.len() && s[w2] == '=' {
            let w3 = hws_end(s, w2 + 1);
            if w3 >= s.len() {
                None
            } else if s[w3] == '"' || s[w3] == '\'' {
                match find_char(s, w3 + 1, s[w3]) {
                    None => None,
                    Some(q) => {
                        let f2 = if found is Some {
                            found
                        } else if an == name {
                            Some(s.subrange(w3 + 1, q))
                        } else {
                            None
                        };
                        scan_attrs(s, q + 1, name, f2)
                    },
                }
            } else if s[w3] == '>' {
                let f2 = if found is Some {
                    found
                } else if an == name {
                    Some(Seq::empty())
                } else {
                    None
                };
                Some((f2, w3 + 1))
            } else {
                let ve = unquoted_end(s, w3);
                let f2 = if found is Some {
                    found
                } else if an == name {
                    Some(s.subrange(w3, ve))
                } else {
                    None
                };
                scan_attrs(s, ve, name, f2)
            }
        } else {
            let f2 = if found is Some {
                found
            } else if an == name {
                Some(Seq::empty())
            } else {
                None
            };
            scan_attrs(s, p, name, f2)
        }
    }
}

#[via_fn]
proof fn scan_attrs_via(s: Seq<char>, i: int, name: Seq<char>, found: Option<Seq<char>>) {
    let w = hws_end(s, i);
    if 0 <= i <= s.len() {
        lemma_hws_end_bounds(s, i);
    }
    if 0 <= w < s.len() && s[w] != '>' && s[w] != '/' && s[w] != '=' {
        lemma_attr_name_end_bounds(s, w + 1);
        let p = attr_name_end(s, w);
        assert(p == attr_name_end(s, w + 1));
        lemma_hws_end_bounds(s, p);
        let w2 = hws_end(s, p);
        if w2 < s.len() && s[w2] == '=' {
            lemma_hws_end_bounds(s, w2 + 1);
            let w3 = hws_end(s, w2 + 1);
            if w3 < s.len() {
                if s[w3] == '"' || s[w3] == '\'' {
                    lemma_find_char_bounds(s, w3 + 1, s[w3]);
                } else if s[w3] != '>' {
                    lemma_unquoted_end_bounds(s, w3 + 1);
                    assert(unquoted_end(s, w3) == unquoted_end(s, w3 + 1));
                }
            }
        }
    }
}

proof fn lemma_scan_attrs_bounds(s: Seq<char>, i: int, name: Seq<char>, found: Option<Seq<char>>)
    ensures
        match scan_attrs(s, i, name, found) {
            Some(p) => i < p.1 <= s.len(),
            None => true,
        },
    decreases s.len() - i,
{
    let w = hws_end(s, i);
    if 0 <= i <= s.len() {
        lemma_hws_end_bounds(s, i);
    }
    if w < 0 || w >= s.len() {
    } else if s[w] == '>' {
    } else if s[w] == '/' || s[w] == '=' {
        lemma_scan_attrs_bounds(s, w + 1, name, found);
    } else {
        lemma_attr_name_end_bounds(s, w + 1);
        let p = attr_name_end(s, w);
        assert(p == attr_name_end(s, w + 1));
        lemma_hws_end_bounds(s, p);
        let w2 = hws_end(s, p);
        let an = lower_seq(s.subrange(w, p));
        if w2 < s.len() && s[w2] == '=' {
            lemma_hws_end_bounds(s, w2 + 1);
            let w3 = hws_end(s, w2 + 1);
            if w3 >= s.len() {
            } else if s[w3] == '"' || s[w3] == '\'' {
                lemma_find_char_bounds(s, w3 + 1, s[w3]);
                match find_char(s, w3 + 1, s[w3]) {
                    None => {},
                    Some(q) => {
                        let f2 = if found is Some {
                            found
                        } else if an == name {
                            Some(s.subrange(w3 + 1, q))
                        } else {
                            None
                        };
                        lemma_scan_attrs_bounds(s, q + 1, name, f2);
                    },
                }
            } else if s[w3] == '>' {
            } else {
                lemma_unquoted_end_bounds(s, w3 + 1);
                let ve = unquoted_end(s, w3);
                assert(ve == unquoted_end(s, w3 + 1));
                let f2 = if found is Some {
                    found
                } else if an == name {
                    Some(s.subrange(w3, ve))
                } else {
                    None
                };
                lemma_scan_attrs_bounds(s, ve, name, f2);
            }
        } else {
            let f2 = if found is Some {
                found
            } else if an == name {
                Some(Seq::empty())
            } else {
                None
            };
            lemma_scan_attrs_bounds(s, p, name, f2);
        }
    }
}

/// True at the start of an HTML comment.
pub open spec fn at_comment(s: Seq<char>, t: int) -> bool {
    t + 4 <= s.len() && s[t + 1] == '!' && s[t + 2] == '-' && s[t + 3] == '-'
}

/// Finds the position after the first `div` open tag whose `id` attribute
/// value is `meteograma`, scanning from `i`.
pub open spec fn scan_div(s: Seq<char>, i: int) -> Option<int>
    decreases s.len() - i,
    via scan_div_via
{
    match find_char(s, i, '<') {
        None => None,
        Some(t) => {
            if t + 1 >= s.len() {
                None
            } else if at_comment(s, t) {
                match comment_end(s, t + 4) {
                    None => None,
                    Some(e) => scan_div(s, e),
                }
            } else if s[t + 1] == '!' || s[t + 1] == '?' || s[t + 1] == '/' {
                match find_char(s, t + 1, '>') {
                    None => None,
                    Some(g) => scan_div(s, g + 1),
                }
            } else if is_alnum(s[t + 1]) {
                let ne = tag_name_end(s, t + 1);
                let nm = lower_seq(s.subrange(t + 1, ne));
                match scan_attrs(s, ne, id_name(), None) {
                    None => None,
                    Some((idv, end)) => {
                        if nm == div_name() && idv == Some(target_id()) {
                            Some(end)
                        } else {
                            scan_div(s, end)
                        }
                    },
                }
            } else {
                scan_div(s, t + 1)
            }
        },
    }
}

#[via_fn]
proof fn scan_div_via(s: Seq<char>, i: int) {
    lemma_find_char_bounds(s, i, '<');
    match find_char(s, i, '<') {
        None => {},
        Some(t) => {
            if t + 1 >= s.len() {
            } else if at_comment(s, t) {
                lemma_comment_end_bounds(s, t + 4);
            } else if s[t + 1] == '!' || s[t + 1] == '?' || s[t + 1] == '/' {
                lemma_find_char_bounds(s, t + 1, '>');
            } else if is_alnum(s[t + 1]) {
                lemma_tag_name_end_bounds(s, t + 1);
                let ne = tag_name_end(s, t + 1);
                lemma_scan_attrs_bounds(s, ne, id_name(), None);
            }
        },
    }
}

/// Inside the target element at nesting `depth`, finds the `src` value of
/// the first `img` tag, scanning from `i`. Yields nothing once the subtree
/// closes, at the end of input, and for a first `img` without `src`.
pub open spec fn scan_img(s: Seq<char>, i: int, depth: int) -> Option<Seq<char>>
    decreases s.len() - i,
    via scan_img_via
{
    match find_char(s, i, '<') {
        None => None,
        Some(t) => {
            if t + 1 >= s.len() {
                None
            } else if at_comment(s, t) {
                match comment_end(s, t + 4) {
                    None => None,
                    Some(e) => scan_img(s, e, depth),
                }
            } else if s[t + 1] == '!' || s[t + 1] == '?' {
                match find_char(s, t + 1, '>') {
                    None => None,
                    Some(g) => scan_img(s, g + 1, depth),
                }
            } else if s[t + 1] == '/' {
                let ne = tag_name_end(s, t + 2);
                let nm = lower_seq(s.subrange(t + 2, ne));
                match find_char(s, t + 1, '>') {
                    None => None,
                    Some(g) => {
                        if nm == div_name() {
                            if depth <= 1 {
                                None
                            } else {
                                scan_img(s, g + 1, depth - 1)
                            }
                        } else {
                            scan_img(s, g + 1, depth)
                        }
                    },
                }
            } else if is_alnum(s[t + 1]) {
                let ne = tag_name_end(s, t + 1);
                let nm = lower_seq(s.subrange(t + 1, ne));
                match scan_attrs(s, ne, src_name(), None) {
                    None => None,
                    Some((srcv, end)) => {
                        if nm == img_name() {
                            srcv
                        } else if nm == div_name() {
                            scan_img(s, end, depth + 1)
                        } else {
                            scan_img(s, end, depth)
                        }
                    },
                }
            } else {
                scan_img(s, t + 1, depth)
            }
        },
    }
}

#[via_fn]
proof fn scan_img_via(s: Seq<char>, i: int, depth: int) {
    lemma_find_char_bounds(s, i, '<');
    match find_char(s, i, '<') {
        None => {},
        Some(t) => {
            if t + 1 >= s.len() {
            } else if at_comment(s, t) {
                lemma_comment_end_bounds(s, t + 4);
            } else if s[t + 1] == '!' || s[t + 1] == '?' || s[t + 1] == '/' {
                lemma_find_char_bounds(s, t + 1, '>');
            } else if is_alnum(s[t + 1]) {
                lemma_tag_name_end_bounds(s, t + 1);
                let ne = tag_name_end(s, t + 1);
                lemma_scan_attrs_bounds(s, ne, src_name(), None);
            }
        },
    }
}

/// The meteogram image URL a forecast page denotes, if any: the `src` of
/// the first `img` inside the first `div` with `id` `meteograma`.
pub open spec fn locate_spec(s: Seq<char>) -> Option<Seq<char>> {
    match scan_div(s, 0) {
        None => None,
        Some(j) => scan_img(s, j, 1),
    }
}

/// The view of an optional character vector.
pub open spec fn opt_chars_view(o: Option<Vec<char>>) -> Option<Seq<char>> {
    match o {
        Some(v) => Some(v@),
        None => None,
    }
}

fn hws_end_exec(chars: &Vec<char>, i: usize) -> (j: usize)
    requires
        i <= chars@.len(),
    ensures
        j as int == hws_end(chars@, i as int),
        i <= j <= chars@.len(),
{
    let mut k = i;
    while k < chars.len() && (chars[k] == ' ' || chars[k] == '\t' || chars[k] == '\n' || chars[k]
        == '\r' || chars[k] == '\u{c}')
        invariant
            i <= k <= chars@.len(),
            hws_end(chars@, k as int) == hws_end(chars@, i as int),
        decreases chars@.len() - k,
    {
        k = k + 1;
    }
    k
}

fn find_char_exec(chars: &Vec<char>, i: usize, c: char) -> (r: Option<usize>)
    requires
        i <= chars@.len(),
    ensures
        match r {
            Some(j) => find_char(chars@, i as int, c) == Some(j as int) && i <= j < chars@.len(),
            None => find_char(chars@, i as int, c) is None,
        },
{
    let mut k = i;
    while k < chars.len() && chars[k] != c
        invariant
            i <= k <= chars@.len(),
            find_char(chars@, k as int, c) == find_char(chars@, i as int, c),
        decreases chars@.len() - k,
    {
        k = k + 1;
    }
    if k < chars.len() {
        Some(k)
    } else {
        None
    }
}

fn tag_name_end_exec(chars: &Vec<char>, i: usize) -> (j: usize)
    requires
        i <= chars@.len(),
    ensures
        j as int == tag_name_end(chars@, i as int),
        i <= j <= chars@.len(),
{
    let mut k = i;
    while k < chars.len() && ((0x41 <= chars[k] as u32 && chars[k] as u32 <= 0x5A) || (0x61
        <= chars[k] as u32 && chars[k] as u32 <= 0x7A) || (0x30 <= chars[k] as u32 && chars[k]
        as u32 <= 0x39))
        invariant
            i <= k <= chars@.len(),
            tag_name_end(chars@, k as int) == tag_name_end(chars@, i as int),
        decreases chars@.len() - k,
    {
        k = k + 1;
    }
    k
}

fn attr_name_end_exec(chars: &Vec<char>, i: usize) -> (j: usize)
    requires
        i <= chars@.len(),
    ensures
        j as int == attr_name_end(chars@, i as int),
        i <= j <= chars@.len(),
{
    let mut k = i;
    while k < chars.len() && !(chars[k] == ' ' || chars[k] == '\t' || chars[k] == '\n' || chars[k]
        == '\r' || chars[k] == '\u{c}' || chars[k] == '=' || chars[k] == '/' || chars[k] == '>')
        invariant
            i <= k <= chars@.len(),
            attr_name_end(chars@, k as int) == attr_name_end(chars@, i as int),
        decreases chars@.len() - k,
    {
        k = k + 1;
    }
    k
}

fn unquoted_end_exec(chars: &Vec<char>, i: usize) -> (j: usize)
    requires
        i <= chars@.len(),
    ensures
        j as int == unquoted_end(chars@, i as int),
        i <= j <= chars@.len(),
{
    let mut k = i;
    while k < chars.len() && !(chars[k] == ' ' || chars[k] == '\t' || chars[k] == '\n' || chars[k]
        == '\r' || chars[k] == '\u{c}' || chars[k] == '>')
        invariant
            i <= k <= chars@.len(),
            unquoted_end(chars@, k as int) == unquoted_end(chars@, i as int),
        decreases chars@.len() - k,
    {
        k = k + 1;
    }
    k
}

fn comment_end_exec(chars: &Vec<char>, i: usize) -> (r: Option<usize>)
    requires
        i <= chars@.len(),
    ensures
        match r {
            Some(j) => comment_end(chars@, i as int) == Some(j as int) && j <= chars@.len(),
            None => comment_end(chars@, i as int) is None,
        },
{
    let n = chars.len();
    let mut k = i;
    while n - k >= 3 && !(chars[k] == '-' && chars[k + 1] == '-' && chars[k + 2] == '>')
        invariant
            i <= k <= n,
            n == chars@.len(),
            comment_end(chars@, k as int) == comment_end(chars@, i as int),
        decreases n - k,
    {
        k = k + 1;
    }
    if n - k >= 3 {
        Some(k + 3)
    } else {
        None
    }
}

fn lower_exec(c: char) -> (r: char)
    ensures
        r == lower(c),
{
    let u = c as u32;
    if 0x41 <= u && u <= 0x5A {
        match char_from_u32(u + 0x20) {
            Some(d) => {
                proof {
                    vstd::utf8::char_u32_cast(d, (u + 0x20) as u32);
                }
                d
            },
            None => {
                proof {
                    assert(false);
                }
                c
            },
        }
    } else {
        c
    }
}

/// Whether the name at `lo..hi`, folded to lower case, is `expected`.
fn lower_name_is(chars: &Vec<char>, lo: usize, hi: usize, expected: &Vec<char>) -> (r: bool)
    requires
        lo <= hi <= chars@.len(),
    ensures
        r == (lower_seq(chars@.subrange(lo as int, hi as int)) == expected@),
{
    let ghost sub = lower_seq(chars@.subrange(lo as int, hi as int));
    if hi - lo != expected.len() {
        proof {
            assert(sub.len() != expected@.len());
        }
        return false;
    }
    let mut t: usize = 0;
    while t < expected.len()
        invariant
            lo <= hi <= chars@.len(),
            hi - lo == expected@.len(),
            t <= expected@.len(),
            sub == lower_seq(chars@.subrange(lo as int, hi as int)),
            forall|x: int| 0 <= x < t ==> sub[x] == expected@[x],
        decreases expected@.len() - t,
    {
        let lc = lower_exec(chars[lo + t]);
        if lc != expected[t] {
            proof {
                assert(sub[t as int] == lower(chars@[lo + t]));
            }
            return false;
        }
        proof {
            assert(sub[t as int] == lower(chars@[lo + t]));
        }
        t = t + 1;
    }
    proof {
        assert(sub =~= expected@);
    }
    true
}

/// Whether two character vectors hold the same text.
fn chars_eq(a: &Vec<char>, b: &Vec<char>) -> (r: bool)
    ensures
        r == (a@ == b@),
{
    if a.len() != b.len() {
        return false;
    }
    let mut t: usize = 0;
    while t < a.len()
        invariant
            a@.len() == b@.len(),
            t <= a@.len(),
            forall|x: int| 0 <= x < t ==> a@[x] == b@[x],
        decreases a@.len() - t,
    {
        if a[t] != b[t] {
            return false;
        }
        t = t + 1;
    }
    proof {
        assert(a@ =~= b@);
    }
    true
}

fn chars_sub(chars: &Vec<char>, lo: usize, hi: usize) -> (r: Vec<char>)
    requires
        lo <= hi <= chars@.len(),
    ensures
        r@ == chars@.subrange(lo as int, hi as int),
{
    let mut out: Vec<char> = Vec::new();
    let mut t = lo;
    while t < hi
        invariant
            lo <= t <= hi <= chars@.len(),
            out@ == chars@.subrange(lo as int, t as int),
        decreases hi - t,
    {
        out.push(chars[t]);
        proof {
            assert(out@ =~= chars@.subrange(lo as int, t + 1 as int));
        }
        t = t + 1;
    }
    out
}

/// Reads a tag's attribute section, looking for `name`.
fn scan_attrs_exec(chars: &Vec<char>, i: usize, name: &Vec<char>) -> (r: Option<
    (Option<Vec<char>>, usize),
>)
    requires
        i <= chars@.len(),
    ensures
        match r {
            Some(p) => scan_attrs(chars@, i as int, name@, None) == Some(
                (opt_chars_view(p.0), p.1 as int),
            ) && i < p.1 <= chars@.len(),
            None => scan_attrs(chars@, i as int, name@, None) is None,
        },
{
    let n = chars.len();
    let mut found: Option<Vec<char>> = None;
    let mut k = i;
    proof {
        lemma_scan_attrs_bounds(chars@, i as int, name@, None);
    }
    loop
        invariant
            n == chars@.len(),
            i <= k <= n,
            scan_attrs(chars@, k as int, name@, opt_chars_view(found)) == scan_attrs(
                chars@,
                i as int,
                name@,
                None,
            ),
        decreases n - k,
    {
        let ghost found0 = opt_chars_view(found);
        let w = hws_end_exec(chars, k);
        proof {
            lemma_hws_end_bounds(chars@, k as int);
        }
        if w >= n {
            return None;
        }
        let cw = chars[w];
        if cw == '>' {
            return Some((found, w + 1));
        }
        if cw == '/' || cw == '=' {
            k = w + 1;
            continue ;
        }
        let p = attr_name_end_exec(chars, w);
        proof {
            assert(p as int == attr_name_end(chars@, w + 1 as int));
            lemma_attr_name_end_bounds(chars@, w + 1 as int);
        }
        let matches_name = lower_name_is(chars, w, p, name);
        let w2 = hws_end_exec(chars, p);
        if w2 < n && chars[w2] == '=' {
            let w3 = hws_end_exec(chars, w2 + 1);
            proof {
                lemma_hws_end_bounds(chars@, w2 + 1 as int);
            }
            if w3 >= n {
                return None;
            }
            let cq = chars[w3];
            if cq == '"' || cq == '\'' {
                match find_char_exec(chars, w3 + 1, cq) {
                    None => {
                        return None;
                    },
                    Some(q) => {
                        if found.is_none() && matches_name {
                            found = Some(chars_sub(chars, w3 + 1, q));
                        }
                        k = q + 1;
                    },
                }
            } else if cq == '>' {
                if found.is_none() && matches_name {
                    found = Some(Vec::new());
                    proof {
                        assert(opt_chars_view(found) == Some(Seq::<char>::empty()));
                    }
                }
                return Some((found, w3 + 1));
            } else {
                let ve = unquoted_end_exec(chars, w3);
                proof {
                    assert(ve as int == unquoted_end(chars@, w3 + 1 as int));
                    lemma_unquoted_end_bounds(chars@, w3 + 1 as int);
                }
                if found.is_none() && matches_name {
                    found = Some(chars_sub(chars, w3, ve));
                }
                k = ve;
            }
        } else {
            if found.is_none() && matches_name {
                found = Some(Vec::new());
                proof {
                    assert(opt_chars_view(found) == Some(Seq::<char>::empty()));
                }
            }
            k = p;
        }
    }
}

/// Finds the first `img` tag's `src` value from the opened target `div`.
fn scan_img_exec(chars: &Vec<char>, start: usize) -> (r: Option<Vec<char>>)
    requires
        start <= chars@.len(),
        start >= 1,
    ensures
        match r {
            Some(v) => scan_img(chars@, start as int, 1) == Some(v@),
            None => scan_img(chars@, start as int, 1) is None,
        },
{
    let n = chars.len();
    let div_chars: Vec<char> = vec!['d', 'i', 'v'];
    let img_chars: Vec<char> = vec!['i', 'm', 'g'];
    let src_chars: Vec<char> = vec!['s', 'r', 'c'];
    proof {
        assert(div_chars@ =~= div_name());
        assert(img_chars@ =~= img_name());
        assert(src_chars@ =~= src_name());
    }
    let mut k = start;
    let mut depth: usize = 1;
    loop
        invariant
            n == chars@.len(),
            k <= n,
            1 <= depth <= k,
            div_chars@ == div_name(),
            img_chars@ == img_name(),
            src_chars@ == src_name(),
            scan_img(chars@, k as int, depth as int) == scan_img(chars@, start as int, 1),
        decreases n - k,
    {
        let t = match find_char_exec(chars, k, '<') {
            None => {
                return None;
            },
            Some(t) => t,
        };
        if t + 1 >= n {
            return None;
        }
        if n - t >= 4 && chars[t + 1] == '!' && chars[t + 2] == '-' && chars[t + 3] == '-' {
            match comment_end_exec(chars, t + 4) {
                None => {
                    return None;
                },
                Some(e) => {
                    proof {
                        lemma_comment_end_bounds(chars@, t + 4 as int);
                    }
                    k = e;
                },
            }
        } else if chars[t + 1] == '!' || chars[t + 1] == '?' {
            match find_char_exec(chars, t + 1, '>') {
                None => {
                    return None;
                },
                Some(g) => {
                    k = g + 1;
                },
            }
        } else if chars[t + 1] == '/' {
            let ne = tag_name_end_exec(chars, t + 2);
            let is_div = lower_name_is(chars, t + 2, ne, &div_chars);
            match find_char_exec(chars, t + 1, '>') {
                None => {
                    return None;
                },
                Some(g) => {
                    if is_div {
                        if depth <= 1 {
                            return None;
                        }
                        depth = depth - 1;
                    }
                    k = g + 1;
                },
            }
        } else {
            let u1 = chars[t + 1] as u32;
            let alnum = (0x41 <= u1 && u1 <= 0x5A) || (0x61 <= u1 && u1 <= 0x7A) || (0x30 <= u1
                && u1 <= 0x39);
            if alnum {
                let ne = tag_name_end_exec(chars, t + 1);
                let is_img = lower_name_is(chars, t + 1, ne, &img_chars);
                let is_div = lower_name_is(chars, t + 1, ne, &div_chars);
                match scan_attrs_exec(chars, ne, &src_chars) {
                    None => {
                        return None;
                    },
                    Some((srcv, end)) => {
                        if is_img {
                            return srcv;
                        }
                        if is_div {
                            proof {
                                assert(lower_seq(
                                    chars@.subrange(t + 1 as int, ne as int),
                                ).len() == 3);
                                assert(ne == t + 4);
                            }
                            depth = depth + 1;
                        }
                        k = end;
                    },
                }
            } else {
                k = t + 1;
            }
        }
    }
}

/// The image URL of the meteogram embedded in a forecast page, if the page
/// holds the expected structure: the `src` of the first `img` inside the
/// first `div` whose `id` is `meteograma`.
pub fn locate_meteogram_url(html: &str) -> (r: Option<String>)
    ensures
        match r {
            Some(u) => locate_spec(html@) == Some(u@),
            None => locate_spec(html@) is None,
        },
{
    let chars = str_to_chars(html);
    let n = chars.len();
    let div_chars: Vec<char> = vec!['d', 'i', 'v'];
    let id_chars: Vec<char> = vec!['i', 'd'];
    let target_chars: Vec<char> = vec!['m', 'e', 't', 'e', 'o', 'g', 'r', 'a', 'm', 'a'];
    proof {
        assert(div_chars@ =~= div_name());
        assert(id_chars@ =~= id_name());
        assert(target_chars@ =~= target_id());
    }
    let mut k: usize = 0;
    loop
        invariant
            n == chars@.len(),
            chars@ == html@,
            k <= n,
            div_chars@ == div_name(),
            id_chars@ == id_name(),
            target_chars@ == target_id(),
            scan_div(chars@, k as int) == scan_div(chars@, 0),
        decreases n - k,
    {
        let t = match find_char_exec(&chars, k, '<') {
            None => {
                return None;
            },
            Some(t) => t,
        };
        if t + 1 >= n {
            return None;
        }
        if n - t >= 4 && chars[t + 1] == '!' && chars[t + 2] == '-' && chars[t + 3] == '-' {
            match comment_end_exec(&chars, t + 4) {
                None => {
                    return None;
                },
                Some(e) => {
                    proof {
                        lemma_comment_end_bounds(chars@, t + 4 as int);
                    }
                    k = e;
                },
            }
        } else if chars[t + 1] == '!' || chars[t + 1] == '?' || chars[t + 1] == '/' {
            match find_char_exec(&chars, t + 1, '>') {
                None => {
                    return None;
                },
                Some(g) => {
                    k = g + 1;
                },
            }
        } else {
            let u1 = chars[t + 1] as u32;
            let alnum = (0x41 <= u1 && u1 <= 0x5A) || (0x61 <= u1 && u1 <= 0x7A) || (0x30 <= u1
                && u1 <= 0x39);
            if alnum {
                let ne = tag_name_end_exec(&chars, t + 1);
                let is_div = lower_name_is(&chars, t + 1, ne, &div_chars);
                match scan_attrs_exec(&chars, ne, &id_chars) {
                    None => {
                        return None;
                    },
                    Some((idv, end)) => {
                        let id_matches = match idv {
                            Some(ref v) => chars_eq(v, &target_chars),
                            None => false,
                        };
                        if is_div && id_matches {
                            // the target element is open; look for the image
                            match scan_img_exec(&chars, end) {
                                Some(v) => {
                                    let url = string_from_chars(v.as_slice());
                                    return Some(url);
                                },
                                None => {
                                    return None;
                                },
                            }
                        }
                        k = end;
                    },
                }
            } else {
                k = t + 1;
            }
        }
    }
}

} // verus!

//! Parsing the autocomplete response: a JSON array of city objects, each an
//! object with exactly the four string fields `id`, `label`, `value` and
//! `custom`, in any key order. Anything else — another top-level value, a
//! non-string field, a missing, repeated or unknown key, or trailing text —
//! is a shape mismatch.
//!
//! The grammar is stated by the spec functions below; the executable parser
//! is proved to return exactly what they denote.

use crate::city::{City, CityView};
use crate::errors::Error;
use crate::text::{char_from_u32, push_char, str_to_chars};
use vstd::prelude::*;
use vstd::string::StringExecFns;

verus! {

/// JSON insignificant whitespace.
pub open spec fn is_json_ws(c: char) -> bool {
    c == ' ' || c == '\t' || c == '\n' || c == '\r'
}

/// The first position at or after `i` holding no whitespace.
pub open spec fn skip_ws(s: Seq<char>, i: int) -> int
    decreases s.len() - i,
{
    if 0 <= i < s.len() && is_json_ws(s[i]) {
        skip_ws(s, i + 1)
    } else {
        i
    }
}

/// The value of one hexadecimal digit, upper or lower case.
pub open spec fn hex_char_val(c: char) -> Option<int> {
    let u = c as u32;
    if 0x30 <= u <= 0x39 {
        Some(u as int - 0x30)
    } else if 0x41 <= u <= 0x46 {
        Some(u as int - 0x41 + 10)
    } else if 0x61 <= u <= 0x66 {
        Some(u as int - 0x61 + 10)
    } else {
        None
    }
}

/// The value of the four hexadecimal digits at `i`.
pub open spec fn hex4_val(s: Seq<char>, i: int) -> Option<int> {
    if 0 <= i && i + 4 <= s.len() {
        match (hex_char_val(s[i]), hex_char_val(s[i + 1]), hex_char_val(s[i + 2]), hex_char_val(
            s[i + 3],
        )) {
            (Some(a), Some(b), Some(c), Some(d)) => Some(a * 4096 + b * 256 + c * 16 + d),
            _ => None,
        }
    } else {
        None
    }
}

/// The character denoted by a one-character escape, if the escape is legal.
pub open spec fn escape_char(c: char) -> Option<char> {
    if c == '"' {
        Some('"')
    } else if c == '\\' {
        Some('\\')
    } else if c == '/' {
        Some('/')
    } else if c == 'b' {
        Some('\u{8}')
    } else if c == 'f' {
        Some('\u{c}')
    } else if c == 'n' {
        Some('\n')
    } else if c == 'r' {
        Some('\r')
    } else if c == 't' {
        Some('\t')
    } else {
        None
    }
}

/// The remainder of a string literal starting at `i`, inside the quotes,
/// with `acc` already read: yields the decoded text and the position after
/// the closing quote. Raw control characters, bad escapes, `\u` escapes in
/// the surrogate range and unterminated literals all fail.
pub open spec fn parse_string_body(s: Seq<char>, i: int, acc: Seq<char>) -> Option<
    (Seq<char>, int),
>
    decreases s.len() - i,
{
    if i < 0 || i >= s.len() {
        None
    } else if s[i] == '"' {
        Some((acc, i + 1))
    } else if s[i] == '\\' {
        if i + 1 >= s.len() {
            None
        } else if s[i + 1] == 'u' {
            match hex4_val(s, i + 2) {
                Some(v) => if 0xD800 <= v <= 0xDFFF {
                    None
                } else {
                    parse_string_body(s, i + 6, acc.push(((v as u32) as char)))
                },
                None => None,
            }
        } else {
            match escape_char(s[i + 1]) {
                Some(c) => parse_string_body(s, i + 2, acc.push(c)),
                None => None,
            }
        }
    } else if (s[i] as u32) < 0x20 {
        None
    } else {
        parse_string_body(s, i + 1, acc.push(s[i]))
    }
}

/// A whole string literal at `i`: an opening quote, a body, a closing quote.
pub open spec fn parse_json_string(s: Seq<char>, i: int) -> Option<(Seq<char>, int)> {
    if 0 <= i < s.len() && s[i] == '"' {
        parse_string_body(s, i + 1, Seq::empty())
    } else {
        None
    }
}

/// A city object while its members are being read.
pub struct Partial {
    pub id: Option<Seq<char>>,
    pub label: Option<Seq<char>>,
    pub value: Option<Seq<char>>,
    pub custom: Option<Seq<char>>,
}

/// No member read yet.
pub open spec fn empty_partial() -> Partial {
    Partial { id: None, label: None, value: None, custom: None }
}

/// Records one member. An unknown key, or a key seen twice, is a mismatch.
pub open spec fn set_field(p: Partial, key: Seq<char>, val: Seq<char>) -> Option<Partial> {
    if key == "id"@ {
        if p.id is None {
            Some(Partial { id: Some(val), ..p })
        } else {
            None
        }
    } else if key == "label"@ {
        if p.label is None {
            Some(Partial { label: Some(val), ..p })
        } else {
            None
        }
    } else if key == "value"@ {
        if p.value is None {
            Some(Partial { value: Some(val), ..p })
        } else {
            None
        }
    } else if key == "custom"@ {
        if p.custom is None {
            Some(Partial { custom: Some(val), ..p })
        } else {
            None
        }
    } else {
        None
    }
}

proof fn lemma_skip_ws_bounds(s: Seq<char>, i: int)
    requires
        0 <= i <= s.len(),
    ensures
        i <= skip_ws(s, i) <= s.len(),
    decreases s.len() - i,
{
    if i < s.len() && is_json_ws(s[i]) {
        lemma_skip_ws_bounds(s, i + 1);
    }
}

proof fn lemma_string_body_bounds(s: Seq<char>, i: int, acc: Seq<char>)
    ensures
        match parse_string_body(s, i, acc) {
            Some(p) => i < p.1 <= s.len(),
            None => true,
        },
    decreases s.len() - i,
{
    if 0 <= i < s.len() {
        if s[i] == '"' {
        } else if s[i] == '\\' {
            if i + 1 < s.len() {
                if s[i + 1] == 'u' {
                    match hex4_val(s, i + 2) {
                        Some(v) => {
                            if !(0xD800 <= v <= 0xDFFF) {
                                lemma_string_body_bounds(s, i + 6, acc.push(((v as u32) as char)));
                            }
                        },
                        None => {},
                    }
                } else {
                    match escape_char(s[i + 1]) {
                        Some(c) => {
                            lemma_string_body_bounds(s, i + 2, acc.push(c));
                        },
                        None => {},
                    }
                }
            }
        } else if (s[i] as u32) < 0x20 {
        } else {
            lemma_string_body_bounds(s, i + 1, acc.push(s[i]));
        }
    }
}

proof fn lemma_json_string_bounds(s: Seq<char>, i: int)
    ensures
        match parse_json_string(s, i) {
            Some(p) => i + 1 < p.1 <= s.len(),
            None => true,
        },
{
    if 0 <= i < s.len() && s[i] == '"' {
        lemma_string_body_bounds(s, i + 1, Seq::empty());
    }
}

/// The members of a city object from `i` (at a key) to the closing brace:
/// `"key" : "value"` pairs separated by commas.
pub open spec fn parse_members(s: Seq<char>, i: int, p: Partial) -> Option<(Partial, int)>
    decreases s.len() - i,
    via parse_members_via
{
    match parse_json_string(s, i) {
        None => None,
        Some((key, j)) => {
            let j1 = skip_ws(s, j);
            if j1 < s.len() && s[j1] == ':' {
                let j2 = skip_ws(s, j1 + 1);
                match parse_json_string(s, j2) {
                    None => None,
                    Some((val, j3)) => match set_field(p, key, val) {
                        None => None,
                        Some(p2) => {
                            let j4 = skip_ws(s, j3);
                            if j4 < s.len() && s[j4] == ',' {
                                parse_members(s, skip_ws(s, j4 + 1), p2)
                            } else if j4 < s.len() && s[j4] == '}' {
                                Some((p2, j4 + 1))
                            } else {
                                None
                            }
                        },
                    },
                }
            } else {
                None
            }
        },
    }
}

#[via_fn]
proof fn parse_members_via(s: Seq<char>, i: int, p: Partial) {
    lemma_json_string_bounds(s, i);
    match parse_json_string(s, i) {
        None => {},
        Some((key, j)) => {
            lemma_skip_ws_bounds(s, j);
            let j1 = skip_ws(s, j);
            if j1 < s.len() && s[j1] == ':' {
                lemma_skip_ws_bounds(s, j1 + 1);
                let j2 = skip_ws(s, j1 + 1);
                lemma_json_string_bounds(s, j2);
                match parse_json_string(s, j2) {
                    None => {},
                    Some((val, j3)) => {
                        lemma_skip_ws_bounds(s, j3);
                        let j4 = skip_ws(s, j3);
                        if j4 < s.len() && s[j4] == ',' {
                            lemma_skip_ws_bounds(s, j4 + 1);
                        }
                    },
                }
            }
        },
    }
}

/// A whole city object at `i`: braces around members holding all four keys.
pub open spec fn parse_object(s: Seq<char>, i: int) -> Option<(CityView, int)> {
    if 0 <= i < s.len() && s[i] == '{' {
        let j = skip_ws(s, i + 1);
        match parse_members(s, j, empty_partial()) {
            Some((p, k)) => match (p.id, p.label, p.value, p.custom) {
                (Some(id), Some(label), Some(value), Some(custom)) => Some(
                    (CityView { id, label, value, custom }, k),
                ),
                _ => None,
            },
            None => None,
        }
    } else {
        None
    }
}

proof fn lemma_members_bounds(s: Seq<char>, i: int, p: Partial)
    ensures
        match parse_members(s, i, p) {
            Some(q) => i < q.1 <= s.len(),
            None => true,
        },
    decreases s.len() - i,
{
    lemma_json_string_bounds(s, i);
    match parse_json_string(s, i) {
        None => {},
        Some((key, j)) => {
            lemma_skip_ws_bounds(s, j);
            let j1 = skip_ws(s, j);
            if j1 < s.len() && s[j1] == ':' {
                lemma_skip_ws_bounds(s, j1 + 1);
                let j2 = skip_ws(s, j1 + 1);
                lemma_json_string_bounds(s, j2);
                match parse_json_string(s, j2) {
                    None => {},
                    Some((val, j3)) => match set_field(p, key, val) {
                        None => {},
                        Some(p2) => {
                            lemma_skip_ws_bounds(s, j3);
                            let j4 = skip_ws(s, j3);
                            if j4 < s.len() && s[j4] == ',' {
                                lemma_skip_ws_bounds(s, j4 + 1);
                                lemma_members_bounds(s, skip_ws(s, j4 + 1), p2);
                            }
                        },
                    },
                }
            }
        },
    }
}

proof fn lemma_object_bounds(s: Seq<char>, i: int)
    ensures
        match parse_object(s, i) {
            Some(p) => i < p.1 <= s.len(),
            None => true,
        },
{
    if 0 <= i < s.len() && s[i] == '{' {
        lemma_skip_ws_bounds(s, i + 1);
        lemma_members_bounds(s, skip_ws(s, i + 1), empty_partial());
    }
}

/// The elements of the array from `i` (at an object) to the closing bracket,
/// with `acc` already read.
pub open spec fn parse_elements(s: Seq<char>, i: int, acc: Seq<CityView>) -> Option<
    (Seq<CityView>, int),
>
    decreases s.len() - i,
    via parse_elements_via
{
    match parse_object(s, i) {
        None => None,
        Some((c, j)) => {
            let j1 = skip_ws(s, j);
            if j1 < s.len() && s[j1] == ',' {
                parse_elements(s, skip_ws(s, j1 + 1), acc.push(c))
            } else if j1 < s.len() && s[j1] == ']' {
                Some((acc.push(c), j1 + 1))
            } else {
                None
            }
        },
    }
}

#[via_fn]
proof fn parse_elements_via(s: Seq<char>, i: int, acc: Seq<CityView>) {
    lemma_object_bounds(s, i);
    match parse_object(s, i) {
        None => {},
        Some((c, j)) => {
            lemma_skip_ws_bounds(s, j);
            let j1 = skip_ws(s, j);
            if j1 < s.len() && s[j1] == ',' {
                lemma_skip_ws_bounds(s, j1 + 1);
            }
        },
    }
}

/// What a lookup response denotes: the city list of a well-formed JSON array
/// of city objects, and nothing for every other text.
pub open spec fn parse_cities_spec(s: Seq<char>) -> Option<Seq<CityView>> {
    let i = skip_ws(s, 0);
    if i < s.len() && s[i] == '[' {
        let j = skip_ws(s, i + 1);
        if j < s.len() && s[j] == ']' {
            if skip_ws(s, j + 1) == s.len() {
                Some(Seq::empty())
            } else {
                None
            }
        } else {
            match parse_elements(s, j, Seq::empty()) {
                Some((cs, k)) => if skip_ws(s, k) == s.len() {
                    Some(cs)
                } else {
                    None
                },
                None => None,
            }
        }
    } else {
        None
    }
}

/// The views of a sequence of cities.
pub open spec fn city_views(s: Seq<City>) -> Seq<CityView> {
    s.map_values(|c: City| c@)
}

/// Text that renders into a string literal with no escapes.
pub open spec fn plain_json_text(s: Seq<char>) -> bool {
    forall|i: int|
        0 <= i < s.len() ==> #[trigger] s[i] != '"' && s[i] != '\\' && (s[i] as u32) >= 0x20
}

/// A city whose four fields all render without escapes.
pub open spec fn plain_city(c: CityView) -> bool {
    plain_json_text(c.id) && plain_json_text(c.label) && plain_json_text(c.value)
        && plain_json_text(c.custom)
}

/// A quoted string literal.
pub open spec fn render_string(s: Seq<char>) -> Seq<char> {
    seq!['"'] + s + seq!['"']
}

/// One `"key":"value"` member.
pub open spec fn render_member(k: Seq<char>, v: Seq<char>) -> Seq<char> {
    render_string(k) + seq![':'] + render_string(v)
}

/// The members of a city object in canonical key order, with the brace
/// that closes the object.
pub open spec fn members_tail(c: CityView) -> Seq<char> {
    render_member("id"@, c.id) + seq![','] + render_member("label"@, c.label) + seq![',']
        + render_member("value"@, c.value) + seq![','] + render_member("custom"@, c.custom)
        + seq!['}']
}

/// One rendered city object.
pub open spec fn render_city(c: CityView) -> Seq<char> {
    seq!['{'] + members_tail(c)
}

/// The rendered elements of a non-empty array, comma-separated.
pub open spec fn render_elements(cs: Seq<CityView>) -> Seq<char>
    decreases cs.len(),
{
    if cs.len() == 0 {
        Seq::empty()
    } else if cs.len() == 1 {
        render_city(cs[0])
    } else {
        render_city(cs[0]) + seq![','] + render_elements(cs.drop_first())
    }
}

/// The canonical rendering of a city list as a JSON array.
pub open spec fn render_cities(cs: Seq<CityView>) -> Seq<char> {
    if cs.len() == 0 {
        seq!['[', ']']
    } else {
        seq!['['] + render_elements(cs) + seq![']']
    }
}

/// All four fields of the city, read.
pub open spec fn full_partial(c: CityView) -> Partial {
    Partial { id: Some(c.id), label: Some(c.label), value: Some(c.value), custom: Some(c.custom) }
}

proof fn lemma_skip_ws_at(s: Seq<char>, i: int)
    requires
        0 <= i < s.len() ==> !is_json_ws(s[i]),
    ensures
        skip_ws(s, i) == i,
{
}

proof fn lemma_char_at(s: Seq<char>, a: int, b: int, t: Seq<char>, k: int)
    requires
        0 <= a,
        a + t.len() == b <= s.len(),
        s.subrange(a, b) == t,
        0 <= k < t.len(),
    ensures
        s[a + k] == t[k],
{
    assert(s.subrange(a, b)[k] == s[a + k]);
}

proof fn lemma_sub_sub(s: Seq<char>, a: int, b: int, t: Seq<char>, a2: int, b2: int)
    requires
        0 <= a <= a2 <= b2 <= b <= s.len(),
        a + t.len() == b,
        s.subrange(a, b) == t,
    ensures
        s.subrange(a2, b2) == t.subrange(a2 - a, b2 - a),
{
    assert forall|k: int| 0 <= k < b2 - a2 implies s.subrange(a2, b2)[k] == t.subrange(
        a2 - a,
        b2 - a,
    )[k] by {
        assert(s.subrange(a, b)[a2 - a + k] == s[a2 + k]);
    }
    assert(s.subrange(a2, b2) =~= t.subrange(a2 - a, b2 - a));
}

proof fn lemma_parse_plain_body(s: Seq<char>, i: int, x: Seq<char>, acc: Seq<char>)
    requires
        plain_json_text(x),
        0 <= i,
        i + x.len() + 1 <= s.len(),
        s.subrange(i, i + x.len() + 1) == x + seq!['"'],
    ensures
        parse_string_body(s, i, acc) == Some((acc + x, i + x.len() + 1)),
    decreases x.len(),
{
    let t = x + seq!['"'];
    lemma_char_at(s, i, i + x.len() + 1, t, 0);
    if x.len() == 0 {
        assert(s[i] == '"');
        assert(acc + x =~= acc);
    } else {
        assert(s[i] == x[0]);
        assert(x[0] != '"' && x[0] != '\\');
        let x2 = x.drop_first();
        assert(plain_json_text(x2)) by {
            assert(forall|k: int| 0 <= k < x2.len() ==> x2[k] == x[k + 1]);
        }
        lemma_sub_sub(s, i, i + x.len() + 1, t, i + 1, i + x.len() + 1);
        assert(t.subrange(1, t.len() as int) =~= x2 + seq!['"']);
        lemma_parse_plain_body(s, i + 1, x2, acc.push(x[0]));
        assert(acc.push(x[0]) + x2 =~= acc + x);
    }
}

proof fn lemma_parse_plain_string(s: Seq<char>, i: int, x: Seq<char>)
    requires
        plain_json_text(x),
        0 <= i,
        i + x.len() + 2 <= s.len(),
        s.subrange(i, i + x.len() + 2) == render_string(x),
    ensures
        parse_json_string(s, i) == Some((x, i + x.len() + 2)),
{
    let r = render_string(x);
    lemma_char_at(s, i, i + x.len() + 2, r, 0);
    assert(s[i] == '"');
    lemma_sub_sub(s, i, i + x.len() + 2, r, i + 1, i + x.len() + 2);
    assert(r.subrange(1, r.len() as int) =~= x + seq!['"']);
    lemma_parse_plain_body(s, i + 1, x, Seq::empty());
    assert(Seq::<char>::empty() + x =~= x);
}

proof fn lemma_members_step(
    s: Seq<char>,
    i: int,
    key: Seq<char>,
    val: Seq<char>,
    p: Partial,
    p2: Partial,
)
    requires
        plain_json_text(key),
        plain_json_text(val),
        0 <= i,
        i + key.len() + val.len() + 6 <= s.len(),
        s.subrange(i, i + key.len() + val.len() + 5) == render_member(key, val),
        s[i + key.len() + val.len() + 5] == ',' || s[i + key.len() + val.len() + 5] == '}',
        set_field(p, key, val) == Some(p2),
    ensures
        s[i + key.len() + val.len() + 5] == ',' ==> parse_members(s, i, p) == parse_members(
            s,
            skip_ws(s, i + key.len() + val.len() + 6),
            p2,
        ),
        s[i + key.len() + val.len() + 5] == '}' ==> parse_members(s, i, p) == Some(
            (p2, i + key.len() + val.len() + 6),
        ),
{
    let m = render_member(key, val);
    let b = i + key.len() + val.len() + 5;
    let jk = i + key.len() + 2;
    lemma_sub_sub(s, i, b, m, i, jk);
    assert(m.subrange(0, key.len() as int + 2) =~= render_string(key));
    lemma_parse_plain_string(s, i, key);
    lemma_char_at(s, i, b, m, key.len() as int + 2);
    assert(s[jk] == ':');
    lemma_skip_ws_at(s, jk);
    let jv = jk + 1;
    lemma_sub_sub(s, i, b, m, jv, b);
    assert(m.subrange(key.len() as int + 3, m.len() as int) =~= render_string(val));
    lemma_parse_plain_string(s, jv, val);
    lemma_char_at(s, i, b, m, key.len() as int + 3);
    assert(s[jv] == '"');
    lemma_skip_ws_at(s, jv);
    lemma_skip_ws_at(s, b);
}

proof fn lemma_plain_keys()
    ensures
        plain_json_text("id"@),
        plain_json_text("label"@),
        plain_json_text("value"@),
        plain_json_text("custom"@),
        "id"@.len() == 2,
        "label"@.len() == 5,
        "value"@.len() == 5,
        "custom"@.len() == 6,
        "label"@ != "id"@,
        "value"@ != "id"@,
        "value"@ != "label"@,
        "custom"@ != "id"@,
        "custom"@ != "label"@,
        "custom"@ != "value"@,
{
    reveal_strlit("id");
    reveal_strlit("label");
    reveal_strlit("value");
    reveal_strlit("custom");
    assert("value"@[0] == 'v');
    assert("label"@[0] == 'l');
}

proof fn lemma_city_members_parse(s: Seq<char>, i: int, c: CityView)
    requires
        plain_city(c),
        0 <= i,
        i + members_tail(c).len() <= s.len(),
        s.subrange(i, i + members_tail(c).len()) == members_tail(c),
    ensures
        parse_members(s, i, empty_partial()) == Some((full_partial(c), i + members_tail(c).len())),
{
    lemma_plain_keys();
    let t = members_tail(c);
    let ln = t.len() as int;
    let b = i + ln;
    assert(ln == c.id.len() + c.label.len() + c.value.len() + c.custom.len() + 42);
    // member one: id
    let i1 = i;
    let e1 = i1 + c.id.len() + 8;
    let p1 = Partial { id: Some(c.id), label: None, value: None, custom: None };
    lemma_sub_sub(s, i, b, t, i1, e1 - 1);
    assert(t.subrange(i1 - i, e1 - 1 - i) =~= render_member("id"@, c.id));
    assert(set_field(empty_partial(), "id"@, c.id) == Some(p1));
    lemma_char_at(s, i, b, t, e1 - 1 - i);
    assert(s[e1 - 1] == ',');
    lemma_members_step(s, i1, "id"@, c.id, empty_partial(), p1);
    lemma_char_at(s, i, b, t, e1 - i);
    assert(s[e1] == '"');
    lemma_skip_ws_at(s, e1);
    // member two: label
    let i2 = e1;
    let e2 = i2 + c.label.len() + 11;
    let p2 = Partial { id: Some(c.id), label: Some(c.label), value: None, custom: None };
    lemma_sub_sub(s, i, b, t, i2, e2 - 1);
    assert(t.subrange(i2 - i, e2 - 1 - i) =~= render_member("label"@, c.label));
    assert(set_field(p1, "label"@, c.label) == Some(p2));
    lemma_char_at(s, i, b, t, e2 - 1 - i);
    assert(s[e2 - 1] == ',');
    lemma_members_step(s, i2, "label"@, c.label, p1, p2);
    lemma_char_at(s, i, b, t, e2 - i);
    assert(s[e2] == '"');
    lemma_skip_ws_at(s, e2);
    // member three: value
    let i3 = e2;
    let e3 = i3 + c.value.len() + 11;
    let p3 = Partial { id: Some(c.id), label: Some(c.label), value: Some(c.value), custom: None };
    lemma_sub_sub(s, i, b, t, i3, e3 - 1);
    assert(t.subrange(i3 - i, e3 - 1 - i) =~= render_member("value"@, c.value));
    assert(set_field(p2, "value"@, c.value) == Some(p3));
    lemma_char_at(s, i, b, t, e3 - 1 - i);
    assert(s[e3 - 1] == ',');
    lemma_members_step(s, i3, "value"@, c.value, p2, p3);
    lemma_char_at(s, i, b, t, e3 - i);
    assert(s[e3] == '"');
    lemma_skip_ws_at(s, e3);
    // member four: custom, then the closing brace
    let i4 = e3;
    let e4 = i4 + c.custom.len() + 12;
    lemma_sub_sub(s, i, b, t, i4, e4 - 1);
    assert(t.subrange(i4 - i, e4 - 1 - i) =~= render_member("custom"@, c.custom));
    assert(set_field(p3, "custom"@, c.custom) == Some(full_partial(c)));
    lemma_char_at(s, i, b, t, e4 - 1 - i);
    assert(s[e4 - 1] == '}');
    lemma_members_step(s, i4, "custom"@, c.custom, p3, full_partial(c));
    assert(e4 == b);
}

proof fn lemma_city_object_parse(s: Seq<char>, i: int, c: CityView)
    requires
        plain_city(c),
        0 <= i,
        i + render_city(c).len() <= s.len(),
        s.subrange(i, i + render_city(c).len()) == render_city(c),
    ensures
        parse_object(s, i) == Some((c, i + render_city(c).len())),
{
    let r = render_city(c);
    let b = i + r.len();
    lemma_char_at(s, i, b, r, 0);
    assert(s[i] == '{');
    lemma_char_at(s, i, b, r, 1);
    assert(r[1] == members_tail(c)[0]);
    assert(r[1] == '"') by {
        assert(members_tail(c)[0] == render_member("id"@, c.id)[0]);
    }
    lemma_skip_ws_at(s, i + 1);
    lemma_sub_sub(s, i, b, r, i + 1, b);
    assert(r.subrange(1, r.len() as int) =~= members_tail(c));
    lemma_city_members_parse(s, i + 1, c);
}

proof fn lemma_elements_parse(s: Seq<char>, i: int, cs: Seq<CityView>, acc: Seq<CityView>)
    requires
        cs.len() >= 1,
        forall|k: int| 0 <= k < cs.len() ==> plain_city(#[trigger] cs[k]),
        0 <= i,
        i + render_elements(cs).len() + 1 <= s.len(),
        s.subrange(i, i + render_elements(cs).len() + 1) == render_elements(cs) + seq![']'],
    ensures
        parse_elements(s, i, acc) == Some((acc + cs, i + render_elements(cs).len() + 1)),
    decreases cs.len(),
{
    let t = render_elements(cs) + seq![']'];
    let ln = render_elements(cs).len() as int;
    let b = i + ln + 1;
    let c0 = cs[0];
    let r0 = render_city(c0);
    lemma_sub_sub(s, i, b, t, i, i + r0.len());
    assert(t.subrange(0, r0.len() as int) =~= r0);
    lemma_city_object_parse(s, i, c0);
    let j = i + r0.len();
    if cs.len() == 1 {
        lemma_char_at(s, i, b, t, ln);
        assert(s[j] == ']');
        lemma_skip_ws_at(s, j);
        assert(acc.push(c0) =~= acc + cs);
    } else {
        lemma_char_at(s, i, b, t, j - i);
        assert(s[j] == ',');
        lemma_skip_ws_at(s, j);
        let cs2 = cs.drop_first();
        assert(forall|k: int| 0 <= k < cs2.len() ==> plain_city(#[trigger] cs2[k])) by {
            assert(forall|k: int| 0 <= k < cs2.len() ==> cs2[k] == cs[k + 1]);
        }
        lemma_char_at(s, i, b, t, j + 1 - i);
        assert(t[j + 1 - i] == render_elements(cs2)[0]);
        assert(render_elements(cs2)[0] == render_city(cs2[0])[0]) by {
            if cs2.len() == 1 {
            } else {
            }
        }
        assert(s[j + 1] == '{');
        lemma_skip_ws_at(s, j + 1);
        lemma_sub_sub(s, i, b, t, j + 1, b);
        assert(t.subrange(j + 1 - i, b - i) =~= render_elements(cs2) + seq![']']);
        lemma_elements_parse(s, j + 1, cs2, acc.push(c0));
        assert(acc.push(c0) + cs2 =~= acc + cs);
    }
}

/// Every well-formed city array parses back to exactly its cities: the
/// canonical rendering of any city list whose fields need no escapes is
/// accepted, the parsed list has the same length, and every field value is
/// carried over verbatim.
pub proof fn lemma_parse_render_cities(cs: Seq<CityView>)
    requires
        forall|k: int| 0 <= k < cs.len() ==> plain_city(#[trigger] cs[k]),
    ensures
        parse_cities_spec(render_cities(cs)) == Some(cs),
{
    let s = render_cities(cs);
    if cs.len() == 0 {
        assert(s.len() == 2 && s[0] == '[' && s[1] == ']');
        lemma_skip_ws_at(s, 0);
        lemma_skip_ws_at(s, 1);
        lemma_skip_ws_at(s, 2);
        assert(parse_cities_spec(s) == Some(Seq::<CityView>::empty()));
        assert(Seq::<CityView>::empty() =~= cs);
    } else {
        let ln = render_elements(cs).len() as int;
        assert(s.len() == ln + 2);
        assert(s[0] == '[');
        lemma_skip_ws_at(s, 0);
        assert(render_elements(cs)[0] == render_city(cs[0])[0]) by {
            if cs.len() == 1 {
            } else {
            }
        }
        assert(s[1] == render_elements(cs)[0]);
        assert(s[1] == '{');
        lemma_skip_ws_at(s, 1);
        assert(s.subrange(1, 1 + ln + 1) =~= render_elements(cs) + seq![']']);
        lemma_elements_parse(s, 1, cs, Seq::empty());
        assert(Seq::<CityView>::empty() + cs =~= cs);
        lemma_skip_ws_at(s, s.len() as int);
    }
}

/// Advances past whitespace.
fn skip_ws_exec(chars: &Vec<char>, i: usize) -> (j: usize)
    requires
        i <= chars@.len(),
    ensures
        j as int == skip_ws(chars@, i as int),
        i <= j <= chars@.len(),
{
    let mut k = i;
    while k < chars.len() && (chars[k] == ' ' || chars[k] == '\t' || chars[k] == '\n' || chars[k]
        == '\r')
        invariant
            i <= k <= chars@.len(),
            skip_ws(chars@, k as int) == skip_ws(chars@, i as int),
        decreases chars@.len() - k,
    {
        k = k + 1;
    }
    k
}

/// The value of one hexadecimal digit.
fn hex_val_exec(c: char) -> (r: Option<u8>)
    ensures
        match r {
            Some(v) => hex_char_val(c) == Some(v as int),
            None => hex_char_val(c) is None,
        },
{
    let u = c as u32;
    if 0x30 <= u && u <= 0x39 {
        Some((u - 0x30) as u8)
    } else if 0x41 <= u && u <= 0x46 {
        Some((u - 0x41 + 10) as u8)
    } else if 0x61 <= u && u <= 0x66 {
        Some((u - 0x61 + 10) as u8)
    } else {
        None
    }
}

/// Reads the string literal at `i`, decoding escapes.
fn parse_string_at(chars: &Vec<char>, i: usize) -> (r: Option<(String, usize)>)
    ensures
        match r {
            Some(p) => parse_json_string(chars@, i as int) == Some((p.0@, p.1 as int)) && i < p.1
                <= chars@.len(),
            None => parse_json_string(chars@, i as int) is None,
        },
{
    broadcast use vstd::utf8::char_u32_cast;

    let n = chars.len();
    if i >= n || chars[i] != '"' {
        return None;
    }
    let mut acc = String::new();
    let mut k = i + 1;
    loop
        invariant
            n == chars@.len(),
            i < n,
            i < k <= n,
            parse_string_body(chars@, k as int, acc@) == parse_json_string(chars@, i as int),
        decreases n - k,
    {
        if k >= n {
            return None;
        }
        let c = chars[k];
        if c == '"' {
            proof {
                lemma_string_body_bounds(chars@, k as int, acc@);
            }
            return Some((acc, k + 1));
        }
        if c == '\\' {
            if k + 1 >= n {
                return None;
            }
            let e = chars[k + 1];
            if e == 'u' {
                if n - k < 6 {
                    proof {
                        assert(hex4_val(chars@, k + 2 as int) is None);
                    }
                    return None;
                }
                let h0 = hex_val_exec(chars[k + 2]);
                let h1 = hex_val_exec(chars[k + 3]);
                let h2 = hex_val_exec(chars[k + 4]);
                let h3 = hex_val_exec(chars[k + 5]);
                match (h0, h1, h2, h3) {
                    (Some(a), Some(b), Some(cc), Some(d)) => {
                        let v: u32 = (a as u32) * 4096 + (b as u32) * 256 + (cc as u32) * 16 + (
                        d as u32);
                        proof {
                            assert(hex4_val(chars@, k + 2 as int) == Some(v as int));
                        }
                        if 0xD800 <= v && v <= 0xDFFF {
                            return None;
                        }
                        match char_from_u32(v) {
                            Some(ch) => {
                                proof {
                                    vstd::utf8::char_u32_cast(ch, v);
                                }
                                push_char(&mut acc, ch);
                                k = k + 6;
                            },
                            None => {
                                proof {
                                    assert(false);
                                }
                            },
                        }
                    },
                    _ => {
                        return None;
                    },
                }
            } else {
                let dec: Option<char> = if e == '"' {
                    Some('"')
                } else if e == '\\' {
                    Some('\\')
                } else if e == '/' {
                    Some('/')
                } else if e == 'b' {
                    Some('\u{8}')
                } else if e == 'f' {
                    Some('\u{c}')
                } else if e == 'n' {
                    Some('\n')
                } else if e == 'r' {
                    Some('\r')
                } else if e == 't' {
                    Some('\t')
                } else {
                    None
                };
                proof {
                    assert(match dec {
                        Some(d) => escape_char(chars@[k + 1]) == Some(d),
                        None => escape_char(chars@[k + 1]) is None,
                    });
                }
                match dec {
                    Some(d) => {
                        push_char(&mut acc, d);
                        k = k + 2;
                    },
                    None => {
                        return None;
                    },
                }
            }
        } else {
            let u = c as u32;
            if u < 0x20 {
                return None;
            }
            push_char(&mut acc, c);
            k = k + 1;
        }
    }
}

/// The view of an optional string.
pub open spec fn opt_view(o: Option<String>) -> Option<Seq<char>> {
    match o {
        Some(s) => Some(s@),
        None => None,
    }
}

/// The partial object read so far, as the spec parser sees it.
pub open spec fn partial_of(
    id: Option<String>,
    label: Option<String>,
    value: Option<String>,
    custom: Option<String>,
) -> Partial {
    Partial {
        id: opt_view(id),
        label: opt_view(label),
        value: opt_view(value),
        custom: opt_view(custom),
    }
}

/// Reads the city object at `i`.
fn parse_object_at(chars: &Vec<char>, i: usize) -> (r: Option<(City, usize)>)
    ensures
        match r {
            Some(p) => parse_object(chars@, i as int) == Some((p.0@, p.1 as int)) && i < p.1
                <= chars@.len(),
            None => parse_object(chars@, i as int) is None,
        },
{
    let n = chars.len();
    if i >= n || chars[i] != '{' {
        return None;
    }
    let mut id: Option<String> = None;
    let mut label: Option<String> = None;
    let mut value: Option<String> = None;
    let mut custom: Option<String> = None;
    let mut k = skip_ws_exec(chars, i + 1);
    let ghost k0 = k as int;
    proof {
        lemma_members_bounds(chars@, k0, empty_partial());
    }
    loop
        invariant
            n == chars@.len(),
            i < n,
            chars@[i as int] == '{',
            k0 == skip_ws(chars@, i + 1),
            k <= n,
            parse_members(chars@, k as int, partial_of(id, label, value, custom))
                == parse_members(chars@, k0, empty_partial()),
        decreases n - k,
    {
        let ghost p_entry = partial_of(id, label, value, custom);
        let parsed_key = parse_string_at(chars, k);
        match parsed_key {
            None => {
                return None;
            },
            Some((key, j)) => {
                let j1 = skip_ws_exec(chars, j);
                if !(j1 < n && chars[j1] == ':') {
                    return None;
                }
                let j2 = skip_ws_exec(chars, j1 + 1);
                let parsed_val = parse_string_at(chars, j2);
                match parsed_val {
                    None => {
                        return None;
                    },
                    Some((val, j3)) => {
                        let ghost val_view = val@;
                        let ghost key_view = key@;
                        // record the member, rejecting unknown and repeated keys
                        if key == String::from_str("id") {
                            if id.is_none() {
                                id = Some(val);
                            } else {
                                return None;
                            }
                        } else if key == String::from_str("label") {
                            if label.is_none() {
                                label = Some(val);
                            } else {
                                return None;
                            }
                        } else if key == String::from_str("value") {
                            if value.is_none() {
                                value = Some(val);
                            } else {
                                return None;
                            }
                        } else if key == String::from_str("custom") {
                            if custom.is_none() {
                                custom = Some(val);
                            } else {
                                return None;
                            }
                        } else {
                            return None;
                        }
                        let ghost p_after = partial_of(id, label, value, custom);
                        proof {
                            assert(set_field(p_entry, key_view, val_view) == Some(p_after));
                        }
                        let j4 = skip_ws_exec(chars, j3);
                        if j4 < n && chars[j4] == ',' {
                            k = skip_ws_exec(chars, j4 + 1);
                            proof {
                                assert(parse_members(chars@, k as int, p_after) == parse_members(
                                    chars@,
                                    k0,
                                    empty_partial(),
                                ));
                            }
                        } else if j4 < n && chars[j4] == '}' {
                            proof {
                                assert(parse_members(chars@, k0, empty_partial()) == Some(
                                    (p_after, j4 + 1 as int),
                                ));
                                lemma_members_bounds(chars@, k0, empty_partial());
                                lemma_skip_ws_bounds(chars@, i + 1);
                            }
                            match (id, label, value, custom) {
                                (Some(idv), Some(labelv), Some(valuev), Some(customv)) => {
                                    let city = City {
                                        id: idv,
                                        label: labelv,
                                        value: valuev,
                                        custom: customv,
                                    };
                                    return Some((city, j4 + 1));
                                },
                                _ => {
                                    return None;
                                },
                            }
                        } else {
                            return None;
                        }
                    },
                }
            },
        }
    }
}

/// Reads the array elements from `i` to the closing bracket.
fn parse_elements_at(chars: &Vec<char>, i: usize) -> (r: Option<(Vec<City>, usize)>)
    requires
        i <= chars@.len(),
    ensures
        match r {
            Some(p) => parse_elements(chars@, i as int, Seq::empty()) == Some(
                (city_views(p.0@), p.1 as int),
            ) && p.1 <= chars@.len(),
            None => parse_elements(chars@, i as int, Seq::empty()) is None,
        },
{
    let n = chars.len();
    let mut acc: Vec<City> = Vec::new();
    let mut k = i;
    proof {
        assert(city_views(acc@) =~= Seq::<CityView>::empty());
    }
    loop
        invariant
            n == chars@.len(),
            k <= n,
            parse_elements(chars@, k as int, city_views(acc@)) == parse_elements(
                chars@,
                i as int,
                Seq::empty(),
            ),
        decreases n - k,
    {
        let parsed = parse_object_at(chars, k);
        match parsed {
            None => {
                return None;
            },
            Some((city, j)) => {
                let ghost old_acc = acc@;
                acc.push(city);
                proof {
                    assert(city_views(acc@) =~= city_views(old_acc).push(city@));
                }
                let j1 = skip_ws_exec(chars, j);
                if j1 < n && chars[j1] == ',' {
                    k = skip_ws_exec(chars, j1 + 1);
                } else if j1 < n && chars[j1] == ']' {
                    return Some((acc, j1 + 1));
                } else {
                    return None;
                }
            },
        }
    }
}

/// Parses a lookup response body. Returns the cities of a well-formed JSON
/// array of city objects, field values copied verbatim and order kept, and a
/// deserialization failure for every other body.
pub fn parse_cities(body: &str) -> (r: Result<Vec<City>, Error>)
    ensures
        match r {
            Ok(v) => parse_cities_spec(body@) == Some(city_views(v@)),
            Err(e) => e == Error::Deserialization && parse_cities_spec(body@) is None,
        },
{
    let chars = str_to_chars(body);
    let n = chars.len();
    let i = skip_ws_exec(&chars, 0);
    if !(i < n && chars[i] == '[') {
        return Err(Error::Deserialization);
    }
    let j = skip_ws_exec(&chars, i + 1);
    if j < n && chars[j] == ']' {
        if skip_ws_exec(&chars, j + 1) == n {
            let empty: Vec<City> = Vec::new();
            proof {
                assert(city_views(empty@) =~= Seq::<CityView>::empty());
            }
            return Ok(empty);
        } else {
            return Err(Error::Deserialization);
        }
    }
    let parsed = parse_elements_at(&chars, j);
    match parsed {
        Some((cities, k)) => {
            if skip_ws_exec(&chars, k) == n {
                Ok(cities)
            } else {
                Err(Error::Deserialization)
            }
        },
        None => Err(Error::Deserialization),
    }
}

} // verus!

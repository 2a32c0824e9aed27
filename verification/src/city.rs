//! The city record returned by the autocomplete lookup, and the display
//! decoding of its label: percent-decode the label's UTF-8 bytes, then
//! replace every literal `+` with a space. A `+` is never treated as an
//! escape of its own; it is replaced only after percent-decoding.

use vstd::prelude::*;
use vstd::string::StrSliceExecFns;
use vstd::utf8::{decode_utf8, encode_utf8, valid_utf8};

verus! {

/// One autocomplete candidate. All fields arrive verbatim from the lookup
/// response; `label` is still percent-encoded, `custom` is the relative
/// forecast-page path for this city.
pub struct City {
    pub id: String,
    pub label: String,
    pub value: String,
    pub custom: String,
}

/// The mathematical image of a `City`: its four fields as character sequences.
pub struct CityView {
    pub id: Seq<char>,
    pub label: Seq<char>,
    pub value: Seq<char>,
    pub custom: Seq<char>,
}

impl View for City {
    type V = CityView;

    open spec fn view(&self) -> CityView {
        CityView {
            id: self.id@,
            label: self.label@,
            value: self.value@,
            custom: self.custom@,
        }
    }
}

impl Clone for City {
    fn clone(&self) -> (r: Self)
        ensures
            r@ == self@,
    {
        City {
            id: self.id.clone(),
            label: self.label.clone(),
            value: self.value.clone(),
            custom: self.custom.clone(),
        }
    }
}

/// True for the ASCII codes of `0-9`, `a-f` and `A-F`.
pub open spec fn is_hex_byte(b: u8) -> bool {
    (0x30 <= b <= 0x39) || (0x41 <= b <= 0x46) || (0x61 <= b <= 0x66)
}

/// The numeric value of a hexadecimal digit's ASCII code.
pub open spec fn hex_byte_value(b: u8) -> u8
    recommends
        is_hex_byte(b),
{
    if 0x30 <= b <= 0x39 {
        (b - 0x30) as u8
    } else if 0x41 <= b <= 0x46 {
        (b - 0x41 + 10) as u8
    } else {
        (b - 0x61 + 10) as u8
    }
}

/// Standard percent-decoding of a byte sequence: every `%` followed by two
/// hexadecimal digits becomes the byte they spell; any other byte, including
/// a `%` not followed by two hexadecimal digits, passes through unchanged.
pub open spec fn percent_decode_bytes(s: Seq<u8>) -> Seq<u8>
    decreases s.len(),
{
    if s.len() == 0 {
        Seq::empty()
    } else if s[0] == 0x25 && s.len() >= 3 && is_hex_byte(s[1]) && is_hex_byte(s[2]) {
        seq![(hex_byte_value(s[1]) * 16 + hex_byte_value(s[2])) as u8] + percent_decode_bytes(
            s.skip(3),
        )
    } else {
        seq![s[0]] + percent_decode_bytes(s.skip(1))
    }
}

/// Every `+` byte replaced by a space byte.
pub open spec fn replace_plus(s: Seq<u8>) -> Seq<u8> {
    s.map(|i: int, b: u8| if b == 0x2b { 0x20u8 } else { b })
}

/// What `String::from_utf8_lossy` makes of an arbitrary byte sequence: the
/// UTF-8 decoding with every invalid sequence replaced by U+FFFD. It depends
/// on the bytes alone; on valid UTF-8 it agrees with `decode_utf8`.
pub uninterp spec fn lossy_decode(bytes: Seq<u8>) -> Seq<char>;

/// The display form of a label: percent-decode its UTF-8 bytes, replace
/// every `+` byte with a space, and read the result back as text, lossily.
pub open spec fn decoded_label(s: Seq<char>) -> Seq<char> {
    lossy_decode(replace_plus(percent_decode_bytes(encode_utf8(s))))
}

/// ASCII text that percent-decoding and plus-replacement leave unchanged.
pub open spec fn plain_ascii(s: Seq<char>) -> bool {
    forall|i: int|
        0 <= i < s.len() ==> '\0' <= #[trigger] s[i] <= '\u{7f}' && s[i] != '%' && s[i] != '+'
}

/// Relies on `percent_encoding::percent_decode`: each `%` followed by two
/// hexadecimal digits is decoded to one byte; everything else is copied.
#[verifier::external_body]
fn percent_decode_vec(input: &[u8]) -> (r: Vec<u8>)
    ensures
        r@ == percent_decode_bytes(input@),
{
    percent_encoding::percent_decode(input).collect()
}

/// Relies on `String::from_utf8_lossy`: invalid sequences become U+FFFD,
/// and valid UTF-8 is decoded exactly.
#[verifier::external_body]
fn utf8_lossy_string(bytes: &[u8]) -> (r: String)
    ensures
        r@ == lossy_decode(bytes@),
        valid_utf8(bytes@) ==> r@ == decode_utf8(bytes@),
{
    String::from_utf8_lossy(bytes).into_owned()
}

/// Replaces every `+` byte with a space byte.
fn replace_plus_exec(bytes: &Vec<u8>) -> (r: Vec<u8>)
    ensures
        r@ == replace_plus(bytes@),
{
    let mut out: Vec<u8> = Vec::new();
    let mut i: usize = 0;
    while i < bytes.len()
        invariant
            i <= bytes.len(),
            out@ == replace_plus(bytes@.subrange(0, i as int)),
        decreases bytes.len() - i,
    {
        let b = bytes[i];
        if b == 0x2b {
            out.push(0x20);
        } else {
            out.push(b);
        }
        proof {
            assert(out@ =~= replace_plus(bytes@.subrange(0, i + 1 as int)));
        }
        i = i + 1;
    }
    proof {
        assert(bytes@.subrange(0, bytes@.len() as int) =~= bytes@);
    }
    out
}

/// Percent-decoding leaves a sequence without `%` bytes unchanged.
proof fn lemma_percent_decode_no_percent(s: Seq<u8>)
    requires
        forall|i: int| 0 <= i < s.len() ==> s[i] != 0x25,
    ensures
        percent_decode_bytes(s) == s,
    decreases s.len(),
{
    if s.len() == 0 {
        assert(percent_decode_bytes(s) =~= s);
    } else {
        lemma_percent_decode_no_percent(s.skip(1));
        assert(percent_decode_bytes(s) =~= s);
    }
}

/// The decoded display label of a city, per the rule above.
pub fn format_city_label(city: &City) -> (r: String)
    ensures
        r@ == decoded_label(city@.label),
        plain_ascii(city@.label) ==> r@ == city@.label,
{
    broadcast use vstd::utf8::encode_utf8_valid_utf8, vstd::utf8::encode_utf8_decode_utf8;

    let bytes: Vec<u8> = city.label.as_str().as_bytes_vec();
    let dec = percent_decode_vec(bytes.as_slice());
    let rep = replace_plus_exec(&dec);
    let out = utf8_lossy_string(rep.as_slice());
    proof {
        if plain_ascii(city@.label) {
            let cs = city@.label;
            assert(vstd::utf8::is_ascii_chars(cs));
            vstd::utf8::is_ascii_chars_encode_utf8(cs);
            let ascii = Seq::new(cs.len(), |i: int| cs[i] as u8);
            assert(bytes@ == ascii);
            assert forall|i: int| 0 <= i < ascii.len() implies ascii[i] != 0x25 && ascii[i]
                != 0x2b by {
                if ascii[i] == 0x25 {
                    vstd::utf8::char_u32_cast(cs[i], cs[i] as u32);
                    assert(cs[i] == '%');
                }
                if ascii[i] == 0x2b {
                    vstd::utf8::char_u32_cast(cs[i], cs[i] as u32);
                    assert(cs[i] == '+');
                }
            }
            lemma_percent_decode_no_percent(ascii);
            assert(rep@ =~= ascii);
            assert(out@ == cs);
        }
    }
    out
}

} // verus!

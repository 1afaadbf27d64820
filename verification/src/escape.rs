//! Escaping and unescaping of attribute values, done by the `escapist`
//! crate.

use vstd::prelude::*;
use vstd::utf8::encode_utf8;

verus! {

/// What one character becomes when a value is escaped for an HTML attribute.
pub open spec fn html_escape_of(c: char) -> Seq<char> {
    if c == '"' {
        seq!['&', 'q', 'u', 'o', 't', ';']
    } else if c == '&' {
        seq!['&', 'a', 'm', 'p', ';']
    } else if c == '<' {
        seq!['&', 'l', 't', ';']
    } else if c == '>' {
        seq!['&', 'g', 't', ';']
    } else {
        seq![c]
    }
}

/// `s` with `"`, `&`, `<` and `>` replaced by their entities.
pub open spec fn escaped_html(s: Seq<char>) -> Seq<char>
    decreases s.len(),
{
    if s.len() == 0 {
        Seq::empty()
    } else {
        escaped_html(s.drop_last()) + html_escape_of(s.last())
    }
}

/// The bytes that stand as they are in an escaped `href`.
pub open spec fn is_href_safe(b: u8) -> bool {
    ||| b == 0x21
    ||| 0x23 <= b <= 0x25
    ||| 0x28 <= b <= 0x3b
    ||| b == 0x3d
    ||| 0x3f <= b <= 0x5a
    ||| b == 0x5e
    ||| b == 0x5f
    ||| 0x61 <= b <= 0x7a
    ||| b == 0x7e
}

/// The upper-case hexadecimal digit for `n`, which is below 16.
pub open spec fn hex_digit(n: int) -> char {
    if n < 10 {
        ((0x30 + n) as u8) as char
    } else {
        ((0x37 + n) as u8) as char
    }
}

/// What one byte of a value becomes when the value is escaped for an `href`.
pub open spec fn href_escape_of(b: u8) -> Seq<char> {
    if is_href_safe(b) {
        seq![b as char]
    } else if b == 0x26 {
        seq!['&', 'a', 'm', 'p', ';']
    } else if b == 0x27 {
        seq!['&', '#', 'x', '2', '7', ';']
    } else {
        seq!['%', hex_digit(b as int / 16), hex_digit(b as int % 16)]
    }
}

/// The escape of a value given by its UTF-8 bytes: ASCII text in which every
/// byte that is not `is_href_safe` is `&amp;`, `&#x27;` or a percent escape.
pub open spec fn escaped_href_bytes(bytes: Seq<u8>) -> Seq<char>
    decreases bytes.len(),
{
    if bytes.len() == 0 {
        Seq::empty()
    } else {
        escaped_href_bytes(bytes.drop_last()) + href_escape_of(bytes.last())
    }
}

/// `s` escaped for an `href`.
pub open spec fn escaped_href(s: Seq<char>) -> Seq<char> {
    escaped_href_bytes(encode_utf8(s))
}

/// What `escapist::unescape_html` makes of the UTF-8 bytes of `s`, read back
/// as text: `s` with its character references (numeric ones, and the named
/// ones of the `entities` table) replaced by what they stand for.
pub uninterp spec fn unescaped_html(s: Seq<char>) -> Seq<char>;

/// `escapist::unescape_html` on the bytes of `s`. The result is named by
/// `unescaped_html`; nothing more is claimed of it.
#[verifier::external_body]
pub(crate) fn unescape_html(s: &str) -> (r: String)
    ensures
        r@ == unescaped_html(s@),
{
    let bytes = escapist::unescape_html(s.as_bytes());
    String::from_utf8_lossy(&bytes).to_string()
}

/// `escapist::escape_html` into a fresh string: it copies `s` and writes an
/// entity in place of each `"`, `&`, `<` and `>`.
#[verifier::external_body]
pub(crate) fn escape_html(s: &str) -> (r: String)
    ensures
        r@ == escaped_html(s@),
{
    let mut buffer = String::new();
    escapist::escape_html(&mut buffer, s).unwrap();
    buffer
}

/// `escapist::escape_href` into a fresh string: it walks the bytes of `s`,
/// copies those of its safe table and escapes every other one.
#[verifier::external_body]
pub(crate) fn escape_href(s: &str) -> (r: String)
    ensures
        r@ == escaped_href(s@),
{
    let mut buffer = String::new();
    escapist::escape_href(&mut buffer, s).unwrap();
    buffer
}

} // verus!

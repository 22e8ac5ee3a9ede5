//! Text prepared for the web surfaces: HTML-escaping of values interpolated
//! into served pages, and the character-gallery API URL with its
//! percent-encoded search term.
use vstd::prelude::*;

use vstd::string::StringExecFns;

use crate::backup::u64_string;
use crate::text::push_char;
use crate::text::str_chars;

verus! {

/// The expansion of one character under HTML escaping.
pub open spec fn esc_char(c: char) -> Seq<char> {
    if c == '&' {
        seq!['&', 'a', 'm', 'p', ';']
    } else if c == '<' {
        seq!['&', 'l', 't', ';']
    } else if c == '>' {
        seq!['&', 'g', 't', ';']
    } else if c == '"' {
        seq!['&', 'q', 'u', 'o', 't', ';']
    } else if c == '\'' {
        seq!['&', '#', 'x', '2', '7', ';']
    } else {
        seq![c]
    }
}

/// The whole text escaped, from position `i`.
pub open spec fn spec_escape_from(s: Seq<char>, i: int) -> Seq<char>
    decreases s.len() - i,
{
    if i < 0 || i >= s.len() {
        Seq::empty()
    } else {
        esc_char(s[i]) + spec_escape_from(s, i + 1)
    }
}

pub open spec fn spec_html_escape(s: Seq<char>) -> Seq<char> {
    spec_escape_from(s, 0)
}

/// Escape a value for interpolation into served HTML: the five
/// markup-significant characters become entities, everything else stays.
pub fn html_escape(s: &str) -> (r: String)
    ensures
        r@ == spec_html_escape(s@),
{
    let chars = str_chars(s);
    let mut out = String::new();
    let mut k: usize = 0;
    while k < chars.len()
        invariant
            0 <= k <= chars@.len(),
            chars@ == s@,
            spec_escape_from(s@, 0) == out@ + spec_escape_from(s@, k as int),
        decreases chars@.len() - k,
    {
        let ghost before = out@;
        let c = chars[k];
        if c == '&' {
            out.append("&amp;");
        } else if c == '<' {
            out.append("&lt;");
        } else if c == '>' {
            out.append("&gt;");
        } else if c == '"' {
            out.append("&quot;");
        } else if c == '\'' {
            out.append("&#x27;");
        } else {
            push_char(&mut out, c);
        }
        proof {
            reveal_strlit("&amp;");
            reveal_strlit("&lt;");
            reveal_strlit("&gt;");
            reveal_strlit("&quot;");
            reveal_strlit("&#x27;");
            assert(out@ =~= before + esc_char(s@[k as int]));
            assert(before + esc_char(s@[k as int]) + spec_escape_from(s@, k + 1) =~= before + (
            esc_char(s@[k as int]) + spec_escape_from(s@, k + 1)));
        }
        k += 1;
    }
    proof {
        assert(out@ + spec_escape_from(s@, chars@.len() as int) =~= out@);
    }
    out
}

/// A byte the URL encoder passes through unchanged: ASCII alphanumerics and
/// `-`, `.`, `_`, `~`.
pub open spec fn is_url_safe_byte(b: u8) -> bool {
    (48 <= b <= 57) || (65 <= b <= 90) || (97 <= b <= 122) || b == 45 || b == 46 || b == 95 || b
        == 126
}

/// An upper-case hexadecimal digit.
pub open spec fn hex_digit(d: int) -> u8 {
    if d < 10 {
        (48 + d) as u8
    } else {
        (55 + d) as u8
    }
}

/// Percent-encoding of a UTF-8 byte string: safe bytes pass through, every
/// other byte becomes `%` and two upper-case hex digits.
pub open spec fn spec_urlencode(s: Seq<u8>) -> Seq<u8>
    decreases s.len(),
{
    if s.len() == 0 {
        Seq::empty()
    } else {
        (if is_url_safe_byte(s[0]) {
            seq![s[0]]
        } else {
            seq![37u8, hex_digit(s[0] as int / 16), hex_digit(s[0] as int % 16)]
        }) + spec_urlencode(s.drop_first())
    }
}

/// Relies on urlencoding::encode: it percent-encodes every byte except
/// ASCII alphanumerics and `-`, `.`, `_`, `~`, writing upper-case hex
/// digits, and passes safe bytes through unchanged.
#[verifier::external_body]
pub fn urlencode(s: &str) -> (r: String)
    ensures
        r@ == spec_urlencode(vstd::utf8::encode_utf8(s@)).map_values(|b: u8| b as char),
{
    urlencoding::encode(s).into_owned()
}

/// The character-gallery API URL for a page, an ordering, and an optional
/// search term; the search term rides percent-encoded.
pub fn characters_url(page: u32, order: &str, search: &str) -> (r: String)
    ensures
        ({
            let base = ("https://www.star-citizen-characters.com/api/heads?page=")@
                + crate::text::spec_digits(page as int).map_values(|b: u8| b as char) + (
            "&orderBy=")@ + order@;
            if search@.len() == 0 {
                r@ == base
            } else {
                r@ == base + ("&search=")@ + spec_urlencode(
                    vstd::utf8::encode_utf8(search@),
                ).map_values(|b: u8| b as char)
            }
        }),
{
    let mut out = ("https://www.star-citizen-characters.com/api/heads?page=").to_owned();
    let page_str = u64_string(page as u64);
    out.append(page_str.as_str());
    out.append("&orderBy=");
    out.append(order);
    if !search.is_empty() {
        out.append("&search=");
        let encoded = urlencode(search);
        out.append(encoded.as_str());
    }
    out
}

} // verus!

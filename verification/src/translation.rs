//! The translation synchronizer: decides whether a locally installed
//! localization file is up to date against a remote source, and composes the
//! exact bytes an update writes. Content is modelled as the raw bytes of the
//! localization file; the consuming game client requires the file to start
//! with the three-byte UTF-8 byte-order mark.
use vstd::prelude::*;

use vstd::string::StringSliceAdditionalSpecFns;
use vstd::string::StrSliceExecFns;
use vstd::utf8::valid_utf8;

use crate::branding::spec_apply_branding_url;
use crate::branding::apply_branding_url;
use crate::text::append_bytes;
use crate::text::append_range;
use crate::text::contains_needle;
use crate::text::contains_seq;
use crate::text::eq_bytes;
use crate::text::replace_all;
use crate::text::spec_replace_all;
use crate::text::starts_with_bytes;
use crate::text::starts_with_seq;

verus! {

/// The three-byte UTF-8 byte-order mark.
pub open spec fn bom() -> Seq<u8> {
    seq![0xEFu8, 0xBBu8, 0xBFu8]
}

pub fn bom_bytes() -> (r: Vec<u8>)
    ensures
        r@ == bom(),
{
    let r: Vec<u8> = vec![0xEFu8, 0xBBu8, 0xBFu8];
    proof {
        assert(r@ =~= bom());
    }
    r
}

/// Content with a leading byte-order mark removed, if one is present.
pub open spec fn spec_strip_bom(s: Seq<u8>) -> Seq<u8> {
    if starts_with_seq(s, bom()) {
        s.subrange(3, s.len() as int)
    } else {
        s
    }
}

/// Content prefixed with the byte-order mark.
pub open spec fn spec_with_bom(s: Seq<u8>) -> Seq<u8> {
    bom() + s
}

/// Remove a leading byte-order mark, if present.
pub fn strip_bom(v: &Vec<u8>) -> (out: Vec<u8>)
    ensures
        out@ == spec_strip_bom(v@),
{
    let marker = bom_bytes();
    let mut out: Vec<u8> = Vec::new();
    if starts_with_bytes(v, &marker) {
        append_range(&mut out, v, 3, v.len());
        proof {
            assert(out@ =~= spec_strip_bom(v@));
        }
    } else {
        append_bytes(&mut out, v);
        proof {
            assert(out@ =~= v@);
        }
    }
    out
}

/// Prefix content with the byte-order mark, as written to disk.
pub fn with_bom(v: &Vec<u8>) -> (out: Vec<u8>)
    ensures
        out@ == spec_with_bom(v@),
{
    let mut out = bom_bytes();
    append_bytes(&mut out, v);
    out
}

/// Stripping the byte-order mark after inserting it returns the content
/// unchanged, byte for byte.
pub proof fn lemma_bom_round_trip(c: Seq<u8>)
    ensures
        spec_strip_bom(spec_with_bom(c)) == c,
{
    let s = spec_with_bom(c);
    assert(s.subrange(0, 3) =~= bom());
    assert(s.subrange(3, s.len() as int) =~= c);
}

/// ASCII whitespace, as trimmed from the ends of compared content.
pub open spec fn is_space_byte(b: u8) -> bool {
    b == 9 || b == 10 || b == 11 || b == 12 || b == 13 || b == 32
}

pub open spec fn spec_trim_start(s: Seq<u8>) -> Seq<u8>
    decreases s.len(),
{
    if s.len() > 0 && is_space_byte(s[0]) {
        spec_trim_start(s.drop_first())
    } else {
        s
    }
}

pub open spec fn spec_trim_end(s: Seq<u8>) -> Seq<u8>
    decreases s.len(),
{
    if s.len() > 0 && is_space_byte(s[s.len() - 1]) {
        spec_trim_end(s.drop_last())
    } else {
        s
    }
}

proof fn lemma_trim_start_at(s: Seq<u8>, a: int)
    requires
        0 <= a <= s.len(),
        forall|t: int| 0 <= t < a ==> is_space_byte(s[t]),
        a < s.len() ==> !is_space_byte(s[a]),
    ensures
        spec_trim_start(s) == s.subrange(a, s.len() as int),
    decreases a,
{
    if a == 0 {
        assert(s.subrange(0, s.len() as int) =~= s);
    } else {
        let s2 = s.drop_first();
        assert(is_space_byte(s[0]));
        lemma_trim_start_at(s2, a - 1);
        assert(s2.subrange(a - 1, s2.len() as int) =~= s.subrange(a, s.len() as int));
    }
}

proof fn lemma_trim_end_at(s: Seq<u8>, b: int)
    requires
        0 <= b <= s.len(),
        forall|t: int| b <= t < s.len() ==> is_space_byte(s[t]),
        b > 0 ==> !is_space_byte(s[b - 1]),
    ensures
        spec_trim_end(s) == s.subrange(0, b),
    decreases s.len() - b,
{
    if b == s.len() {
        assert(s.subrange(0, s.len() as int) =~= s);
    } else {
        let s2 = s.drop_last();
        assert(is_space_byte(s[s.len() - 1]));
        lemma_trim_end_at(s2, b);
        assert(s2.subrange(0, b) =~= s.subrange(0, b));
    }
}

/// Trim ASCII whitespace from both ends.
pub fn trim_bytes(s: &Vec<u8>) -> (out: Vec<u8>)
    ensures
        out@ == spec_trim_end(spec_trim_start(s@)),
{
    let mut a: usize = 0;
    while a < s.len() && is_space(s[a])
        invariant
            0 <= a <= s@.len(),
            forall|t: int| 0 <= t < a ==> is_space_byte(s@[t]),
        decreases s@.len() - a,
    {
        a += 1;
    }
    let mut b: usize = s.len();
    while b > a && is_space(s[b - 1])
        invariant
            a <= b <= s@.len(),
            forall|t: int| b <= t < s@.len() ==> is_space_byte(s@[t]),
        decreases b,
    {
        b -= 1;
    }
    let mut out: Vec<u8> = Vec::new();
    append_range(&mut out, s, a, b);
    proof {
        lemma_trim_start_at(s@, a as int);
        let mid = s@.subrange(a as int, s@.len() as int);
        lemma_trim_end_at(mid, b - a);
        assert(mid.subrange(0, b - a) =~= s@.subrange(a as int, b as int));
        assert(out@ =~= s@.subrange(a as int, b as int));
    }
    out
}

fn is_space(b: u8) -> (r: bool)
    ensures
        r == is_space_byte(b),
{
    b == 9 || b == 10 || b == 11 || b == 12 || b == 13 || b == 32
}

pub open spec fn crlf() -> Seq<u8> {
    seq![13u8, 10u8]
}

pub open spec fn lf() -> Seq<u8> {
    seq![10u8]
}

/// Comparison normal form: line endings unified to a single line feed, then
/// surrounding whitespace trimmed.
pub open spec fn spec_normalize(c: Seq<u8>) -> Seq<u8> {
    spec_trim_end(spec_trim_start(spec_replace_all(c, crlf(), lf())))
}

/// Bring content into the normal form used for staleness comparison.
pub fn normalize_content(c: &Vec<u8>) -> (out: Vec<u8>)
    ensures
        out@ == spec_normalize(c@),
{
    let needle: Vec<u8> = vec![13u8, 10u8];
    let repl: Vec<u8> = vec![10u8];
    proof {
        assert(needle@ =~= crlf());
        assert(repl@ =~= lf());
    }
    let unified = replace_all(c, &needle, &repl);
    trim_bytes(&unified)
}

/// The language codes the synchronizer understands: `fr` in any ASCII case.
pub open spec fn spec_lang_known(l: Seq<char>) -> bool {
    l == seq!['f', 'r'] || l == seq!['F', 'R'] || l == seq!['F', 'r'] || l == seq!['f', 'R']
}

/// The game's folder name for the supported language.
pub open spec fn spec_lang_folder() -> Seq<char> {
    seq!['f', 'r', 'e', 'n', 'c', 'h', '_', '(', 'f', 'r', 'a', 'n', 'c', 'e', ')']
}

/// Language codes the synchronizer understands, mapped to the folder name the
/// game expects under its localization directory; unknown codes map to none.
pub fn get_language_folder(lang: &str) -> (r: Option<&str>)
    ensures
        r is Some <==> spec_lang_known(lang@),
        r is Some ==> r->0@ == spec_lang_folder(),
{
    let len = lang.unicode_len();
    if len != 2 {
        proof {
            assert(!spec_lang_known(lang@));
        }
        return None;
    }
    let c0 = lang.get_char(0);
    let c1 = lang.get_char(1);
    if (c0 == 'f' || c0 == 'F') && (c1 == 'r' || c1 == 'R') {
        proof {
            assert(lang@ =~= seq![lang@[0], lang@[1]]);
        }
        let folder = "french_(france)";
        proof {
            reveal_strlit("french_(france)");
            assert(folder@ =~= spec_lang_folder());
        }
        Some(folder)
    } else {
        proof {
            assert(lang@ =~= seq![lang@[0], lang@[1]]);
        }
        None
    }
}

/// Decide whether a byte string is well-formed UTF-8: every scalar's leading
/// and continuation bytes follow the standard's bit patterns, no encoding is
/// overlong, and no scalar falls in the surrogate range.
pub fn utf8_valid(v: &Vec<u8>) -> (r: bool)
    ensures
        r == valid_utf8(v@),
{
    let n = v.len();
    let mut i: usize = 0;
    while i < n
        invariant
            0 <= i <= n,
            n == v@.len(),
            valid_utf8(v@.subrange(0, i as int)),
        decreases n - i,
    {
        let ghost rest = v@.subrange(i as int, n as int);
        proof {
            assert(rest.len() == n - i);
            assert(rest[0] == v@[i as int]);
        }
        let b0 = v[i];
        let step: usize;
        let cp: u32;
        if b0 <= 0x7f {
            cp = (b0 & 0x7f) as u32;
            step = 1;
        } else if 0xc0 <= b0 && b0 <= 0xdf {
            if !(n - i > 1 && 0x80 <= v[i + 1] && v[i + 1] <= 0xbf) {
                proof {
                    lemma_rest_indexes(v@, i as int);
                    assert(!vstd::utf8::valid_leading_and_continuation_bytes_first_codepoint(
                        rest,
                    ));
                    lemma_prefix_of_invalid(v@, i as int);
                }
                return false;
            }
            let b1 = v[i + 1];
            cp = (((b0 & 0x1f) as u32) << 6u32) | ((b1 & 0x3f) as u32);
            step = 2;
        } else if 0xe0 <= b0 && b0 <= 0xef {
            if !(n - i > 2 && 0x80 <= v[i + 1] && v[i + 1] <= 0xbf && 0x80 <= v[i + 2] && v[i + 2]
                <= 0xbf) {
                proof {
                    lemma_rest_indexes(v@, i as int);
                    assert(!vstd::utf8::valid_leading_and_continuation_bytes_first_codepoint(
                        rest,
                    ));
                    lemma_prefix_of_invalid(v@, i as int);
                }
                return false;
            }
            let b1 = v[i + 1];
            let b2 = v[i + 2];
            cp = (((b0 & 0x0f) as u32) << 12u32) | (((b1 & 0x3f) as u32) << 6u32) | ((b2
                & 0x3f) as u32);
            step = 3;
        } else if 0xf0 <= b0 && b0 <= 0xf7 {
            if !(n - i > 3 && 0x80 <= v[i + 1] && v[i + 1] <= 0xbf && 0x80 <= v[i + 2] && v[i + 2]
                <= 0xbf && 0x80 <= v[i + 3] && v[i + 3] <= 0xbf) {
                proof {
                    lemma_rest_indexes(v@, i as int);
                    assert(!vstd::utf8::valid_leading_and_continuation_bytes_first_codepoint(
                        rest,
                    ));
                    lemma_prefix_of_invalid(v@, i as int);
                }
                return false;
            }
            let b1 = v[i + 1];
            let b2 = v[i + 2];
            let b3 = v[i + 3];
            cp = (((b0 & 0x07) as u32) << 18u32) | (((b1 & 0x3f) as u32) << 12u32) | (((b2
                & 0x3f) as u32) << 6u32) | ((b3 & 0x3f) as u32);
            step = 4;
        } else {
            // a stray continuation byte, or a byte no encoding starts with
            proof {
                assert(!vstd::utf8::valid_leading_and_continuation_bytes_first_codepoint(rest));
                lemma_prefix_of_invalid(v@, i as int);
            }
            return false;
        }
        proof {
            lemma_rest_indexes(v@, i as int);
            assert(vstd::utf8::valid_leading_and_continuation_bytes_first_codepoint(rest));
            assert(vstd::utf8::decode_first_codepoint(rest) == cp);
            assert(vstd::utf8::length_of_first_codepoint(rest) == step);
        }
        // reject overlong encodings
        if (step == 2 && cp < 0x80) || (step == 3 && cp < 0x800) || (step == 4 && !(0x10000 <= cp
            && cp <= 0x10ffff)) {
            proof {
                assert(!vstd::utf8::not_overlong_encoding(cp, step as int));
                lemma_prefix_of_invalid(v@, i as int);
            }
            return false;
        }
        // reject the surrogate range
        if 0xd800 <= cp && cp <= 0xdfff {
            proof {
                assert(!vstd::utf8::not_surrogate(cp));
                lemma_prefix_of_invalid(v@, i as int);
            }
            return false;
        }
        proof {
            assert(vstd::utf8::valid_first_scalar(rest));
            vstd::utf8::partial_valid_utf8_extend(v@, i as int);
            assert(valid_utf8(v@.subrange(0, i + step)));
        }
        i += step;
    }
    proof {
        assert(v@.subrange(0, n as int) =~= v@);
    }
    true
}

/// The suffix starting at `i` reads the same bytes as the whole string.
proof fn lemma_rest_indexes(s: Seq<u8>, i: int)
    requires
        0 <= i < s.len(),
    ensures
        forall|k: int| 0 <= k < s.len() - i ==> s.subrange(i, s.len() as int)[k] == s[i + k],
{
}

/// A string whose remainder at `i` starts with no well-formed scalar is not
/// valid UTF-8, however valid its first `i` bytes are.
proof fn lemma_prefix_of_invalid(s: Seq<u8>, i: int)
    requires
        0 <= i < s.len(),
        valid_utf8(s.subrange(0, i)),
        !vstd::utf8::valid_first_scalar(s.subrange(i, s.len() as int)),
    ensures
        !valid_utf8(s),
{
    let rest = s.subrange(i, s.len() as int);
    assert(rest.len() > 0);
    assert(!valid_utf8(rest));
    vstd::utf8::partial_valid_partial_invalid_utf8(s, i);
}

/// The staleness signal: the language is supported, a local file exists and
/// decodes as UTF-8 once its byte-order mark is stripped, the remote fetch
/// produced content, and both sides agree byte for byte after the branding
/// rewrite of the remote side and normalization of both.
pub open spec fn spec_up_to_date(
    lang: Seq<char>,
    local: Option<Seq<u8>>,
    remote: Option<Seq<u8>>,
    url: Seq<u8>,
) -> bool {
    &&& spec_lang_known(lang)
    &&& local is Some
    &&& valid_utf8(spec_strip_bom(local->0))
    &&& remote is Some
    &&& spec_normalize(spec_strip_bom(local->0)) == spec_normalize(
        spec_apply_branding_url(remote->0, url),
    )
}

/// Decide staleness from plain values: the local file's bytes (none when the
/// file is absent or unreadable), the fetched remote content (none when the
/// fetch failed), and the remote URL that keys the branding rewrite. Every
/// failure path degrades to `false`, never an error.
pub fn is_up_to_date_from(
    lang: &str,
    local: Option<&Vec<u8>>,
    remote: Option<&Vec<u8>>,
    url_bytes: &Vec<u8>,
) -> (r: bool)
    ensures
        r == spec_up_to_date(
            lang@,
            match local {
                Some(v) => Some(v@),
                None => None,
            },
            match remote {
                Some(v) => Some(v@),
                None => None,
            },
            url_bytes@,
        ),
{
    if get_language_folder(lang).is_none() {
        return false;
    }
    let local_bytes = match local {
        Some(v) => v,
        None => {
            return false;
        },
    };
    let remote_bytes = match remote {
        Some(v) => v,
        None => {
            return false;
        },
    };
    let stripped = strip_bom(local_bytes);
    if !utf8_valid(&stripped) {
        return false;
    }
    let branded = apply_branding_url(remote_bytes, url_bytes);
    let local_norm = normalize_content(&stripped);
    let remote_norm = normalize_content(&branded);
    eq_bytes(&local_norm, &remote_norm)
}

/// The exact bytes `update` writes for fetched remote content: the branding
/// rewrite keyed by the URL, behind a mandatory byte-order mark.
pub open spec fn spec_update_file_bytes(remote: Seq<u8>, url: Seq<u8>) -> Seq<u8> {
    spec_with_bom(spec_apply_branding_url(remote, url))
}

pub fn update_file_bytes(remote: &Vec<u8>, url_bytes: &Vec<u8>) -> (out: Vec<u8>)
    ensures
        out@ == spec_update_file_bytes(remote@, url_bytes@),
{
    let branded = apply_branding_url(remote, url_bytes);
    with_bom(&branded)
}

/// Staleness symmetry: for a supported language, a readable local file, and a
/// successful fetch, the staleness signal is equality of the two normal
/// forms; any difference that survives normalization reads as stale.
pub proof fn lemma_staleness_symmetry(
    lang: Seq<char>,
    local: Seq<u8>,
    remote: Seq<u8>,
    url: Seq<u8>,
)
    requires
        spec_lang_known(lang),
        valid_utf8(spec_strip_bom(local)),
    ensures
        spec_up_to_date(lang, Some(local), Some(remote), url) <==> spec_normalize(
            spec_strip_bom(local),
        ) == spec_normalize(spec_apply_branding_url(remote, url)),
{
}

/// A file freshly written by `update` reads as up to date against the same
/// remote content, provided the branded content decodes as UTF-8.
pub proof fn lemma_update_round_trip(lang: Seq<char>, remote: Seq<u8>, url: Seq<u8>)
    requires
        spec_lang_known(lang),
        valid_utf8(spec_apply_branding_url(remote, url)),
    ensures
        spec_up_to_date(lang, Some(spec_update_file_bytes(remote, url)), Some(remote), url),
{
    lemma_bom_round_trip(spec_apply_branding_url(remote, url));
}

/// The configuration line that marks an installation as translated.
pub open spec fn spec_g_language_needle() -> Seq<u8> {
    ("g_language = french_(france)").spec_bytes()
}

/// The full `user.cfg` contents the installer writes.
pub open spec fn spec_user_cfg_content() -> Seq<u8> {
    ("g_language = french_(france)\ng_languageAudio = english\n").spec_bytes()
}

pub fn user_cfg_content() -> (r: Vec<u8>)
    ensures
        r@ == spec_user_cfg_content(),
{
    ("g_language = french_(france)\ng_languageAudio = english\n").as_bytes_vec()
}

/// Whether a `user.cfg` already declares the supported language: the
/// marker line occurs somewhere in it.
pub fn user_cfg_declares_language(cfg: &Vec<u8>) -> (r: bool)
    ensures
        r == contains_seq(cfg@, spec_g_language_needle()),
{
    let needle = ("g_language = french_(france)").as_bytes_vec();
    proof {
        lemma_g_language_needle_nonempty();
    }
    contains_needle(cfg, &needle)
}

proof fn lemma_g_language_needle_nonempty()
    ensures
        spec_g_language_needle().len() >= 1,
{
    let l = "g_language = french_(france)";
    reveal_strlit("g_language = french_(france)");
    assert(l@.len() == 28);
    assert(l.spec_bytes().len() >= 1) by {
        vstd::utf8::encode_utf8_first_scalar(l@);
    }
}

} // verus!

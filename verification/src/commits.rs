//! The changelog feed: commits fetched from the hosting service's API are
//! filtered down to the categories shown to the user, their messages split
//! into a headline and an optional body, and their timestamps rendered for
//! display. Fetching and JSON navigation are the caller's side; this module
//! owns the selection and shaping.
use vstd::prelude::*;

use vstd::string::StrSliceExecFns;
use vstd::string::StringSliceAdditionalSpecFns;

use crate::text::contains_needle;
use crate::text::contains_seq;
use crate::text::str_chars;
use crate::text::chars_to_string;

verus! {

/// One displayed changelog entry.
pub struct Commit {
    /// The headline: the message up to the first blank line.
    pub message: String,
    /// The rest of the message, when a blank line separates one.
    pub description: Option<String>,
    /// The commit timestamp rendered for display; empty when unparsable.
    pub date: String,
}

/// What `chrono` renders for a commit timestamp: the RFC 3339 input brought
/// to UTC and written as `YYYY-MM-DD | HH:MM:SS`, or empty when the input
/// does not parse. The rendering depends on the input characters alone.
pub uninterp spec fn commit_date_display(s: Seq<char>) -> Seq<char>;

/// Relies on chrono's `DateTime::parse_from_rfc3339` and `format`: the
/// rendering is a pure function of the timestamp string, with an empty
/// result when parsing fails.
#[verifier::external_body]
pub fn format_commit_date(s: &str) -> (r: String)
    ensures
        r@ == commit_date_display(s@),
{
    chrono::DateTime::parse_from_rfc3339(s)
        .map(
            |dt|
                dt.with_timezone(&chrono::Utc).format("%Y-%m-%d | %H:%M:%S").to_string(),
        )
        .unwrap_or_else(|_| String::new())
}

/// The message categories shown in the changelog.
pub open spec fn spec_commit_kept(m: Seq<char>) -> bool {
    let bytes = vstd::utf8::encode_utf8(m);
    contains_seq(bytes, ("Feat :").spec_bytes()) || contains_seq(bytes, ("Bugfix :").spec_bytes())
        || contains_seq(bytes, ("Release :").spec_bytes()) || contains_seq(
        bytes,
        ("Refactoring :").spec_bytes(),
    )
}

/// Whether a commit message belongs to a displayed category.
pub fn commit_kept(message: &str) -> (r: bool)
    ensures
        r == spec_commit_kept(message@),
{
    let bytes = message.as_bytes_vec();
    let feat = ("Feat :").as_bytes_vec();
    let bugfix = ("Bugfix :").as_bytes_vec();
    let release = ("Release :").as_bytes_vec();
    let refactoring = ("Refactoring :").as_bytes_vec();
    proof {
        lemma_keyword_lengths();
    }
    contains_needle(&bytes, &feat) || contains_needle(&bytes, &bugfix) || contains_needle(
        &bytes,
        &release,
    ) || contains_needle(&bytes, &refactoring)
}

proof fn lemma_keyword_lengths()
    ensures
        ("Feat :").spec_bytes().len() >= 1,
        ("Bugfix :").spec_bytes().len() >= 1,
        ("Release :").spec_bytes().len() >= 1,
        ("Refactoring :").spec_bytes().len() >= 1,
{
    reveal_strlit("Feat :");
    reveal_strlit("Bugfix :");
    reveal_strlit("Release :");
    reveal_strlit("Refactoring :");
    vstd::utf8::encode_utf8_first_scalar(("Feat :")@);
    vstd::utf8::encode_utf8_first_scalar(("Bugfix :")@);
    vstd::utf8::encode_utf8_first_scalar(("Release :")@);
    vstd::utf8::encode_utf8_first_scalar(("Refactoring :")@);
}

/// Index of the first blank-line separator (two consecutive line feeds), or
/// -1.
pub open spec fn first_blank_sep(s: Seq<char>, i: int) -> int
    decreases s.len() - i,
{
    if i < 0 || i + 2 > s.len() {
        -1
    } else if s[i] == '\n' && s[i + 1] == '\n' {
        i
    } else {
        first_blank_sep(s, i + 1)
    }
}

/// Split a full commit message at its first blank line into the headline and
/// the optional body.
pub fn split_commit_message(full: &str) -> (r: (String, Option<String>))
    ensures
        ({
            let i = first_blank_sep(full@, 0);
            if i < 0 {
                r.0@ == full@ && r.1 is None
            } else {
                r.0@ == full@.subrange(0, i) && r.1 is Some && r.1->0@ == full@.subrange(
                    i + 2,
                    full@.len() as int,
                )
            }
        }),
{
    let chars = str_chars(full);
    let mut i: usize = 0;
    loop
        invariant
            0 <= i <= chars@.len(),
            chars@ == full@,
            first_blank_sep(full@, 0) == first_blank_sep(full@, i as int),
        decreases chars@.len() - i,
    {
        if i >= chars.len() || i + 1 >= chars.len() {
            proof {
                assert(first_blank_sep(full@, i as int) == -1);
            }
            return (full.to_owned(), None);
        }
        if chars[i] == '\n' && chars[i + 1] == '\n' {
            let mut head: Vec<char> = Vec::new();
            let mut k: usize = 0;
            while k < i
                invariant
                    0 <= k <= i <= chars@.len(),
                    chars@ == full@,
                    head@ == full@.subrange(0, k as int),
                decreases i - k,
            {
                head.push(chars[k]);
                proof {
                    assert(head@ =~= full@.subrange(0, k + 1));
                }
                k += 1;
            }
            let mut body: Vec<char> = Vec::new();
            let mut t: usize = i + 2;
            while t < chars.len()
                invariant
                    i + 2 <= t <= chars@.len(),
                    chars@ == full@,
                    body@ == full@.subrange(i + 2, t as int),
                decreases chars@.len() - t,
            {
                body.push(chars[t]);
                proof {
                    assert(body@ =~= full@.subrange(i + 2, t + 1));
                }
                t += 1;
            }
            proof {
                assert(first_blank_sep(full@, i as int) == i);
            }
            return (chars_to_string(&head), Some(chars_to_string(&body)));
        }
        i += 1;
    }
}

/// Shape one fetched commit for display: kept only when its message belongs
/// to a displayed category; the message split at its first blank line; the
/// timestamp rendered, empty when unparsable.
pub fn shape_commit(full_message: &str, date_raw: &str) -> (r: Option<Commit>)
    ensures
        r is Some <==> spec_commit_kept(full_message@),
        r is Some ==> ({
            let i = first_blank_sep(full_message@, 0);
            let c = r->0;
            &&& c.date@ == commit_date_display(date_raw@)
            &&& if i < 0 {
                c.message@ == full_message@ && c.description is None
            } else {
                c.message@ == full_message@.subrange(0, i) && c.description is Some
                    && c.description->0@ == full_message@.subrange(
                    i + 2,
                    full_message@.len() as int,
                )
            }
        }),
{
    if !commit_kept(full_message) {
        return None;
    }
    let (message, description) = split_commit_message(full_message);
    let date = format_commit_date(date_raw);
    Some(Commit { message, description, date })
}

} // verus!

//! Text machinery the whole library builds on: substring search and literal
//! replacement over bytes, ASCII case mapping, decimal rendering and
//! parsing, character-level string helpers, and the lemmas that make the
//! branding rewrite's idempotency provable.
use vstd::prelude::*;

use vstd::string::StrSliceExecFns;
use vstd::string::StringSliceAdditionalSpecFns;

verus! {

/// The needle `n` occurs in `s` starting at index `i`.
pub open spec fn occurs_at(s: Seq<u8>, n: Seq<u8>, i: int) -> bool {
    0 <= i && i + n.len() <= s.len() && s.subrange(i, i + n.len() as int) == n
}

/// The needle `n` occurs somewhere in `s`.
pub open spec fn contains_seq(s: Seq<u8>, n: Seq<u8>) -> bool {
    exists|i: int| occurs_at(s, n, i)
}

/// Index of the first occurrence of `n` in `s` at or after `i`, or -1.
pub open spec fn spec_find(s: Seq<u8>, n: Seq<u8>, i: int) -> int
    decreases s.len() - i,
{
    if n.len() == 0 || i < 0 || i + n.len() > s.len() {
        -1
    } else if s.subrange(i, i + n.len() as int) == n {
        i
    } else {
        spec_find(s, n, i + 1)
    }
}

pub proof fn lemma_find_bounds(s: Seq<u8>, n: Seq<u8>, i: int)
    ensures
        spec_find(s, n, i) == -1 || (spec_find(s, n, i) >= i && spec_find(s, n, i) >= 0),
    decreases s.len() - i,
{
    if n.len() == 0 || i < 0 || i + n.len() > s.len() {
    } else if s.subrange(i, i + n.len() as int) == n {
    } else {
        lemma_find_bounds(s, n, i + 1);
    }
}

pub proof fn lemma_find_none(s: Seq<u8>, n: Seq<u8>, i: int)
    requires
        n.len() >= 1,
        0 <= i,
        spec_find(s, n, i) == -1,
    ensures
        forall|j: int| j >= i ==> !occurs_at(s, n, j),
    decreases s.len() - i,
{
    if i + n.len() > s.len() {
        assert forall|j: int| j >= i implies !occurs_at(s, n, j) by {
            if occurs_at(s, n, j) {
                assert(j + n.len() <= s.len());
            }
        }
    } else {
        lemma_find_none(s, n, i + 1);
        assert(!occurs_at(s, n, i));
    }
}

pub proof fn lemma_find_some(s: Seq<u8>, n: Seq<u8>, i: int)
    requires
        spec_find(s, n, i) >= 0,
    ensures
        occurs_at(s, n, spec_find(s, n, i)),
        spec_find(s, n, i) >= i,
        forall|j: int| i <= j < spec_find(s, n, i) ==> !occurs_at(s, n, j),
    decreases s.len() - i,
{
    if n.len() == 0 || i < 0 || i + n.len() > s.len() {
    } else if s.subrange(i, i + n.len() as int) == n {
    } else {
        lemma_find_some(s, n, i + 1);
        assert(!occurs_at(s, n, i));
    }
}

/// An occurrence inside a subrange of `s` is an occurrence in `s`.
pub proof fn lemma_occurrence_in_subrange(s: Seq<u8>, a: int, b: int, n: Seq<u8>, q: int)
    requires
        0 <= a <= b <= s.len(),
        occurs_at(s.subrange(a, b), n, q),
    ensures
        occurs_at(s, n, a + q),
{
    let sub = s.subrange(a, b);
    assert(s.subrange(a + q, a + q + n.len()) =~= sub.subrange(q, q + n.len()));
}

/// An occurrence of `x` inside an occurrence of `r` is an occurrence of `x`.
pub proof fn lemma_occurrence_nested(s: Seq<u8>, r: Seq<u8>, i: int, x: Seq<u8>, j: int)
    requires
        occurs_at(s, r, i),
        occurs_at(r, x, j),
    ensures
        occurs_at(s, x, i + j),
{
    assert(s.subrange(i + j, i + j + x.len()) =~= s.subrange(i, i + r.len()).subrange(
        j,
        j + x.len(),
    ));
}

/// Replace every occurrence of `n` in `s` by `r`, left to right.
pub open spec fn spec_replace_all(s: Seq<u8>, n: Seq<u8>, r: Seq<u8>) -> Seq<u8>
    decreases s.len(),
{
    if n.len() == 0 {
        s
    } else {
        let i = spec_find(s, n, 0);
        if i < 0 || i + n.len() > s.len() {
            s
        } else {
            s.subrange(0, i) + r + spec_replace_all(s.subrange(i + n.len(), s.len() as int), n, r)
        }
    }
}

/// A needle-free haystack is unchanged by replacement.
pub proof fn lemma_replace_all_id(s: Seq<u8>, n: Seq<u8>, r: Seq<u8>)
    requires
        n.len() >= 1,
        !contains_seq(s, n),
    ensures
        spec_replace_all(s, n, r) == s,
{
    let i = spec_find(s, n, 0);
    if i >= 0 {
        lemma_find_some(s, n, 0);
        assert(contains_seq(s, n));
    }
}

/// A successful replacement leaves a copy of `r` in the result.
pub proof fn lemma_replace_all_inserts(s: Seq<u8>, n: Seq<u8>, r: Seq<u8>)
    requires
        n.len() >= 1,
        contains_seq(s, n),
    ensures
        contains_seq(spec_replace_all(s, n, r), r),
{
    let i = spec_find(s, n, 0);
    lemma_find_bounds(s, n, 0);
    if i < 0 {
        lemma_find_none(s, n, 0);
        assert(!contains_seq(s, n));
    }
    lemma_find_some(s, n, 0);
    let res = spec_replace_all(s, n, r);
    let tail = spec_replace_all(s.subrange(i + n.len(), s.len() as int), n, r);
    assert(res == s.subrange(0, i) + r + tail);
    assert(res.subrange(i, i + r.len()) =~= r);
    assert(occurs_at(res, r, i));
}

/// Every alignment of the needle `x` across the window of `r` starting at
/// offset `p` (relative shift `d`) hits a mismatching byte.
pub open spec fn window_has_mismatch(x: Seq<u8>, r: Seq<u8>, d: int, p: int) -> bool
    decreases r.len() - p,
{
    if p >= r.len() || p - d >= x.len() {
        false
    } else if p < 0 || p - d < 0 {
        window_has_mismatch(x, r, d, p + 1)
    } else if r[p] != x[p - d] {
        true
    } else {
        window_has_mismatch(x, r, d, p + 1)
    }
}

/// At every overlapping alignment, `x` mismatches `r` somewhere.
pub open spec fn overlap_free_from(x: Seq<u8>, r: Seq<u8>, d: int) -> bool
    decreases r.len() - d,
{
    if d >= r.len() {
        true
    } else {
        window_has_mismatch(x, r, d, if d >= 0 {
            d
        } else {
            0
        }) && overlap_free_from(x, r, d + 1)
    }
}

/// No occurrence of `x` can overlap an inserted copy of `r`: every alignment
/// of `x` that touches `r` disagrees with `r` at some position.
pub open spec fn overlap_free(x: Seq<u8>, r: Seq<u8>) -> bool {
    x.len() >= 1 && r.len() >= 1 && overlap_free_from(x, r, 1 - x.len())
}

proof fn lemma_window_mismatch_witness(x: Seq<u8>, r: Seq<u8>, d: int, p: int)
    requires
        window_has_mismatch(x, r, d, p),
    ensures
        exists|q: int|
            p <= q < r.len() && 0 <= q - d < x.len() && r[q] != x[q - d],
    decreases r.len() - p,
{
    if p >= r.len() || p - d >= x.len() {
    } else if p < 0 || p - d < 0 {
        lemma_window_mismatch_witness(x, r, d, p + 1);
    } else if r[p] != x[p - d] {
        assert(p <= p < r.len() && 0 <= p - d < x.len() && r[p] != x[p - d]);
    } else {
        lemma_window_mismatch_witness(x, r, d, p + 1);
    }
}

proof fn lemma_overlap_free_at(x: Seq<u8>, r: Seq<u8>, d: int)
    requires
        overlap_free(x, r),
        1 - x.len() <= d < r.len(),
    ensures
        exists|q: int| 0 <= q < r.len() && 0 <= q - d < x.len() && r[q] != x[q - d],
    decreases d - (1 - x.len()),
{
    lemma_overlap_free_step(x, r, 1 - x.len(), d);
    let p0 = if d >= 0 {
        d
    } else {
        0
    };
    lemma_window_mismatch_witness(x, r, d, p0);
    let q = choose|q: int| p0 <= q < r.len() && 0 <= q - d < x.len() && r[q] != x[q - d];
    assert(0 <= q < r.len() && 0 <= q - d < x.len() && r[q] != x[q - d]);
}

proof fn lemma_overlap_free_step(x: Seq<u8>, r: Seq<u8>, lo: int, d: int)
    requires
        overlap_free_from(x, r, lo),
        lo <= d < r.len(),
    ensures
        window_has_mismatch(x, r, d, if d >= 0 {
            d
        } else {
            0
        }),
    decreases d - lo,
{
    if lo < d {
        lemma_overlap_free_step(x, r, lo + 1, d);
    }
}

/// An occurrence of `x` in `s` steers clear of a copy of `r` placed at
/// position `i` of `s`, when `x` and `r` are overlap-free: it lies wholly
/// before it or wholly after it.
proof fn lemma_no_occurrence_overlapping(s: Seq<u8>, r: Seq<u8>, i: int, x: Seq<u8>, q: int)
    requires
        overlap_free(x, r),
        0 <= i,
        i + r.len() <= s.len(),
        s.subrange(i, i + r.len() as int) == r,
        occurs_at(s, x, q),
    ensures
        q + x.len() <= i || q >= i + r.len(),
{
    if q < i + r.len() && q + x.len() > i {
        let d = q - i;
        assert(1 - x.len() <= d < r.len());
        lemma_overlap_free_at(x, r, d);
        let p = choose|p: int| 0 <= p < r.len() && 0 <= p - d < x.len() && r[p] != x[p - d];
        assert(s[i + p] == s.subrange(i, i + r.len() as int)[p]);
        assert(s[q + (p - d)] == s.subrange(q, q + x.len() as int)[p - d]);
        assert(i + p == q + (p - d));
    }
}

/// After replacing `n` by `r`, the needle `x` does not occur, provided `x`
/// cannot overlap an inserted `r` and either `x` is `n` itself or `x` did not
/// occur in the input.
pub proof fn lemma_replace_all_free(s: Seq<u8>, n: Seq<u8>, r: Seq<u8>, x: Seq<u8>)
    requires
        n.len() >= 1,
        overlap_free(x, r),
        x == n || !contains_seq(s, x),
    ensures
        !contains_seq(spec_replace_all(s, n, r), x),
    decreases s.len(),
{
    let i = spec_find(s, n, 0);
    lemma_find_bounds(s, n, 0);
    if i < 0 {
        lemma_find_none(s, n, 0);
        if x == n {
            assert(!contains_seq(s, x));
        }
        if contains_seq(spec_replace_all(s, n, r), x) {
            assert(spec_replace_all(s, n, r) == s);
        }
    } else {
        lemma_find_some(s, n, 0);
        let tail_src = s.subrange(i + n.len(), s.len() as int);
        let tail = spec_replace_all(tail_src, n, r);
        let res = s.subrange(0, i) + r + tail;
        assert(spec_replace_all(s, n, r) == res);
        // the tail of the input is x-free when the input is
        if x != n && contains_seq(tail_src, x) {
            let q = choose|q: int| occurs_at(tail_src, x, q);
            lemma_occurrence_in_subrange(s, i + n.len(), s.len() as int, x, q);
            assert(contains_seq(s, x));
        }
        lemma_replace_all_free(tail_src, n, r, x);
        if contains_seq(res, x) {
            let q = choose|q: int| occurs_at(res, x, q);
            if q + x.len() <= i {
                // the occurrence lies inside the untouched prefix
                assert(res.subrange(q, q + x.len() as int) =~= s.subrange(q, q + x.len() as int));
                assert(occurs_at(s, x, q));
                if x == n {
                    assert(!occurs_at(s, n, q));
                } else {
                    assert(!contains_seq(s, x));
                }
            } else if q >= i + r.len() {
                // the occurrence lies inside the rewritten tail
                let qt = q - (i + r.len());
                assert(res.subrange(q, q + x.len() as int) =~= tail.subrange(
                    qt,
                    qt + x.len() as int,
                ));
                assert(occurs_at(tail, x, qt));
            } else {
                // the occurrence overlaps the inserted replacement
                assert(res.subrange(i, i + r.len() as int) =~= r);
                lemma_no_occurrence_overlapping(res, r, i, x, q);
            }
        }
    }
}

/// Replacing with a needle at least as long as the one removed never
/// shortens, and strictly lengthens when it is longer and an occurrence
/// exists.
pub proof fn lemma_replace_all_longer(s: Seq<u8>, n: Seq<u8>, r: Seq<u8>)
    requires
        n.len() >= 1,
        r.len() >= n.len(),
    ensures
        spec_replace_all(s, n, r).len() >= s.len(),
        r.len() > n.len() && contains_seq(s, n) ==> spec_replace_all(s, n, r).len() > s.len(),
    decreases s.len(),
{
    let i = spec_find(s, n, 0);
    lemma_find_bounds(s, n, 0);
    if i < 0 {
        lemma_find_none(s, n, 0);
        if contains_seq(s, n) {
            let q = choose|q: int| occurs_at(s, n, q);
            assert(!occurs_at(s, n, q));
        }
    } else {
        lemma_find_some(s, n, 0);
        let tail_src = s.subrange(i + n.len(), s.len() as int);
        lemma_replace_all_longer(tail_src, n, r);
    }
}

/// ASCII upper-case letters lowered; all other bytes unchanged.
pub open spec fn ascii_lower_byte(b: u8) -> u8 {
    if 65 <= b <= 90 {
        (b + 32) as u8
    } else {
        b
    }
}

pub open spec fn ascii_lower(s: Seq<u8>) -> Seq<u8> {
    s.map_values(|b: u8| ascii_lower_byte(b))
}

/// Lower-case a byte string, ASCII letters only.
pub fn to_ascii_lower(s: &Vec<u8>) -> (out: Vec<u8>)
    ensures
        out@ == ascii_lower(s@),
{
    let mut out: Vec<u8> = Vec::new();
    let mut k: usize = 0;
    while k < s.len()
        invariant
            0 <= k <= s@.len(),
            out@.len() == k,
            forall|t: int| 0 <= t < k ==> out@[t] == ascii_lower_byte(s@[t]),
        decreases s@.len() - k,
    {
        let b = s[k];
        if 65 <= b && b <= 90 {
            out.push(b + 32);
        } else {
            out.push(b);
        }
        k += 1;
    }
    assert(out@ =~= ascii_lower(s@));
    out
}

/// Relies on String::push: appends exactly one character.
#[verifier::external_body]
pub fn push_char(s: &mut String, c: char)
    ensures
        final(s)@ == old(s)@.push(c),
{
    s.push(c);
}

/// The characters of a string slice, as an indexable vector.
pub fn str_chars(s: &str) -> (out: Vec<char>)
    ensures
        out@ == s@,
{
    let len = s.unicode_len();
    let mut out: Vec<char> = Vec::new();
    let mut k: usize = 0;
    while k < len
        invariant
            0 <= k <= len,
            len == s@.len(),
            out@ == s@.subrange(0, k as int),
        decreases len - k,
    {
        out.push(s.get_char(k));
        assert(out@ =~= s@.subrange(0, k + 1));
        k += 1;
    }
    assert(out@ =~= s@);
    out
}

/// Build a string from an indexable vector of characters.
pub fn chars_to_string(v: &Vec<char>) -> (out: String)
    ensures
        out@ == v@,
{
    let mut out = String::new();
    let mut k: usize = 0;
    while k < v.len()
        invariant
            0 <= k <= v@.len(),
            out@ == v@.subrange(0, k as int),
        decreases v@.len() - k,
    {
        push_char(&mut out, v[k]);
        assert(out@ =~= v@.subrange(0, k + 1));
        k += 1;
    }
    assert(out@ =~= v@);
    out
}

/// Byte-for-byte equality of two byte strings.
pub fn eq_bytes(a: &Vec<u8>, b: &Vec<u8>) -> (r: bool)
    ensures
        r == (a@ == b@),
{
    if a.len() != b.len() {
        return false;
    }
    let r = eq_at(a, b, 0);
    proof {
        if a@.subrange(0, b@.len() as int) == b@ {
            assert(a@ =~= b@);
        } else {
            assert(a@.subrange(0, b@.len() as int) =~= a@);
        }
    }
    r
}

/// ASCII lower-case letters raised; all other bytes unchanged.
pub open spec fn ascii_upper_byte(b: u8) -> u8 {
    if 97 <= b <= 122 {
        (b - 32) as u8
    } else {
        b
    }
}

pub open spec fn ascii_upper(s: Seq<u8>) -> Seq<u8> {
    s.map_values(|b: u8| ascii_upper_byte(b))
}

/// Upper-case a byte string, ASCII letters only.
pub fn to_ascii_upper(s: &Vec<u8>) -> (out: Vec<u8>)
    ensures
        out@ == ascii_upper(s@),
{
    let mut out: Vec<u8> = Vec::new();
    let mut k: usize = 0;
    while k < s.len()
        invariant
            0 <= k <= s@.len(),
            out@.len() == k,
            forall|t: int| 0 <= t < k ==> out@[t] == ascii_upper_byte(s@[t]),
        decreases s@.len() - k,
    {
        let b = s[k];
        if 97 <= b && b <= 122 {
            out.push(b - 32);
        } else {
            out.push(b);
        }
        k += 1;
    }
    assert(out@ =~= ascii_upper(s@));
    out
}

/// Equality of two strings up to ASCII case.
pub fn str_eq_ignore_ascii_case(a: &str, b: &str) -> (r: bool)
    ensures
        r == (ascii_upper(a.spec_bytes()) == ascii_upper(b.spec_bytes())),
{
    let av = a.as_bytes_vec();
    let bv = b.as_bytes_vec();
    let au = to_ascii_upper(&av);
    let bu = to_ascii_upper(&bv);
    eq_bytes(&au, &bu)
}

/// The decimal digits of a non-negative number, most significant first.
pub open spec fn spec_digits(n: int) -> Seq<u8>
    decreases n,
{
    if n < 0 {
        Seq::empty()
    } else if n < 10 {
        seq![(48 + n) as u8]
    } else {
        spec_digits(n / 10).push((48 + n % 10) as u8)
    }
}

/// Render a number in decimal.
pub fn u32_digits(n: u32) -> (out: Vec<u8>)
    ensures
        out@ == spec_digits(n as int),
    decreases n,
{
    if n < 10 {
        let out: Vec<u8> = vec![48 + (n as u8)];
        proof {
            assert(out@ =~= spec_digits(n as int));
        }
        out
    } else {
        let mut out = u32_digits(n / 10);
        out.push(48 + ((n % 10) as u8));
        out
    }
}

/// Render a number in decimal.
pub fn u64_digits(n: u64) -> (out: Vec<u8>)
    ensures
        out@ == spec_digits(n as int),
    decreases n,
{
    if n < 10 {
        let out: Vec<u8> = vec![48 + (n as u8)];
        proof {
            assert(out@ =~= spec_digits(n as int));
        }
        out
    } else {
        let mut out = u64_digits(n / 10);
        out.push(48 + ((n % 10) as u8));
        out
    }
}

pub open spec fn is_digit_byte(b: u8) -> bool {
    48 <= b <= 57
}

/// The number the digit string denotes, most significant digit first.
pub open spec fn digits_val(s: Seq<u8>) -> int
    decreases s.len(),
{
    if s.len() == 0 {
        0
    } else {
        digits_val(s.drop_last()) * 10 + (s.last() - 48)
    }
}

proof fn lemma_digits_val_step(s: Seq<u8>, i: int)
    requires
        0 <= i < s.len(),
    ensures
        digits_val(s.subrange(0, i + 1)) == digits_val(s.subrange(0, i)) * 10 + (s[i] - 48),
{
    assert(s.subrange(0, i + 1).drop_last() =~= s.subrange(0, i));
    assert(s.subrange(0, i + 1).last() == s[i]);
}

/// Parse a non-empty, all-digit string as a number, if its value fits.
pub open spec fn spec_parse_u32(s: Seq<u8>) -> Option<u32> {
    if s.len() >= 1 && (forall|t: int| 0 <= t < s.len() ==> is_digit_byte(#[trigger] s[t]))
        && digits_val(s) <= u32::MAX {
        Some(digits_val(s) as u32)
    } else {
        None
    }
}

/// Parse a decimal number: digits only, no sign, value within range.
pub fn parse_u32(s: &Vec<u8>) -> (r: Option<u32>)
    ensures
        r == spec_parse_u32(s@),
{
    if s.len() == 0 {
        return None;
    }
    let mut acc: u32 = 0;
    let mut over = false;
    let mut i: usize = 0;
    while i < s.len()
        invariant
            0 <= i <= s@.len(),
            forall|t: int| 0 <= t < i ==> is_digit_byte(#[trigger] s@[t]),
            !over ==> acc == digits_val(s@.subrange(0, i as int)),
            over ==> digits_val(s@.subrange(0, i as int)) > u32::MAX,
        decreases s@.len() - i,
    {
        let b = s[i];
        if !(48 <= b && b <= 57) {
            proof {
                assert(!is_digit_byte(s@[i as int]));
            }
            return None;
        }
        let d = (b - 48) as u32;
        proof {
            lemma_digits_val_step(s@, i as int);
        }
        if over {
            proof {
                let prev = digits_val(s@.subrange(0, i as int));
                assert(digits_val(s@.subrange(0, i + 1)) == prev * 10 + (s@[i as int] - 48));
                assert(prev * 10 >= prev) by (nonlinear_arith)
                    requires
                        prev > 0,
                ;
            }
        } else {
            let next = match acc.checked_mul(10) {
                Some(v) => v.checked_add(d),
                None => None,
            };
            match next {
                Some(v) => {
                    acc = v;
                },
                None => {
                    over = true;
                    proof {
                        let prev = digits_val(s@.subrange(0, i as int));
                        assert(digits_val(s@.subrange(0, i + 1)) == prev * 10 + (s@[i as int]
                            - 48));
                    }
                },
            }
        }
        i += 1;
    }
    proof {
        assert(s@.subrange(0, s@.len() as int) =~= s@);
    }
    if over {
        None
    } else {
        Some(acc)
    }
}

/// `n` is a prefix of `s`.
pub open spec fn starts_with_seq(s: Seq<u8>, n: Seq<u8>) -> bool {
    n.len() <= s.len() && s.subrange(0, n.len() as int) == n
}

pub fn starts_with_bytes(s: &Vec<u8>, n: &Vec<u8>) -> (r: bool)
    ensures
        r == starts_with_seq(s@, n@),
{
    if n.len() > s.len() {
        return false;
    }
    eq_at(s, n, 0)
}

/// Byte-for-byte equality of `n` with the window of `s` starting at `i`.
fn eq_at(s: &Vec<u8>, n: &Vec<u8>, i: usize) -> (r: bool)
    requires
        i + n@.len() <= s@.len(),
    ensures
        r == (s@.subrange(i as int, i + n@.len()) == n@),
{
    let mut k: usize = 0;
    while k < n.len()
        invariant
            0 <= k <= n@.len(),
            i + n@.len() <= s@.len(),
            forall|t: int| 0 <= t < k ==> s@[i + t] == n@[t],
        decreases n@.len() - k,
    {
        let slen = s.len();
        assert(i + k < slen);
        if s[i + k] != n[k] {
            assert(s@.subrange(i as int, i + n@.len())[k as int] != n@[k as int]);
            return false;
        }
        k += 1;
    }
    assert(s@.subrange(i as int, i + n@.len()) =~= n@);
    true
}

/// First occurrence of `n` in `s` at or after `from`, if any.
pub fn find_first(s: &Vec<u8>, n: &Vec<u8>, from: usize) -> (r: Option<usize>)
    requires
        n@.len() >= 1,
    ensures
        match r {
            Some(j) => spec_find(s@, n@, from as int) == j && from <= j && j + n@.len() <= s@.len(),
            None => spec_find(s@, n@, from as int) == -1,
        },
{
    let mut i: usize = from;
    loop
        invariant
            from <= i,
            n@.len() >= 1,
            spec_find(s@, n@, from as int) == spec_find(s@, n@, i as int),
        decreases s@.len() + n@.len() - i,
    {
        if n.len() > s.len() || i > s.len() - n.len() {
            assert(i + n@.len() > s@.len());
            return None;
        }
        if eq_at(s, n, i) {
            return Some(i);
        }
        assert(spec_find(s@, n@, i as int) == spec_find(s@, n@, i + 1));
        i += 1;
    }
}

/// Whether `n` occurs anywhere in `s`.
pub fn contains_needle(s: &Vec<u8>, n: &Vec<u8>) -> (r: bool)
    requires
        n@.len() >= 1,
    ensures
        r == contains_seq(s@, n@),
{
    match find_first(s, n, 0) {
        Some(j) => {
            proof {
                lemma_find_some(s@, n@, 0);
            }
            true
        },
        None => {
            proof {
                lemma_find_none(s@, n@, 0);
                if contains_seq(s@, n@) {
                    let q = choose|q: int| occurs_at(s@, n@, q);
                    assert(!occurs_at(s@, n@, q));
                }
            }
            false
        },
    }
}

/// Append `s[a..b]` to `out`.
pub fn append_range(out: &mut Vec<u8>, s: &Vec<u8>, a: usize, b: usize)
    requires
        a <= b <= s@.len(),
    ensures
        final(out)@ == old(out)@ + s@.subrange(a as int, b as int),
{
    let ghost base = out@;
    let mut k: usize = a;
    while k < b
        invariant
            a <= k <= b <= s@.len(),
            out@ == base + s@.subrange(a as int, k as int),
        decreases b - k,
    {
        out.push(s[k]);
        assert(base + s@.subrange(a as int, k + 1) =~= (base + s@.subrange(a as int, k as int)).push(
            s@[k as int],
        ));
        k += 1;
    }
    assert(out@ =~= base + s@.subrange(a as int, b as int));
}

/// Append all of `piece` to `out`.
pub fn append_bytes(out: &mut Vec<u8>, piece: &Vec<u8>)
    ensures
        final(out)@ == old(out)@ + piece@,
{
    append_range(out, piece, 0, piece.len());
    assert(old(out)@ + piece@.subrange(0, piece@.len() as int) =~= old(out)@ + piece@);
}

pub proof fn lemma_find_shift(s: Seq<u8>, n: Seq<u8>, pos: int)
    requires
        n.len() >= 1,
        0 <= pos <= s.len(),
    ensures
        ({
            let inner = spec_find(s.subrange(pos, s.len() as int), n, 0);
            &&& (spec_find(s, n, pos) == -1 <==> inner == -1)
            &&& (inner >= 0 ==> spec_find(s, n, pos) == pos + inner)
        }),
{
    lemma_find_shift_aux(s, n, pos, 0);
}

proof fn lemma_find_shift_aux(s: Seq<u8>, n: Seq<u8>, pos: int, k: int)
    requires
        n.len() >= 1,
        0 <= pos <= s.len(),
        0 <= k,
    ensures
        ({
            let inner = spec_find(s.subrange(pos, s.len() as int), n, k);
            &&& (spec_find(s, n, pos + k) == -1 <==> inner == -1)
            &&& (inner >= 0 ==> spec_find(s, n, pos + k) == pos + inner)
        }),
    decreases s.len() - pos - k,
{
    let sub = s.subrange(pos, s.len() as int);
    if k + n.len() > sub.len() {
        assert(pos + k + n.len() > s.len());
    } else {
        assert(sub.subrange(k, k + n.len() as int) =~= s.subrange(pos + k, pos + k + n.len()));
        if sub.subrange(k, k + n.len() as int) == n {
        } else {
            lemma_find_shift_aux(s, n, pos, k + 1);
        }
    }
}

/// Replace every occurrence of `n` in `s` by `r`, left to right.
pub fn replace_all(s: &Vec<u8>, n: &Vec<u8>, r: &Vec<u8>) -> (out: Vec<u8>)
    requires
        n@.len() >= 1,
    ensures
        out@ == spec_replace_all(s@, n@, r@),
{
    let mut out: Vec<u8> = Vec::new();
    let mut pos: usize = 0;
    proof {
        assert(s@.subrange(0, s@.len() as int) =~= s@);
    }
    loop
        invariant
            n@.len() >= 1,
            pos <= s@.len(),
            spec_replace_all(s@, n@, r@) == out@ + spec_replace_all(
                s@.subrange(pos as int, s@.len() as int),
                n@,
                r@,
            ),
        decreases s@.len() - pos,
    {
        let ghost rest = s@.subrange(pos as int, s@.len() as int);
        match find_first(s, n, pos) {
            None => {
                proof {
                    lemma_find_shift(s@, n@, pos as int);
                    assert(spec_replace_all(rest, n@, r@) == rest);
                }
                append_range(&mut out, s, pos, s.len());
                return out;
            },
            Some(j) => {
                proof {
                    lemma_find_shift(s@, n@, pos as int);
                    lemma_find_bounds(rest, n@, 0);
                    let inner = spec_find(rest, n@, 0);
                    assert(inner >= 0 && pos + inner == j);
                    lemma_find_some(rest, n@, 0);
                    let rest2 = rest.subrange(inner + n@.len(), rest.len() as int);
                    assert(spec_replace_all(rest, n@, r@) == rest.subrange(0, inner) + r@
                        + spec_replace_all(rest2, n@, r@));
                    assert(rest.subrange(0, inner) =~= s@.subrange(pos as int, j as int));
                    assert(rest2 =~= s@.subrange(j + n@.len(), s@.len() as int));
                }
                append_range(&mut out, s, pos, j);
                append_bytes(&mut out, r);
                let slen = s.len();
                assert(j + n@.len() <= slen);
                let newpos = j + n.len();
                proof {
                    assert(spec_replace_all(s@, n@, r@) == out@ + spec_replace_all(
                        s@.subrange(newpos as int, s@.len() as int),
                        n@,
                        r@,
                    ));
                }
                pos = newpos;
            },
        }
    }
}

} // verus!

//! The game's `user.cfg` as line-oriented text: reading the configured
//! graphics renderer and resolution out of it, and rewriting it with new
//! values while preserving every unrelated line. The file is split on line
//! feeds with a trailing carriage return per line dropped, and rejoined with
//! line feeds.
use vstd::prelude::*;

use vstd::string::StrSliceExecFns;
use vstd::string::StringSliceAdditionalSpecFns;

use crate::text::append_bytes;
use crate::text::append_range;
use crate::text::find_first;
use crate::text::lemma_find_bounds;
use crate::text::lemma_find_some;
use crate::text::parse_u32;
use crate::text::spec_digits;
use crate::text::spec_find;
use crate::text::spec_parse_u32;
use crate::text::starts_with_bytes;
use crate::text::starts_with_seq;
use crate::text::u32_digits;
use crate::translation::spec_trim_end;
use crate::translation::spec_trim_start;
use crate::translation::trim_bytes;

verus! {

/// A line with a trailing carriage return dropped.
pub open spec fn strip_cr(l: Seq<u8>) -> Seq<u8> {
    if l.len() > 0 && l[l.len() - 1] == 13 {
        l.drop_last()
    } else {
        l
    }
}

/// The lines of the file: split at line feeds, no empty final line after a
/// trailing line feed, carriage returns at line ends dropped.
pub open spec fn spec_lines(c: Seq<u8>) -> Seq<Seq<u8>>
    decreases c.len(),
{
    if c.len() == 0 {
        Seq::empty()
    } else {
        let i = spec_find(c, seq![10u8], 0);
        if i < 0 || i >= c.len() {
            seq![strip_cr(c)]
        } else {
            seq![strip_cr(c.subrange(0, i))] + spec_lines(c.subrange(i + 1, c.len() as int))
        }
    }
}

/// The file formed from lines joined by line feeds.
pub open spec fn spec_join(ls: Seq<Seq<u8>>) -> Seq<u8>
    decreases ls.len(),
{
    if ls.len() == 0 {
        Seq::empty()
    } else if ls.len() == 1 {
        ls[0]
    } else {
        ls[0] + seq![10u8] + spec_join(ls.drop_first())
    }
}

proof fn lemma_join_push(ls: Seq<Seq<u8>>, x: Seq<u8>)
    requires
        ls.len() >= 1,
    ensures
        spec_join(ls.push(x)) == spec_join(ls) + seq![10u8] + x,
    decreases ls.len(),
{
    if ls.len() == 1 {
        assert(ls.push(x)[0] == ls[0]);
        assert(ls.push(x).drop_first() =~= seq![x]);
        assert(seq![x][0] == x);
        assert(spec_join(seq![x]) == x);
        assert(spec_join(ls.push(x)) == ls[0] + seq![10u8] + x);
    } else {
        assert(ls.push(x).drop_first() =~= ls.drop_first().push(x));
        lemma_join_push(ls.drop_first(), x);
        assert(spec_join(ls.push(x)) == ls[0] + seq![10u8] + (spec_join(ls.drop_first()) + seq![
            10u8,
        ] + x));
        assert(ls[0] + seq![10u8] + (spec_join(ls.drop_first()) + seq![10u8] + x) =~= (ls[0] + seq![
            10u8,
        ] + spec_join(ls.drop_first())) + seq![10u8] + x);
    }
}

/// Copy one line's bytes, dropping a trailing carriage return.
fn line_of(c: &Vec<u8>, a: usize, b: usize) -> (out: Vec<u8>)
    requires
        a <= b <= c@.len(),
    ensures
        out@ == strip_cr(c@.subrange(a as int, b as int)),
{
    let mut out: Vec<u8> = Vec::new();
    append_range(&mut out, c, a, b);
    if out.len() > 0 && out[out.len() - 1] == 13 {
        let ghost before = out@;
        out.pop();
        proof {
            assert(out@ =~= before.drop_last());
        }
    }
    out
}

/// Split a file into its lines.
pub fn split_lines(c: &Vec<u8>) -> (out: Vec<Vec<u8>>)
    ensures
        out.deep_view() == spec_lines(c@),
{
    let nl: Vec<u8> = vec![10u8];
    proof {
        assert(nl@ =~= seq![10u8]);
    }
    let mut out: Vec<Vec<u8>> = Vec::new();
    let mut pos: usize = 0;
    proof {
        assert(out.deep_view() =~= Seq::<Seq<u8>>::empty());
        assert(c@.subrange(0, c@.len() as int) =~= c@);
    }
    while pos < c.len()
        invariant
            0 <= pos <= c@.len(),
            nl@ == seq![10u8],
            spec_lines(c@) == out.deep_view() + spec_lines(c@.subrange(pos as int, c@.len() as int)),
        decreases c@.len() - pos,
    {
        let ghost rest = c@.subrange(pos as int, c@.len() as int);
        let ghost outv = out.deep_view();
        match find_first(c, &nl, pos) {
            None => {
                proof {
                    crate::text::lemma_find_shift(c@, nl@, pos as int);
                    assert(spec_find(rest, seq![10u8], 0) == -1);
                    assert(spec_lines(rest) == seq![strip_cr(rest)]);
                }
                let line = line_of(c, pos, c.len());
                out.push(line);
                proof {
                    assert(out.deep_view() =~~= outv.push(strip_cr(rest)));
                    assert(outv.push(strip_cr(rest)) =~= outv + seq![strip_cr(rest)]);
                    assert(c@.subrange(c@.len() as int, c@.len() as int) =~= Seq::<u8>::empty());
                    assert(out.deep_view() + spec_lines(
                        c@.subrange(c@.len() as int, c@.len() as int),
                    ) =~= outv + seq![strip_cr(rest)]);
                }
                pos = c.len();
            },
            Some(j) => {
                proof {
                    crate::text::lemma_find_shift(c@, nl@, pos as int);
                    lemma_find_bounds(rest, seq![10u8], 0);
                    let inner = spec_find(rest, seq![10u8], 0);
                    assert(inner >= 0 && pos + inner == j);
                    lemma_find_some(rest, seq![10u8], 0);
                    assert(0 <= inner < rest.len());
                    assert(spec_lines(rest) == seq![strip_cr(rest.subrange(0, inner))]
                        + spec_lines(rest.subrange(inner + 1, rest.len() as int)));
                    assert(rest.subrange(0, inner) =~= c@.subrange(pos as int, j as int));
                    assert(rest.subrange(inner + 1, rest.len() as int) =~= c@.subrange(
                        j + 1,
                        c@.len() as int,
                    ));
                }
                let line = line_of(c, pos, j);
                out.push(line);
                proof {
                    assert(out.deep_view() =~~= outv.push(
                        strip_cr(c@.subrange(pos as int, j as int)),
                    ));
                    assert(outv + (seq![strip_cr(c@.subrange(pos as int, j as int))] + spec_lines(
                        c@.subrange(j + 1, c@.len() as int),
                    )) =~= out.deep_view() + spec_lines(c@.subrange(j + 1, c@.len() as int)));
                }
                pos = j + 1;
            },
        }
    }
    proof {
        assert(c@.subrange(pos as int, c@.len() as int).len() == 0);
        assert(out.deep_view() + spec_lines(c@.subrange(pos as int, c@.len() as int)) =~= out.deep_view());
    }
    out
}

/// Join lines back into a file.
pub fn join_lines(ls: &Vec<Vec<u8>>) -> (out: Vec<u8>)
    ensures
        out@ == spec_join(ls.deep_view()),
{
    let mut out: Vec<u8> = Vec::new();
    let mut i: usize = 0;
    while i < ls.len()
        invariant
            0 <= i <= ls@.len(),
            out@ == spec_join(ls.deep_view().subrange(0, i as int)),
        decreases ls@.len() - i,
    {
        let ghost pref = ls.deep_view().subrange(0, i as int);
        if i > 0 {
            out.push(10u8);
            append_bytes(&mut out, &ls[i]);
            proof {
                assert(ls.deep_view().subrange(0, i + 1) =~= pref.push(ls.deep_view()[i as int]));
                lemma_join_push(pref, ls.deep_view()[i as int]);
                assert(out@ =~= spec_join(pref) + seq![10u8] + ls.deep_view()[i as int]);
            }
        } else {
            append_bytes(&mut out, &ls[i]);
            proof {
                assert(ls.deep_view().subrange(0, 1) =~= seq![ls.deep_view()[0]]);
                assert(out@ =~= ls.deep_view()[0]);
            }
        }
        i += 1;
    }
    proof {
        assert(ls.deep_view().subrange(0, ls.deep_view().len() as int) =~= ls.deep_view());
    }
    out
}

/// A line whose trimmed form starts with the key.
pub open spec fn line_has_key(l: Seq<u8>, key: Seq<u8>) -> bool {
    starts_with_seq(spec_trim_end(spec_trim_start(l)), key)
}

fn line_has_key_exec(l: &Vec<u8>, key: &Vec<u8>) -> (r: bool)
    ensures
        r == line_has_key(l@, key@),
{
    let trimmed = trim_bytes(l);
    starts_with_bytes(&trimmed, key)
}

/// The value between the first equals sign and the next one (or the line
/// end), trimmed and parsed as a number.
pub open spec fn spec_field_val(l: Seq<u8>) -> Option<u32> {
    let p = spec_find(l, seq![61u8], 0);
    if p < 0 || p >= l.len() {
        None
    } else {
        let q = spec_find(l, seq![61u8], p + 1);
        let end = if q < 0 || q > l.len() {
            l.len() as int
        } else {
            q
        };
        spec_parse_u32(spec_trim_end(spec_trim_start(l.subrange(p + 1, end))))
    }
}

fn field_val(l: &Vec<u8>) -> (r: Option<u32>)
    ensures
        r == spec_field_val(l@),
{
    let eq: Vec<u8> = vec![61u8];
    proof {
        assert(eq@ =~= seq![61u8]);
    }
    match find_first(l, &eq, 0) {
        None => {
            proof {
                lemma_find_bounds(l@, seq![61u8], 0);
            }
            None
        },
        Some(p) => {
            proof {
                lemma_find_some(l@, seq![61u8], 0);
            }
            let llen = l.len();
            assert(p + 1 <= llen);
            let end = match find_first(l, &eq, p + 1) {
                None => l.len(),
                Some(q) => {
                    proof {
                        lemma_find_some(l@, seq![61u8], p + 1);
                    }
                    q
                },
            };
            let mut field: Vec<u8> = Vec::new();
            append_range(&mut field, l, p + 1, end);
            let trimmed = trim_bytes(&field);
            parse_u32(&trimmed)
        },
    }
}

pub open spec fn renderer_key() -> Seq<u8> {
    ("r.graphicsRenderer").spec_bytes()
}

pub open spec fn width_key() -> Seq<u8> {
    ("r_width").spec_bytes()
}

pub open spec fn height_key() -> Seq<u8> {
    ("r_height").spec_bytes()
}

pub open spec fn restricted_key() -> Seq<u8> {
    ("Con_Restricted").spec_bytes()
}

/// The first renderer assignment that parses, scanning from the top; the
/// default renderer otherwise.
pub open spec fn spec_renderer_scan(ls: Seq<Seq<u8>>, i: int) -> u32
    decreases ls.len() - i,
{
    if i < 0 || i >= ls.len() {
        0u32
    } else if line_has_key(ls[i], renderer_key()) && spec_field_val(ls[i]) is Some {
        spec_field_val(ls[i])->0
    } else {
        spec_renderer_scan(ls, i + 1)
    }
}

/// Read the configured graphics renderer out of `user.cfg` content: the
/// first `r.graphicsRenderer` assignment whose value parses; `0` when none
/// does or the line is absent.
pub fn get_graphics_renderer_content(c: &Vec<u8>) -> (r: u32)
    ensures
        r == spec_renderer_scan(spec_lines(c@), 0),
{
    let ls = split_lines(c);
    let key = ("r.graphicsRenderer").as_bytes_vec();
    let mut i: usize = 0;
    while i < ls.len()
        invariant
            0 <= i <= ls@.len(),
            key@ == renderer_key(),
            ls.deep_view() == spec_lines(c@),
            spec_renderer_scan(ls.deep_view(), 0) == spec_renderer_scan(ls.deep_view(), i as int),
        decreases ls@.len() - i,
    {
        proof {
            assert(ls.deep_view()[i as int] == ls@[i as int]@);
        }
        if line_has_key_exec(&ls[i], &key) {
            match field_val(&ls[i]) {
                Some(v) => {
                    return v;
                },
                None => {
                },
            }
        }
        i += 1;
    }
    0
}

/// The last width and height assignments that parse, scanning from the top;
/// the defaults otherwise.
pub open spec fn spec_res_scan(ls: Seq<Seq<u8>>, i: int, w: u32, h: u32) -> (u32, u32)
    decreases ls.len() - i,
{
    if i < 0 || i >= ls.len() {
        (w, h)
    } else if line_has_key(ls[i], width_key()) {
        match spec_field_val(ls[i]) {
            Some(v) => spec_res_scan(ls, i + 1, v, h),
            None => spec_res_scan(ls, i + 1, w, h),
        }
    } else if line_has_key(ls[i], height_key()) {
        match spec_field_val(ls[i]) {
            Some(v) => spec_res_scan(ls, i + 1, w, v),
            None => spec_res_scan(ls, i + 1, w, h),
        }
    } else {
        spec_res_scan(ls, i + 1, w, h)
    }
}

/// Read the configured resolution out of `user.cfg` content: the last
/// `r_width` and `r_height` assignments that parse, defaulting to 1920 by
/// 1080 where absent.
pub fn get_user_cfg_resolution_content(c: &Vec<u8>) -> (r: (u32, u32))
    ensures
        r == spec_res_scan(spec_lines(c@), 0, 1920u32, 1080u32),
{
    let ls = split_lines(c);
    let wkey = ("r_width").as_bytes_vec();
    let hkey = ("r_height").as_bytes_vec();
    let mut w: u32 = 1920;
    let mut h: u32 = 1080;
    let mut i: usize = 0;
    while i < ls.len()
        invariant
            0 <= i <= ls@.len(),
            wkey@ == width_key(),
            hkey@ == height_key(),
            ls.deep_view() == spec_lines(c@),
            spec_res_scan(ls.deep_view(), 0, 1920u32, 1080u32) == spec_res_scan(
                ls.deep_view(),
                i as int,
                w,
                h,
            ),
        decreases ls@.len() - i,
    {
        proof {
            assert(ls.deep_view()[i as int] == ls@[i as int]@);
        }
        if line_has_key_exec(&ls[i], &wkey) {
            match field_val(&ls[i]) {
                Some(v) => {
                    w = v;
                },
                None => {
                },
            }
        } else if line_has_key_exec(&ls[i], &hkey) {
            match field_val(&ls[i]) {
                Some(v) => {
                    h = v;
                },
                None => {
                },
            }
        }
        i += 1;
    }
    (w, h)
}

/// Copy a line's bytes.
fn copy_bytes(v: &Vec<u8>) -> (out: Vec<u8>)
    ensures
        out@ == v@,
{
    let mut out: Vec<u8> = Vec::new();
    append_bytes(&mut out, v);
    proof {
        assert(out@ =~= v@);
    }
    out
}

/// Append the lines `src[a..b]` to `out`.
fn append_lines(out: &mut Vec<Vec<u8>>, src: &Vec<Vec<u8>>, a: usize, b: usize)
    requires
        a <= b <= src@.len(),
    ensures
        final(out).deep_view() == old(out).deep_view() + src.deep_view().subrange(a as int, b as int),
{
    let ghost base = out.deep_view();
    let mut k = a;
    while k < b
        invariant
            a <= k <= b <= src@.len(),
            out.deep_view() == base + src.deep_view().subrange(a as int, k as int),
        decreases b - k,
    {
        let ghost cur = out.deep_view();
        out.push(copy_bytes(&src[k]));
        proof {
            assert(out.deep_view() =~~= cur.push(src.deep_view()[k as int]));
            assert(cur.push(src.deep_view()[k as int]) =~= base + src.deep_view().subrange(
                a as int,
                k + 1,
            ));
        }
        k += 1;
    }
}

/// A line that is empty once trimmed.
pub open spec fn is_blank_line(l: Seq<u8>) -> bool {
    spec_trim_end(spec_trim_start(l)).len() == 0
}

fn is_blank_line_exec(l: &Vec<u8>) -> (r: bool)
    ensures
        r == is_blank_line(l@),
{
    let trimmed = trim_bytes(l);
    trimmed.len() == 0
}

/// Index of the last line that is not blank, or -1.
pub open spec fn last_nonblank(ls: Seq<Seq<u8>>) -> int
    decreases ls.len(),
{
    if ls.len() == 0 {
        -1
    } else if !is_blank_line(ls.last()) {
        ls.len() - 1
    } else {
        last_nonblank(ls.drop_last())
    }
}

/// Where new assignments are inserted: directly after the last non-blank
/// line, or at the end when every line is blank.
pub open spec fn spec_insert_index(ls: Seq<Seq<u8>>) -> int {
    if last_nonblank(ls) == -1 {
        ls.len() as int
    } else {
        last_nonblank(ls) + 1
    }
}

/// A line kept by the resolution rewrite: not one of the assignments it
/// rewrites.
pub open spec fn keeps_for_resolution(l: Seq<u8>) -> bool {
    !(line_has_key(l, restricted_key()) || line_has_key(l, width_key()) || line_has_key(
        l,
        height_key(),
    ) || line_has_key(l, renderer_key()))
}

/// The first renderer assignment line, scanning from the top.
pub open spec fn spec_first_renderer(ls: Seq<Seq<u8>>, i: int) -> Option<Seq<u8>>
    decreases ls.len() - i,
{
    if i < 0 || i >= ls.len() {
        None
    } else if line_has_key(ls[i], renderer_key()) {
        Some(ls[i])
    } else {
        spec_first_renderer(ls, i + 1)
    }
}

/// The renderer assignment line written for a value.
pub open spec fn renderer_line(n: u32) -> Seq<u8> {
    ("r.graphicsRenderer = ").spec_bytes() + spec_digits(n as int)
}

fn renderer_line_exec(n: u32) -> (out: Vec<u8>)
    ensures
        out@ == renderer_line(n),
{
    let mut out = ("r.graphicsRenderer = ").as_bytes_vec();
    let digits = u32_digits(n);
    append_bytes(&mut out, &digits);
    out
}

/// Rewriting the renderer: every prior renderer assignment is dropped and a
/// single fresh one appended at the end.
pub open spec fn spec_set_renderer_lines(ls: Seq<Seq<u8>>, n: u32) -> Seq<Seq<u8>> {
    ls.filter(|l: Seq<u8>| !line_has_key(l, renderer_key())).push(renderer_line(n))
}

/// The lines of a file with every renderer assignment dropped.
fn filter_lines_not_renderer(ls: &Vec<Vec<u8>>) -> (out: Vec<Vec<u8>>)
    ensures
        out.deep_view() == ls.deep_view().filter(|l: Seq<u8>| !line_has_key(l, renderer_key())),
{
    let key = ("r.graphicsRenderer").as_bytes_vec();
    let ghost lsv = ls.deep_view();
    let ghost keep = |l: Seq<u8>| !line_has_key(l, renderer_key());
    let mut out: Vec<Vec<u8>> = Vec::new();
    let mut j: usize = 0;
    proof {
        reveal(Seq::filter);
        assert(lsv.subrange(0, 0).filter(keep) =~~= out.deep_view());
    }
    while j < ls.len()
        invariant
            0 <= j <= ls@.len(),
            key@ == renderer_key(),
            lsv == ls.deep_view(),
            out.deep_view() == lsv.subrange(0, j as int).filter(keep),
            keep == |l: Seq<u8>| !line_has_key(l, renderer_key()),
        decreases ls@.len() - j,
    {
        let ghost outv = out.deep_view();
        proof {
            reveal(Seq::filter);
            assert(lsv.subrange(0, j + 1) =~= lsv.subrange(0, j as int).push(lsv[j as int]));
            assert(lsv.subrange(0, j + 1).drop_last() =~= lsv.subrange(0, j as int));
            assert(lsv[j as int] == ls@[j as int]@);
            if keep(lsv[j as int]) {
                assert(lsv.subrange(0, j + 1).filter(keep) =~= lsv.subrange(0, j as int).filter(
                    keep,
                ).push(lsv[j as int]));
            } else {
                assert(lsv.subrange(0, j + 1).filter(keep) =~= lsv.subrange(0, j as int).filter(
                    keep,
                ));
            }
        }
        if !line_has_key_exec(&ls[j], &key) {
            out.push(copy_bytes(&ls[j]));
            proof {
                assert(out.deep_view() =~~= outv.push(lsv[j as int]));
            }
        }
        j += 1;
    }
    proof {
        assert(lsv.subrange(0, lsv.len() as int) =~= lsv);
    }
    out
}

/// Rewrite `user.cfg` content with a new graphics renderer: prior renderer
/// assignments are dropped and a single fresh one appended at the end; every
/// other line is preserved in order.
pub fn set_graphics_renderer_content(c: &Vec<u8>, renderer: u32) -> (out: Vec<u8>)
    ensures
        out@ == spec_join(spec_set_renderer_lines(spec_lines(c@), renderer)),
{
    let ls = split_lines(c);
    let mut kept = filter_lines_not_renderer(&ls);
    let ghost before = kept.deep_view();
    kept.push(renderer_line_exec(renderer));
    proof {
        assert(kept.deep_view() =~~= before.push(renderer_line(renderer)));
    }
    join_lines(&kept)
}

fn filter_lines_for_resolution(ls: &Vec<Vec<u8>>) -> (out: Vec<Vec<u8>>)
    ensures
        out.deep_view() == ls.deep_view().filter(|l: Seq<u8>| keeps_for_resolution(l)),
{
    let rkey = ("r.graphicsRenderer").as_bytes_vec();
    let wkey = ("r_width").as_bytes_vec();
    let hkey = ("r_height").as_bytes_vec();
    let ckey = ("Con_Restricted").as_bytes_vec();
    let ghost lsv = ls.deep_view();
    let ghost keep = |l: Seq<u8>| keeps_for_resolution(l);
    let mut out: Vec<Vec<u8>> = Vec::new();
    let mut j: usize = 0;
    proof {
        reveal(Seq::filter);
        assert(lsv.subrange(0, 0).filter(keep) =~~= out.deep_view());
    }
    while j < ls.len()
        invariant
            0 <= j <= ls@.len(),
            rkey@ == renderer_key(),
            wkey@ == width_key(),
            hkey@ == height_key(),
            ckey@ == restricted_key(),
            lsv == ls.deep_view(),
            out.deep_view() == lsv.subrange(0, j as int).filter(keep),
            keep == |l: Seq<u8>| keeps_for_resolution(l),
        decreases ls@.len() - j,
    {
        let ghost outv = out.deep_view();
        proof {
            reveal(Seq::filter);
            assert(lsv.subrange(0, j + 1) =~= lsv.subrange(0, j as int).push(lsv[j as int]));
            assert(lsv.subrange(0, j + 1).drop_last() =~= lsv.subrange(0, j as int));
            assert(lsv[j as int] == ls@[j as int]@);
            if keep(lsv[j as int]) {
                assert(lsv.subrange(0, j + 1).filter(keep) =~= lsv.subrange(0, j as int).filter(
                    keep,
                ).push(lsv[j as int]));
            } else {
                assert(lsv.subrange(0, j + 1).filter(keep) =~= lsv.subrange(0, j as int).filter(
                    keep,
                ));
            }
        }
        let drop = line_has_key_exec(&ls[j], &ckey) || line_has_key_exec(&ls[j], &wkey)
            || line_has_key_exec(&ls[j], &hkey) || line_has_key_exec(&ls[j], &rkey);
        if !drop {
            out.push(copy_bytes(&ls[j]));
            proof {
                assert(out.deep_view() =~~= outv.push(lsv[j as int]));
            }
        }
        j += 1;
    }
    proof {
        assert(lsv.subrange(0, lsv.len() as int) =~= lsv);
    }
    out
}

/// The block of assignments the resolution rewrite inserts: console
/// restriction off, a blank separator, then the width and height.
pub open spec fn resolution_lines(w: u32, h: u32) -> Seq<Seq<u8>> {
    seq![
        ("Con_Restricted = 0").spec_bytes(),
        Seq::empty(),
        ("r_width = ").spec_bytes() + spec_digits(w as int),
        ("r_height = ").spec_bytes() + spec_digits(h as int),
    ]
}

/// Rewriting the resolution: the renderer assignment is remembered; the
/// console-restriction, width, height and renderer assignments are dropped;
/// the new block is inserted after the last non-blank kept line; and the
/// remembered renderer assignment, if any, returns at the very end.
pub open spec fn spec_set_resolution_lines(ls: Seq<Seq<u8>>, w: u32, h: u32) -> Seq<Seq<u8>> {
    let saved = spec_first_renderer(ls, 0);
    let kept = ls.filter(|l: Seq<u8>| keeps_for_resolution(l));
    let idx = spec_insert_index(kept);
    let assembled = kept.subrange(0, idx) + resolution_lines(w, h) + kept.subrange(
        idx,
        kept.len() as int,
    );
    match saved {
        Some(l) => assembled.push(l),
        None => assembled,
    }
}

/// Rewrite `user.cfg` content with a new resolution, preserving unrelated
/// lines and keeping any renderer assignment at the end of the file.
pub fn set_user_cfg_resolution_content(c: &Vec<u8>, width: u32, height: u32) -> (out: Vec<u8>)
    ensures
        out@ == spec_join(spec_set_resolution_lines(spec_lines(c@), width, height)),
{
    let ls = split_lines(c);
    let rkey = ("r.graphicsRenderer").as_bytes_vec();
    // remember the renderer assignment, if any
    let mut saved: Option<Vec<u8>> = None;
    let mut i: usize = 0;
    while i < ls.len()
        invariant_except_break
            0 <= i <= ls@.len(),
            rkey@ == renderer_key(),
            spec_first_renderer(ls.deep_view(), 0) == spec_first_renderer(ls.deep_view(), i as int),
            saved is None,
        ensures
            match saved {
                Some(l) => spec_first_renderer(ls.deep_view(), 0) == Some(l@),
                None => spec_first_renderer(ls.deep_view(), 0) is None,
            },
        decreases ls@.len() - i,
    {
        proof {
            assert(ls.deep_view()[i as int] == ls@[i as int]@);
        }
        if line_has_key_exec(&ls[i], &rkey) {
            saved = Some(copy_bytes(&ls[i]));
            proof {
                assert(spec_first_renderer(ls.deep_view(), i as int) == Some(
                    ls.deep_view()[i as int],
                ));
            }
            break;
        }
        i += 1;
    }
    // drop the assignments this rewrite owns
    let kept = filter_lines_for_resolution(&ls);
    let ghost keptv = kept.deep_view();
    // find the insertion point: after the last non-blank kept line
    let mut t: usize = kept.len();
    proof {
        assert(keptv.subrange(0, keptv.len() as int) =~= keptv);
    }
    while t > 0 && is_blank_line_exec(&kept[t - 1])
        invariant
            0 <= t <= kept@.len(),
            keptv == kept.deep_view(),
            last_nonblank(keptv) == last_nonblank(keptv.subrange(0, t as int)),
        decreases t,
    {
        proof {
            let sub = keptv.subrange(0, t as int);
            assert(sub.last() == keptv[t - 1]);
            assert(keptv[t - 1] == kept@[t - 1]@);
            assert(sub.drop_last() =~= keptv.subrange(0, t - 1));
        }
        t -= 1;
    }
    let idx: usize = if t == 0 {
        proof {
            assert(keptv.subrange(0, 0).len() == 0);
            assert(last_nonblank(keptv) == -1);
        }
        kept.len()
    } else {
        proof {
            let sub = keptv.subrange(0, t as int);
            assert(sub.last() == keptv[t - 1]);
            assert(keptv[t - 1] == kept@[t - 1]@);
            assert(last_nonblank(sub) == t - 1);
        }
        t
    };
    proof {
        assert(spec_insert_index(keptv) == idx);
    }
    // assemble
    let mut out_lines: Vec<Vec<u8>> = Vec::new();
    append_lines(&mut out_lines, &kept, 0, idx);
    proof {
        assert(out_lines.deep_view() =~~= keptv.subrange(0, idx as int));
    }
    let ghost part1 = out_lines.deep_view();
    out_lines.push(("Con_Restricted = 0").as_bytes_vec());
    let mut blank: Vec<u8> = Vec::new();
    out_lines.push(blank);
    let mut wline = ("r_width = ").as_bytes_vec();
    let wdigits = u32_digits(width);
    append_bytes(&mut wline, &wdigits);
    out_lines.push(wline);
    let mut hline = ("r_height = ").as_bytes_vec();
    let hdigits = u32_digits(height);
    append_bytes(&mut hline, &hdigits);
    out_lines.push(hline);
    proof {
        assert(out_lines.deep_view() =~~= part1 + resolution_lines(width, height));
    }
    append_lines(&mut out_lines, &kept, idx, kept.len());
    proof {
        assert(out_lines.deep_view() =~~= keptv.subrange(0, idx as int) + resolution_lines(
            width,
            height,
        ) + keptv.subrange(idx as int, keptv.len() as int));
    }
    let ghost assembled = out_lines.deep_view();
    match saved {
        Some(line) => {
            let ghost cur = out_lines.deep_view();
            out_lines.push(line);
            proof {
                assert(out_lines.deep_view() =~~= cur.push(
                    spec_first_renderer(ls.deep_view(), 0)->0,
                ));
            }
        },
        None => {
        },
    }
    proof {
        assert(out_lines.deep_view() =~~= spec_set_resolution_lines(
            spec_lines(c@),
            width,
            height,
        ));
    }
    join_lines(&out_lines)
}

} // verus!

//! The install-path locator: scans the launcher's log text for installation
//! paths of the game and extracts a channel label per installation. A path in
//! the log is written with doubled backslashes and has the shape
//! `L:\\(segment\\)*StarCitizen\\channel`, where `L` is a drive letter, each
//! segment is free of backslashes, and the channel is a run of label
//! characters. Matches are normalized to single backslashes. Scanning runs
//! from the most recently written line backward, so the first accepted path
//! per channel is the newest-mentioned one.
use vstd::prelude::*;

use crate::text::chars_to_string;
use crate::text::str_chars;

verus! {

pub open spec fn is_alpha(c: char) -> bool {
    ('a' <= c && c <= 'z') || ('A' <= c && c <= 'Z')
}

/// Characters a channel label may consist of.
pub open spec fn is_chan_char(c: char) -> bool {
    ('a' <= c && c <= 'z') || ('A' <= c && c <= 'Z') || ('0' <= c && c <= '9') || c == '_' || c
        == '.' || c == '@' || c == '-'
}

/// The root marker segment of every installation path.
pub open spec fn root_marker() -> Seq<char> {
    seq!['S', 't', 'a', 'r', 'C', 'i', 't', 'i', 'z', 'e', 'n']
}

/// End of the maximal backslash-free run starting at `p`.
pub open spec fn seg_end(line: Seq<char>, p: int) -> int
    decreases line.len() - p,
{
    if 0 <= p < line.len() && line[p] != '\\' {
        seg_end(line, p + 1)
    } else {
        p
    }
}

/// End of the maximal channel-character run starting at `p`.
pub open spec fn chan_end(line: Seq<char>, p: int) -> int
    decreases line.len() - p,
{
    if 0 <= p < line.len() && is_chan_char(line[p]) {
        chan_end(line, p + 1)
    } else {
        p
    }
}

/// Parse the backslash-separated tail of a path at `k`: expect a doubled
/// backslash, then a non-empty segment; the segment equal to the root marker
/// must be followed by one more doubled backslash and a non-empty channel
/// run, which ends the match. Returns the end of the match, or -1.
pub open spec fn match_tail(line: Seq<char>, k: int) -> int
    decreases line.len() - k,
{
    if !(0 <= k && k + 2 <= line.len() && line[k] == '\\' && line[k + 1] == '\\') {
        -1
    } else {
        let segstart = k + 2;
        let segend = seg_end(line, segstart);
        if segend <= segstart || segend > line.len() {
            -1
        } else if line.subrange(segstart, segend) == root_marker() {
            if segend + 2 <= line.len() && line[segend] == '\\' && line[segend + 1] == '\\' {
                let ce = chan_end(line, segend + 2);
                if ce > segend + 2 {
                    ce
                } else {
                    -1
                }
            } else {
                -1
            }
        } else {
            match_tail(line, segend)
        }
    }
}

/// A full path match starting exactly at `m`: a drive letter, a colon, and a
/// valid tail. Returns the end of the match, or -1.
pub open spec fn match_at(line: Seq<char>, m: int) -> int {
    if 0 <= m && m + 2 <= line.len() && is_alpha(line[m]) && line[m + 1] == ':' {
        match_tail(line, m + 2)
    } else {
        -1
    }
}

pub fn seg_end_exec(line: &Vec<char>, p: usize) -> (r: usize)
    requires
        p <= line@.len(),
    ensures
        r == seg_end(line@, p as int),
        p <= r <= line@.len(),
{
    let mut q = p;
    while q < line.len() && line[q] != '\\'
        invariant
            p <= q <= line@.len(),
            seg_end(line@, p as int) == seg_end(line@, q as int),
        decreases line@.len() - q,
    {
        q += 1;
    }
    q
}

fn chan_end_exec(line: &Vec<char>, p: usize) -> (r: usize)
    requires
        p <= line@.len(),
    ensures
        r == chan_end(line@, p as int),
        p <= r <= line@.len(),
{
    let mut q = p;
    while q < line.len() && is_chan_char_exec(line[q])
        invariant
            p <= q <= line@.len(),
            chan_end(line@, p as int) == chan_end(line@, q as int),
        decreases line@.len() - q,
    {
        q += 1;
    }
    q
}

fn is_chan_char_exec(c: char) -> (r: bool)
    ensures
        r == is_chan_char(c),
{
    ('a' <= c && c <= 'z') || ('A' <= c && c <= 'Z') || ('0' <= c && c <= '9') || c == '_' || c
        == '.' || c == '@' || c == '-'
}

fn is_alpha_exec(c: char) -> (r: bool)
    ensures
        r == is_alpha(c),
{
    ('a' <= c && c <= 'z') || ('A' <= c && c <= 'Z')
}

fn root_marker_chars() -> (r: Vec<char>)
    ensures
        r@ == root_marker(),
{
    let r: Vec<char> = vec!['S', 't', 'a', 'r', 'C', 'i', 't', 'i', 'z', 'e', 'n'];
    proof {
        assert(r@ =~= root_marker());
    }
    r
}

fn segment_is_root_marker(line: &Vec<char>, a: usize, b: usize) -> (r: bool)
    requires
        a <= b <= line@.len(),
    ensures
        r == (line@.subrange(a as int, b as int) == root_marker()),
{
    let marker = root_marker_chars();
    if b - a != marker.len() {
        proof {
            assert(line@.subrange(a as int, b as int).len() != root_marker().len());
        }
        return false;
    }
    let mut k: usize = 0;
    while k < marker.len()
        invariant
            0 <= k <= marker@.len(),
            a + marker@.len() == b,
            b <= line@.len(),
            marker@ == root_marker(),
            forall|t: int| 0 <= t < k ==> line@[a + t] == marker@[t],
        decreases marker@.len() - k,
    {
        if line[a + k] != marker[k] {
            proof {
                assert(line@.subrange(a as int, b as int)[k as int] != root_marker()[k as int]);
            }
            return false;
        }
        k += 1;
    }
    proof {
        assert(line@.subrange(a as int, b as int) =~= root_marker());
    }
    true
}

fn match_tail_exec(line: &Vec<char>, k: usize) -> (r: Option<usize>)
    ensures
        match r {
            Some(e) => match_tail(line@, k as int) == e && k < e <= line@.len(),
            None => match_tail(line@, k as int) == -1,
        },
    decreases line@.len() - k,
{
    if !(k < line.len() && k + 1 < line.len() && line[k] == '\\' && line[k + 1] == '\\') {
        return None;
    }
    let segstart = k + 2;
    let segend = seg_end_exec(line, segstart);
    if segend <= segstart {
        return None;
    }
    if segment_is_root_marker(line, segstart, segend) {
        if segend < line.len() && segend + 1 < line.len() && line[segend] == '\\' && line[segend
            + 1] == '\\' {
            let ce = chan_end_exec(line, segend + 2);
            if ce > segend + 2 {
                Some(ce)
            } else {
                None
            }
        } else {
            None
        }
    } else {
        match_tail_exec(line, segend)
    }
}

/// Try a full path match starting exactly at `m`.
pub fn match_at_exec(line: &Vec<char>, m: usize) -> (r: Option<usize>)
    ensures
        match r {
            Some(e) => match_at(line@, m as int) == e && m < e <= line@.len(),
            None => match_at(line@, m as int) == -1,
        },
{
    if m < line.len() && m + 1 < line.len() && is_alpha_exec(line[m]) && line[m + 1] == ':' {
        match_tail_exec(line, m + 2)
    } else {
        None
    }
}

/// Doubled backslashes collapsed to single ones, left to right.
pub open spec fn collapse_bs(p: Seq<char>) -> Seq<char>
    decreases p.len(),
{
    if p.len() >= 2 && p[0] == '\\' && p[1] == '\\' {
        seq!['\\'] + collapse_bs(p.subrange(2, p.len() as int))
    } else if p.len() >= 1 {
        seq![p[0]] + collapse_bs(p.drop_first())
    } else {
        Seq::empty()
    }
}

/// Trailing backslashes removed.
pub open spec fn trim_trailing_bs(p: Seq<char>) -> Seq<char>
    decreases p.len(),
{
    if p.len() > 0 && p[p.len() - 1] == '\\' {
        trim_trailing_bs(p.drop_last())
    } else {
        p
    }
}

/// A matched path brought to its stored form: backslash pairs collapsed,
/// trailing backslashes dropped.
pub open spec fn normalize_path(p: Seq<char>) -> Seq<char> {
    trim_trailing_bs(collapse_bs(p))
}

/// Normalize the matched range `line[a..e]` into an owned path string.
pub fn normalize_path_range(line: &Vec<char>, a: usize, e: usize) -> (out: String)
    requires
        a <= e <= line@.len(),
    ensures
        out@ == normalize_path(line@.subrange(a as int, e as int)),
{
    let ghost whole = line@.subrange(a as int, e as int);
    let mut buf: Vec<char> = Vec::new();
    let mut m = a;
    while m < e
        invariant
            a <= m <= e <= line@.len(),
            collapse_bs(whole) == buf@ + collapse_bs(line@.subrange(m as int, e as int)),
        decreases e - m,
    {
        let ghost rest = line@.subrange(m as int, e as int);
        if m + 1 < e && line[m] == '\\' && line[m + 1] == '\\' {
            proof {
                assert(rest.subrange(2, rest.len() as int) =~= line@.subrange(m + 2, e as int));
                assert(collapse_bs(rest) == seq!['\\'] + collapse_bs(
                    line@.subrange(m + 2, e as int),
                ));
                assert(buf@ + collapse_bs(rest) =~= buf@.push('\\') + collapse_bs(
                    line@.subrange(m + 2, e as int),
                ));
            }
            buf.push('\\');
            m += 2;
        } else {
            proof {
                assert(rest.len() >= 1);
                assert(!(rest.len() >= 2 && rest[0] == '\\' && rest[1] == '\\'));
                assert(rest.drop_first() =~= line@.subrange(m + 1, e as int));
                assert(collapse_bs(rest) == seq![rest[0]] + collapse_bs(
                    line@.subrange(m + 1, e as int),
                ));
                assert(buf@ + collapse_bs(rest) =~= buf@.push(line@[m as int]) + collapse_bs(
                    line@.subrange(m + 1, e as int),
                ));
            }
            buf.push(line[m]);
            m += 1;
        }
    }
    proof {
        assert(line@.subrange(e as int, e as int) =~= Seq::<char>::empty());
        assert(buf@ + Seq::<char>::empty() =~= buf@);
        assert(buf@ == collapse_bs(whole));
    }
    while buf.len() > 0 && buf[buf.len() - 1] == '\\'
        invariant
            trim_trailing_bs(collapse_bs(whole)) == trim_trailing_bs(buf@),
        decreases buf@.len(),
    {
        let ghost before = buf@;
        buf.pop();
        proof {
            assert(buf@ =~= before.drop_last());
        }
    }
    chars_to_string(&buf)
}

/// All normalized path matches of one line added to the accumulator in scan
/// order, newly seen ones only.
pub open spec fn scan_line(acc: Seq<Seq<char>>, line: Seq<char>, m: int) -> Seq<Seq<char>>
    decreases line.len() - m,
{
    if m < 0 || m >= line.len() {
        acc
    } else {
        let e = match_at(line, m);
        if e > m && e <= line.len() {
            let path = normalize_path(line.subrange(m, e));
            let acc2 = if acc.contains(path) {
                acc
            } else {
                acc.push(path)
            };
            scan_line(acc2, line, e)
        } else {
            scan_line(acc, line, m + 1)
        }
    }
}

/// The accumulator after scanning lines `0..i`, most recent (last) first.
pub open spec fn scan_lines(acc: Seq<Seq<char>>, lines: Seq<Seq<char>>, i: int) -> Seq<Seq<char>>
    decreases i,
{
    if i <= 0 || i > lines.len() {
        acc
    } else {
        scan_lines(scan_line(acc, lines[i - 1], 0), lines, i - 1)
    }
}

/// Every distinct installation path mentioned in the log, newest mention
/// first: lines are scanned from the last (most recently written) backward
/// and each normalized match is kept once.
pub open spec fn spec_candidate_paths(lines: Seq<Seq<char>>) -> Seq<Seq<char>> {
    scan_lines(Seq::empty(), lines, lines.len() as int)
}

fn acc_contains(acc: &Vec<String>, x: &String) -> (r: bool)
    ensures
        r == acc.deep_view().contains(x@),
{
    let mut k: usize = 0;
    while k < acc.len()
        invariant
            0 <= k <= acc@.len(),
            forall|t: int| 0 <= t < k ==> acc.deep_view()[t] != x@,
        decreases acc@.len() - k,
    {
        assert(acc.deep_view()[k as int] == acc@[k as int]@);
        if acc[k].eq(x) {
            return true;
        }
        k += 1;
    }
    assert(forall|t: int|
        0 <= t < acc.deep_view().len() ==> acc.deep_view()[t] != x@);
    false
}

/// Scan the lines of the launcher log, most recently written line first, for
/// installation paths; each normalized path is reported once, in the order
/// first seen. The result is a pure function of the log text.
pub fn candidate_paths(lines: &Vec<String>) -> (out: Vec<String>)
    ensures
        out.deep_view() == spec_candidate_paths(lines.deep_view()),
{
    let mut acc: Vec<String> = Vec::new();
    let mut i = lines.len();
    proof {
        assert(acc.deep_view() =~= Seq::<Seq<char>>::empty());
    }
    while i > 0
        invariant
            0 <= i <= lines@.len(),
            spec_candidate_paths(lines.deep_view()) == scan_lines(
                acc.deep_view(),
                lines.deep_view(),
                i as int,
            ),
        decreases i,
    {
        let line = str_chars(lines[i - 1].as_str());
        proof {
            assert(lines.deep_view()[i - 1] == lines@[i - 1]@);
        }
        scan_one_line(&mut acc, &line);
        i -= 1;
    }
    acc
}

/// Add every normalized match of one line to the accumulator, in scan order,
/// skipping paths already present.
fn scan_one_line(acc: &mut Vec<String>, line: &Vec<char>)
    ensures
        final(acc).deep_view() == scan_line(old(acc).deep_view(), line@, 0),
{
    let mut m: usize = 0;
    while m < line.len()
        invariant
            0 <= m <= line@.len(),
            scan_line(old(acc).deep_view(), line@, 0) == scan_line(acc.deep_view(), line@, m as int),
        decreases line@.len() - m,
    {
        match match_at_exec(line, m) {
            Some(e) => {
                let path = normalize_path_range(line, m, e);
                let ghost accv = acc.deep_view();
                if !acc_contains(acc, &path) {
                    acc.push(path);
                    proof {
                        assert(acc.deep_view() =~= accv.push(
                            normalize_path(line@.subrange(m as int, e as int)),
                        ));
                    }
                }
                m = e;
            },
            None => {
                m += 1;
            },
        }
    }
}

/// Start of the maximal channel-character run ending at `i`.
pub open spec fn chan_start(p: Seq<char>, i: int) -> int
    decreases i,
{
    if 0 < i && i <= p.len() && is_chan_char(p[i - 1]) {
        chan_start(p, i - 1)
    } else {
        i
    }
}

/// The channel label of a normalized installation path: the maximal trailing
/// run of label characters, provided it is non-empty and directly preceded by
/// the root marker and a backslash.
pub open spec fn spec_channel_of(p: Seq<char>) -> Option<Seq<char>> {
    let cs = chan_start(p, p.len() as int);
    if cs < p.len() && cs >= 12 && p.subrange(cs - 12, cs) == root_marker() + seq!['\\'] {
        Some(p.subrange(cs, p.len() as int))
    } else {
        None
    }
}

fn marker_with_backslash() -> (r: Vec<char>)
    ensures
        r@ == root_marker() + seq!['\\'],
{
    let r: Vec<char> = vec!['S', 't', 'a', 'r', 'C', 'i', 't', 'i', 'z', 'e', 'n', '\\'];
    proof {
        assert(r@ =~= root_marker() + seq!['\\']);
    }
    r
}

/// Extract the channel label from a normalized installation path, if the
/// path ends in a marked channel segment.
pub fn channel_of(install_path: &str) -> (r: Option<String>)
    ensures
        match r {
            Some(c) => spec_channel_of(install_path@) is Some && c@ == spec_channel_of(
                install_path@,
            )->0,
            None => spec_channel_of(install_path@) is None,
        },
{
    let p = str_chars(install_path);
    let mut cs: usize = p.len();
    while cs > 0 && is_chan_char_exec(p[cs - 1])
        invariant
            0 <= cs <= p@.len(),
            chan_start(p@, p@.len() as int) == chan_start(p@, cs as int),
        decreases cs,
    {
        cs -= 1;
    }
    let marker = marker_with_backslash();
    if cs < p.len() && cs >= 12 {
        let mut ok = true;
        let mut k: usize = 0;
        while k < 12
            invariant
                0 <= k <= 12,
                12 <= cs < p@.len(),
                marker@ == root_marker() + seq!['\\'],
                marker@.len() == 12,
                ok == (forall|t: int| 0 <= t < k ==> p@[cs - 12 + t] == marker@[t]),
            decreases 12 - k,
        {
            if p[cs - 12 + k] != marker[k] {
                ok = false;
                proof {
                    assert(p@[cs - 12 + k] != marker@[k as int]);
                }
            }
            k += 1;
        }
        if ok {
            proof {
                assert(p@.subrange(cs - 12, cs as int) =~= marker@);
            }
            let mut out: Vec<char> = Vec::new();
            let mut t = cs;
            while t < p.len()
                invariant
                    cs <= t <= p@.len(),
                    out@ == p@.subrange(cs as int, t as int),
                decreases p@.len() - t,
            {
                out.push(p[t]);
                proof {
                    assert(out@ =~= p@.subrange(cs as int, t + 1));
                }
                t += 1;
            }
            return Some(chars_to_string(&out));
        }
        proof {
            assert(p@.subrange(cs - 12, cs as int) != root_marker() + seq!['\\']) by {
                let w = choose|t: int| 0 <= t < 12 && p@[cs - 12 + t] != marker@[t];
                assert(p@.subrange(cs - 12, cs as int)[w] != (root_marker() + seq!['\\'])[w]);
            }
        }
    }
    None
}

/// Extract the channel label from a normalized installation path, or the
/// label `UNKNOWN` when the path does not end in a marked channel segment.
pub fn get_game_channel_id(install_path: &str) -> (r: String)
    ensures
        match spec_channel_of(install_path@) {
            Some(c) => r@ == c,
            None => r@ == "UNKNOWN"@,
        },
{
    match channel_of(install_path) {
        Some(c) => c,
        None => {
            let unknown = "UNKNOWN";
            proof {
                reveal_strlit("UNKNOWN");
            }
            unknown.to_owned()
        },
    }
}

/// One detected installation: its filesystem path and the sync flags the
/// interface fills in later.
pub struct VersionInfo {
    pub path: String,
    pub translated: bool,
    pub up_to_date: bool,
}

/// The set of detected installations, one entry per channel label.
pub struct VersionPaths {
    pub versions: Vec<(String, VersionInfo)>,
}

/// A channel label already has an entry.
pub open spec fn has_channel(acc: Seq<(Seq<char>, Seq<char>)>, c: Seq<char>) -> bool {
    exists|j: int| 0 <= j < acc.len() && acc[j].0 == c
}

/// Fold the verified candidate paths into channel records: a path whose
/// marker files were found (its flag) and whose channel is recognizable gets
/// a record, unless its channel already has one; the first accepted path per
/// channel wins.
pub open spec fn spec_select(
    paths: Seq<Seq<char>>,
    flags: Seq<bool>,
    i: int,
    acc: Seq<(Seq<char>, Seq<char>)>,
) -> Seq<(Seq<char>, Seq<char>)>
    decreases paths.len() - i,
{
    if i < 0 || i >= paths.len() || flags.len() != paths.len() {
        acc
    } else {
        let next = if flags[i] && spec_channel_of(paths[i]) is Some && !has_channel(
            acc,
            spec_channel_of(paths[i])->0,
        ) {
            acc.push((spec_channel_of(paths[i])->0, paths[i]))
        } else {
            acc
        };
        spec_select(paths, flags, i + 1, next)
    }
}

pub open spec fn spec_installations(paths: Seq<Seq<char>>, flags: Seq<bool>) -> Seq<
    (Seq<char>, Seq<char>),
> {
    spec_select(paths, flags, 0, Seq::empty())
}

pub open spec fn distinct_channels(acc: Seq<(Seq<char>, Seq<char>)>) -> bool {
    forall|j: int, k: int| 0 <= j < k < acc.len() ==> acc[j].0 != acc[k].0
}

proof fn lemma_select_distinct(
    paths: Seq<Seq<char>>,
    flags: Seq<bool>,
    i: int,
    acc: Seq<(Seq<char>, Seq<char>)>,
)
    requires
        distinct_channels(acc),
    ensures
        distinct_channels(spec_select(paths, flags, i, acc)),
    decreases paths.len() - i,
{
    if i < 0 || i >= paths.len() || flags.len() != paths.len() {
    } else {
        let c = spec_channel_of(paths[i]);
        if flags[i] && c is Some && !has_channel(acc, c->0) {
            let next = acc.push((c->0, paths[i]));
            assert forall|j: int, k: int| 0 <= j < k < next.len() implies next[j].0 != next[k].0 by {
                if k == next.len() - 1 {
                    assert(!has_channel(acc, c->0));
                    assert(0 <= j < acc.len() && acc[j].0 == next[j].0);
                }
            }
            lemma_select_distinct(paths, flags, i + 1, next);
        } else {
            lemma_select_distinct(paths, flags, i + 1, acc);
        }
    }
}

/// Discovery yields at most one record per distinct channel label.
pub proof fn lemma_installations_unique(paths: Seq<Seq<char>>, flags: Seq<bool>)
    ensures
        distinct_channels(spec_installations(paths, flags)),
{
    lemma_select_distinct(paths, flags, 0, Seq::empty());
}

fn versions_have_channel(versions: &Vec<(String, VersionInfo)>, c: &String) -> (r: bool)
    ensures
        r == (exists|j: int| 0 <= j < versions@.len() && versions@[j].0@ == c@),
{
    let mut k: usize = 0;
    while k < versions.len()
        invariant
            0 <= k <= versions@.len(),
            forall|t: int| 0 <= t < k ==> versions@[t].0@ != c@,
        decreases versions@.len() - k,
    {
        if versions[k].0.eq(c) {
            return true;
        }
        k += 1;
    }
    false
}

/// Build the installation records from the candidate paths and, for each, the
/// answer to the marker-file check (`flags[i]` says whether candidate `i` has
/// both required game files on disk). One record per channel, first accepted
/// path winning; channels are pairwise distinct in the result.
pub fn select_installations(paths: &Vec<String>, flags: &Vec<bool>) -> (r: VersionPaths)
    requires
        paths@.len() == flags@.len(),
    ensures
        ({
            let sel = spec_installations(paths.deep_view(), flags@);
            &&& r.versions@.len() == sel.len()
            &&& forall|j: int|
                0 <= j < sel.len() ==> r.versions@[j].0@ == sel[j].0 && r.versions@[j].1.path@
                    == sel[j].1 && r.versions@[j].1.translated == false
                    && r.versions@[j].1.up_to_date == false
            &&& distinct_channels(sel)
        }),
{
    proof {
        lemma_installations_unique(paths.deep_view(), flags@);
    }
    let ghost pv = paths.deep_view();
    let mut versions: Vec<(String, VersionInfo)> = Vec::new();
    let mut i: usize = 0;
    proof {
        assert(Seq::new(versions@.len(), |j: int| (versions@[j].0@, versions@[j].1.path@)) =~= Seq::<
            (Seq<char>, Seq<char>),
        >::empty());
    }
    while i < paths.len()
        invariant
            0 <= i <= paths@.len(),
            paths@.len() == flags@.len(),
            pv == paths.deep_view(),
            ({
                let acc = Seq::new(
                    versions@.len(),
                    |j: int| (versions@[j].0@, versions@[j].1.path@),
                );
                &&& spec_installations(pv, flags@) == spec_select(pv, flags@, i as int, acc)
                &&& forall|j: int|
                    0 <= j < versions@.len() ==> versions@[j].1.translated == false
                        && versions@[j].1.up_to_date == false
            }),
        decreases paths@.len() - i,
    {
        let ghost acc = Seq::new(versions@.len(), |j: int| (versions@[j].0@, versions@[j].1.path@));
        proof {
            assert(pv[i as int] == paths@[i as int]@);
        }
        if flags[i] {
            let chan_opt = channel_of(paths[i].as_str());
            match chan_opt {
                Some(chan) => {
                    if !versions_have_channel(&versions, &chan) {
                        proof {
                            assert(!has_channel(acc, chan@)) by {
                                if has_channel(acc, chan@) {
                                    let j = choose|j: int|
                                        0 <= j < acc.len() && acc[j].0 == chan@;
                                    assert(versions@[j].0@ == chan@);
                                }
                            }
                        }
                        let info = VersionInfo {
                            path: paths[i].clone(),
                            translated: false,
                            up_to_date: false,
                        };
                        versions.push((chan, info));
                        proof {
                            let acc2 = Seq::new(
                                versions@.len(),
                                |j: int| (versions@[j].0@, versions@[j].1.path@),
                            );
                            assert(acc2 =~= acc.push(
                                (spec_channel_of(pv[i as int])->0, pv[i as int]),
                            ));
                        }
                    } else {
                        proof {
                            let j = choose|j: int|
                                0 <= j < versions@.len() && versions@[j].0@ == chan@;
                            assert(acc[j].0 == chan@);
                            assert(has_channel(acc, chan@));
                        }
                    }
                },
                None => {
                },
            }
        }
        i += 1;
    }
    proof {
        let acc = Seq::new(versions@.len(), |j: int| (versions@[j].0@, versions@[j].1.path@));
        assert(spec_installations(pv, flags@) == spec_select(pv, flags@, paths@.len() as int, acc));
        assert forall|j: int| 0 <= j < acc.len() implies versions@[j].0@ == acc[j].0
            && versions@[j].1.path@ == acc[j].1 by {}
    }
    VersionPaths { versions }
}

} // verus!

//! The offline translation cache's bookkeeping: an index of cached entries,
//! keyed by game channel and translation source, with at most one entry per
//! key; deterministic cache file naming; and the choice of which sources
//! still need downloading. Reading and writing the files themselves is the
//! caller's side; the content written is the byte-order-marked form from the
//! synchronizer, so a cached file read back and stripped of its marker is
//! byte-identical to what was stored.
use vstd::prelude::*;

use vstd::string::StrSliceExecFns;
use vstd::string::StringExecFns;
use vstd::string::StringSliceAdditionalSpecFns;

use crate::branding::UrlSource;
use crate::branding::spec_url_source;
use crate::branding::url_source;
use crate::text::ascii_upper;
use crate::text::push_char;
use crate::text::str_chars;
use crate::text::str_eq_ignore_ascii_case;

verus! {

/// One cached translation: where it came from and when it was stored.
pub struct CachedTranslation {
    /// Channel label of the installation it was fetched for.
    pub game_version: String,
    /// Name of the translation source.
    pub source: String,
    /// The URL the content was fetched from.
    pub original_url: String,
    /// Timestamp of the store, as the caller formatted it.
    pub cached_at: String,
    /// Size of the stored content in bytes.
    pub file_size: u64,
}

/// The cache's index: a list of entries with at most one per
/// `(game_version, source)` key once maintained through `upsert`.
pub struct CacheIndex {
    pub translations: Vec<CachedTranslation>,
}

/// Summary of the cache reported to the interface.
pub struct CacheInfo {
    pub total_files: u32,
    pub total_size: u64,
    pub cache_path: String,
}

/// Two entries share a key when channel and source agree exactly.
pub open spec fn entry_keeps(e: CachedTranslation, gv: Seq<char>, src: Seq<char>) -> bool {
    e.game_version@ != gv || e.source@ != src
}

impl CacheIndex {
    pub fn new() -> (r: CacheIndex)
        ensures
            r.translations@.len() == 0,
    {
        CacheIndex { translations: Vec::new() }
    }

    /// Replace the entry for this entry's key, keeping all others in order:
    /// writing always replaces the prior entry for the key, so the index
    /// holds at most one entry per key.
    pub fn upsert(&mut self, entry: CachedTranslation)
        ensures
            final(self).translations@ == old(self).translations@.filter(
                |e: CachedTranslation| entry_keeps(e, entry.game_version@, entry.source@),
            ).push(entry),
    {
        self.remove_entry_impl(&entry.game_version, &entry.source);
        self.translations.push(entry);
    }

    /// Drop the entry for a key, if one exists; absent keys are a no-op.
    pub fn remove_entry(&mut self, game_version: &str, source: &str)
        ensures
            final(self).translations@ == old(self).translations@.filter(
                |e: CachedTranslation| entry_keeps(e, game_version@, source@),
            ),
    {
        let gv = game_version.to_owned();
        let src = source.to_owned();
        self.remove_entry_impl(&gv, &src);
    }

    fn remove_entry_impl(&mut self, game_version: &String, source: &String)
        ensures
            final(self).translations@ == old(self).translations@.filter(
                |e: CachedTranslation| entry_keeps(e, game_version@, source@),
            ),
    {
        let ghost orig = self.translations@;
        let ghost keep = |e: CachedTranslation| entry_keeps(e, game_version@, source@);
        let mut i: usize = 0;
        let ghost j: int = 0;
        proof {
            reveal(Seq::filter);
            assert(orig.subrange(0, 0).filter(keep) =~= Seq::<CachedTranslation>::empty());
            assert(self.translations@ =~= orig.subrange(0, 0).filter(keep) + orig.subrange(
                0,
                orig.len() as int,
            ));
        }
        while i < self.translations.len()
            invariant
                0 <= j <= orig.len(),
                i == orig.subrange(0, j).filter(keep).len(),
                self.translations@ == orig.subrange(0, j).filter(keep) + orig.subrange(
                    j,
                    orig.len() as int,
                ),
                keep == |e: CachedTranslation| entry_keeps(e, game_version@, source@),
            decreases orig.len() - j,
        {
            proof {
                assert(orig.subrange(j, orig.len() as int).len() > 0);
                assert(self.translations@[i as int] == orig[j]);
            }
            let matches = self.translations[i].game_version.eq(game_version)
                && self.translations[i].source.eq(source);
            proof {
                reveal(Seq::filter);
                assert(orig.subrange(0, j + 1) =~= orig.subrange(0, j).push(orig[j]));
                assert(orig.subrange(0, j + 1).drop_last() =~= orig.subrange(0, j));
                if keep(orig[j]) {
                    assert(orig.subrange(0, j + 1).filter(keep) =~= orig.subrange(0, j).filter(
                        keep,
                    ).push(orig[j]));
                } else {
                    assert(orig.subrange(0, j + 1).filter(keep) =~= orig.subrange(0, j).filter(
                        keep,
                    ));
                }
            }
            if matches {
                self.translations.remove(i);
                proof {
                    assert(self.translations@ =~= orig.subrange(0, j + 1).filter(keep)
                        + orig.subrange(j + 1, orig.len() as int));
                }
            } else {
                i += 1;
                proof {
                    assert(self.translations@ =~= orig.subrange(0, j + 1).filter(keep)
                        + orig.subrange(j + 1, orig.len() as int));
                }
            }
            proof {
                j = j + 1;
            }
        }
        proof {
            assert(orig.subrange(j, orig.len() as int).len() == 0);
            assert(j == orig.len());
            assert(orig.subrange(0, orig.len() as int) =~= orig);
            assert(self.translations@ =~= orig.filter(keep));
        }
    }

    /// Whether any entry exists for this channel, compared without regard to
    /// ASCII case.
    pub fn has_version(&self, game_version: &str) -> (r: bool)
        ensures
            r == exists|k: int|
                0 <= k < self.translations@.len() && ascii_upper(
                    vstd::utf8::encode_utf8(self.translations@[k].game_version@),
                ) == ascii_upper(game_version.spec_bytes()),
    {
        let mut k: usize = 0;
        while k < self.translations.len()
            invariant
                0 <= k <= self.translations@.len(),
                forall|t: int|
                    0 <= t < k ==> ascii_upper(vstd::utf8::encode_utf8(self.translations@[t].game_version@))
                        != ascii_upper(game_version.spec_bytes()),
            decreases self.translations@.len() - k,
        {
            if str_eq_ignore_ascii_case(self.translations[k].game_version.as_str(), game_version) {
                return true;
            }
            k += 1;
        }
        false
    }

    /// Whether an entry exists for this channel and source; the channel is
    /// compared without regard to ASCII case, the source exactly.
    pub fn has_version_source(&self, game_version: &str, source: &str) -> (r: bool)
        ensures
            r == exists|k: int|
                0 <= k < self.translations@.len() && ascii_upper(
                    vstd::utf8::encode_utf8(self.translations@[k].game_version@),
                ) == ascii_upper(game_version.spec_bytes()) && self.translations@[k].source@
                    == source@,
    {
        let mut k: usize = 0;
        while k < self.translations.len()
            invariant
                0 <= k <= self.translations@.len(),
                forall|t: int|
                    0 <= t < k ==> !(ascii_upper(
                        vstd::utf8::encode_utf8(self.translations@[t].game_version@),
                    ) == ascii_upper(game_version.spec_bytes()) && self.translations@[t].source@
                        == source@),
            decreases self.translations@.len() - k,
        {
            let gv_eq = str_eq_ignore_ascii_case(
                self.translations[k].game_version.as_str(),
                game_version,
            );
            let src_eq = {
                let s = source.to_owned();
                self.translations[k].source.eq(&s)
            };
            if gv_eq && src_eq {
                return true;
            }
            k += 1;
        }
        false
    }
}

/// Whether the offline cache still lacks every source for this channel, so
/// that a first download pass should populate it.
pub fn is_cache_empty_for_version(index: &CacheIndex, game_version: &str) -> (r: bool)
    ensures
        r == !(exists|k: int|
            0 <= k < index.translations@.len() && ascii_upper(
                vstd::utf8::encode_utf8(index.translations@[k].game_version@),
            ) == ascii_upper(game_version.spec_bytes())),
{
    !index.has_version(game_version)
}

/// ASCII upper-case characters lowered; all other characters unchanged.
pub open spec fn lower_char(c: char) -> char {
    if 'A' <= c && c <= 'Z' {
        (((c as u8) + 32) as u8) as char
    } else {
        c
    }
}

pub open spec fn lower_chars(s: Seq<char>) -> Seq<char> {
    s.map_values(|c: char| lower_char(c))
}

fn lower_char_exec(c: char) -> (r: char)
    ensures
        r == lower_char(c),
{
    if 'A' <= c && c <= 'Z' {
        (((c as u8) + 32) as u8) as char
    } else {
        c
    }
}

/// The deterministic cache file name for a key:
/// `<channel>_<source>.ini`, lower-cased.
pub fn get_cache_filename(game_version: &str, source: &str) -> (r: String)
    ensures
        r@ == lower_chars(game_version@) + seq!['_'] + lower_chars(source@) + seq![
            '.',
            'i',
            'n',
            'i',
        ],
{
    let mut out = String::new();
    let gv = str_chars(game_version);
    let mut k: usize = 0;
    while k < gv.len()
        invariant
            0 <= k <= gv@.len(),
            gv@ == game_version@,
            out@.len() == k,
            forall|t: int| 0 <= t < k ==> out@[t] == lower_char(game_version@[t]),
        decreases gv@.len() - k,
    {
        push_char(&mut out, lower_char_exec(gv[k]));
        k += 1;
    }
    proof {
        assert(out@ =~= lower_chars(game_version@));
    }
    push_char(&mut out, '_');
    let ghost mid = out@;
    let src = str_chars(source);
    let mut t: usize = 0;
    while t < src.len()
        invariant
            0 <= t <= src@.len(),
            src@ == source@,
            out@.len() == mid.len() + t,
            out@.subrange(0, mid.len() as int) == mid,
            forall|u: int| 0 <= u < t ==> out@[mid.len() + u] == lower_char(source@[u]),
        decreases src@.len() - t,
    {
        push_char(&mut out, lower_char_exec(src[t]));
        proof {
            assert(out@.subrange(0, mid.len() as int) =~= mid);
        }
        t += 1;
    }
    proof {
        let full = lower_chars(game_version@) + seq!['_'] + lower_chars(source@);
        assert(out@.len() == full.len());
        assert forall|idx: int| 0 <= idx < out@.len() implies out@[idx] == full[idx] by {
            if idx < mid.len() {
                assert(out@[idx] == out@.subrange(0, mid.len() as int)[idx]);
            } else {
                let u = idx - mid.len();
                assert(out@[mid.len() + u] == lower_char(source@[u]));
            }
        }
        assert(out@ =~= full);
    }
    let ghost stem = out@;
    push_char(&mut out, '.');
    push_char(&mut out, 'i');
    push_char(&mut out, 'n');
    push_char(&mut out, 'i');
    proof {
        assert(out@ =~= stem + seq!['.', 'i', 'n', 'i']);
        assert(stem + seq!['.', 'i', 'n', 'i'] =~= lower_chars(game_version@) + seq!['_']
            + lower_chars(source@) + seq!['.', 'i', 'n', 'i']);
    }
    out
}

/// The name recorded for each URL source.
pub open spec fn spec_source_name(s: UrlSource) -> Seq<char> {
    match s {
        UrlSource::ScefraFr => ("scefra_fr")@,
        UrlSource::ScefraEn => ("scefra_en")@,
        UrlSource::Circuspes => ("circuspes")@,
        UrlSource::LocalCopy => ("local")@,
        UrlSource::Unknown => ("unknown")@,
    }
}

/// Name the translation source a URL belongs to, by its markers,
/// case-insensitively; URLs of no known source name `unknown`, and synthetic
/// `local://` URLs name the source recorded in them, falling back to `local`.
pub fn detect_translation_source(url: &str) -> (r: String)
    ensures
        r@ == spec_source_name(spec_url_source(url.spec_bytes())),
{
    let bytes = url.as_bytes_vec();
    match url_source(&bytes) {
        UrlSource::ScefraFr => String::from_str("scefra_fr"),
        UrlSource::ScefraEn => String::from_str("scefra_en"),
        UrlSource::Circuspes => String::from_str("circuspes"),
        UrlSource::LocalCopy => String::from_str("local"),
        UrlSource::Unknown => String::from_str("unknown"),
    }
}

/// The synthetic URL recorded when caching a translation found on disk:
/// `local://<version>/<source>`.
pub fn local_url_for(game_version: &str, source: &str) -> (r: String)
    ensures
        r@ == ("local://")@ + game_version@ + ("/")@ + source@,
{
    let mut out = String::from_str("local://");
    out.append(game_version);
    out.append("/");
    out.append(source);
    out
}

/// The statically enumerated translation sources, by name.
pub open spec fn spec_source_names() -> Seq<Seq<char>> {
    seq![("scefra_fr")@, ("scefra_en")@, ("circuspes")@]
}

/// Their download URLs, in the same order.
pub open spec fn spec_source_urls() -> Seq<Seq<char>> {
    seq![
        ("https://raw.githubusercontent.com/SPEED0U/Scefra/main/french_(france)/global.ini")@,
        (
        "https://raw.githubusercontent.com/SPEED0U/Scefra/refs/heads/settings-en/french_(france)/global.ini"
        )@,
        ("https://traduction.circuspes.fr/download/global.ini")@,
    ]
}

/// The statically enumerated translation sources as `(name, url)` pairs.
pub fn translation_sources() -> (r: Vec<(String, String)>)
    ensures
        r@.len() == 3,
        forall|i: int|
            0 <= i < 3 ==> (#[trigger] r@[i]).0@ == spec_source_names()[i] && r@[i].1@
                == spec_source_urls()[i],
{
    let mut r: Vec<(String, String)> = Vec::new();
    r.push(
        (
            String::from_str("scefra_fr"),
            String::from_str(
                "https://raw.githubusercontent.com/SPEED0U/Scefra/main/french_(france)/global.ini",
            ),
        ),
    );
    r.push(
        (
            String::from_str("scefra_en"),
            String::from_str(
                "https://raw.githubusercontent.com/SPEED0U/Scefra/refs/heads/settings-en/french_(france)/global.ini",
            ),
        ),
    );
    r.push(
        (
            String::from_str("circuspes"),
            String::from_str("https://traduction.circuspes.fr/download/global.ini"),
        ),
    );
    r
}

/// An entry for this channel and source name exists, the channel compared
/// without regard to ASCII case.
pub open spec fn spec_source_cached(index: CacheIndex, gv: Seq<char>, name: Seq<char>) -> bool {
    exists|k: int|
        0 <= k < index.translations@.len() && ascii_upper(
            vstd::utf8::encode_utf8(index.translations@[k].game_version@),
        ) == ascii_upper(vstd::utf8::encode_utf8(gv)) && index.translations@[k].source@ == name
}

/// The sources a download pass fetches for a channel: all of them when a
/// refresh is forced, otherwise those with no cache entry yet, in the listed
/// order.
pub open spec fn spec_sources_to_fetch(index: CacheIndex, gv: Seq<char>, force: bool, i: int) -> Seq<
    (Seq<char>, Seq<char>),
>
    decreases 3 - i,
{
    if i < 0 || i >= 3 {
        Seq::empty()
    } else {
        let rest = spec_sources_to_fetch(index, gv, force, i + 1);
        if force || !spec_source_cached(index, gv, spec_source_names()[i]) {
            seq![(spec_source_names()[i], spec_source_urls()[i])] + rest
        } else {
            rest
        }
    }
}

/// Plan a download pass for a channel: the `(name, url)` pairs to fetch, in
/// source order; a forced refresh fetches all, otherwise only sources not
/// yet cached for the channel.
pub fn sources_to_fetch(index: &CacheIndex, game_version: &str, force: bool) -> (r: Vec<
    (String, String),
>)
    ensures
        ({
            let plan = spec_sources_to_fetch(*index, game_version@, force, 0);
            &&& r@.len() == plan.len()
            &&& forall|i: int|
                0 <= i < plan.len() ==> (#[trigger] r@[i]).0@ == plan[i].0 && r@[i].1@ == plan[i].1
        }),
{
    proof {
        reveal_with_fuel(spec_sources_to_fetch, 5);
    }
    let all = translation_sources();
    let mut r: Vec<(String, String)> = Vec::new();
    let mut i: usize = 0;
    while i < 3
        invariant
            0 <= i <= 3,
            all@.len() == 3,
            forall|t: int|
                0 <= t < 3 ==> (#[trigger] all@[t]).0@ == spec_source_names()[t] && all@[t].1@
                    == spec_source_urls()[t],
            ({
                let done = spec_sources_to_fetch(*index, game_version@, force, 0);
                let rest = spec_sources_to_fetch(*index, game_version@, force, i as int);
                &&& done =~= Seq::new(r@.len(), |t: int| (r@[t].0@, r@[t].1@)) + rest
            }),
        decreases 3 - i,
    {
        proof {
            reveal_with_fuel(spec_sources_to_fetch, 5);
        }
        let ghost pairs = Seq::new(r@.len(), |t: int| (r@[t].0@, r@[t].1@));
        let wanted = if force {
            true
        } else {
            !index.has_version_source(game_version, all[i].0.as_str())
        };
        if wanted {
            let name = all[i].0.clone();
            let url = all[i].1.clone();
            r.push((name, url));
            proof {
                assert(Seq::new(r@.len(), |t: int| (r@[t].0@, r@[t].1@)) =~= pairs.push(
                    (spec_source_names()[i as int], spec_source_urls()[i as int]),
                ));
                assert(pairs.push((spec_source_names()[i as int], spec_source_urls()[i as int]))
                    + spec_sources_to_fetch(*index, game_version@, force, i + 1) =~= pairs + (seq![
                    (spec_source_names()[i as int], spec_source_urls()[i as int]),
                ] + spec_sources_to_fetch(*index, game_version@, force, i + 1)));
            }
        }
        i += 1;
    }
    proof {
        assert(spec_sources_to_fetch(*index, game_version@, force, 0) =~= Seq::new(
            r@.len(),
            |t: int| (r@[t].0@, r@[t].1@),
        ));
    }
    r
}

/// Round-trip cache: for every stored content, writing an entry's content
/// file and reading it back yields byte-identical content — the byte-order
/// mark inserted on write is exactly what the read strips.
pub proof fn lemma_cache_round_trip(content: Seq<u8>)
    ensures
        crate::translation::spec_strip_bom(crate::translation::spec_with_bom(content)) == content,
{
    crate::translation::lemma_bom_round_trip(content);
}

/// Sum of entry sizes, saturating at the largest representable size.
pub open spec fn spec_size_sum(entries: Seq<CachedTranslation>, i: int) -> u64
    decreases entries.len() - i,
{
    if i < 0 || i >= entries.len() {
        0u64
    } else {
        let rest = spec_size_sum(entries, i + 1);
        if entries[i].file_size + rest > u64::MAX {
            u64::MAX
        } else {
            (entries[i].file_size + rest) as u64
        }
    }
}

/// Summarize the cache: how many entries it holds and how many bytes of
/// content they record, with the cache directory the caller resolved.
pub fn cache_info_of(index: &CacheIndex, cache_path: String) -> (r: CacheInfo)
    ensures
        r.total_files == if index.translations@.len() > u32::MAX {
            u32::MAX
        } else {
            index.translations@.len() as u32
        },
        r.total_size == spec_size_sum(index.translations@, 0),
        r.cache_path@ == cache_path@,
{
    let mut total: u64 = 0;
    let mut k: usize = index.translations.len();
    while k > 0
        invariant
            0 <= k <= index.translations@.len(),
            total == spec_size_sum(index.translations@, k as int),
        decreases k,
    {
        k -= 1;
        let size = index.translations[k].file_size;
        total = match total.checked_add(size) {
            Some(v) => v,
            None => u64::MAX,
        };
    }
    let count = index.translations.len();
    let total_files: u32 = if count > u32::MAX as usize {
        u32::MAX
    } else {
        count as u32
    };
    CacheInfo { total_files, total_size: total, cache_path }
}

} // verus!

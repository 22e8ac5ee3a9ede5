//! The branding rewrite: localization content fetched from an upstream
//! community source is re-attributed to this application by a fixed literal
//! substring replacement, chosen by which source produced the content. The
//! source is detected either from the download URL or, for content already on
//! disk, from marker phrases inside the content itself. The rewrite is
//! idempotent: applying it to already-branded content changes nothing.
use vstd::prelude::*;

use crate::text::ascii_lower;
use crate::text::contains_needle;
use crate::text::contains_seq;
use crate::text::lemma_occurrence_nested;
use crate::text::lemma_replace_all_free;
use crate::text::lemma_replace_all_id;
use crate::text::lemma_replace_all_inserts;
use crate::text::lemma_replace_all_longer;
use crate::text::occurs_at;
use crate::text::overlap_free;
use crate::text::replace_all;
use crate::text::spec_replace_all;
use crate::text::starts_with_bytes;
use crate::text::starts_with_seq;
use crate::text::to_ascii_lower;

verus! {

/// Marker phrase of content produced by the SCEFRA source: `SCFRA`.
pub open spec fn scefra_marker() -> Seq<u8> {
    seq![83u8, 67u8, 70u8, 82u8, 65u8]
}

/// Marker phrase of content this application has already branded: `StarTrad`.
pub open spec fn startrad_marker() -> Seq<u8> {
    seq![83u8, 116u8, 97u8, 114u8, 84u8, 114u8, 97u8, 100u8]
}

/// Marker phrase of content produced by the Circuspes source: `Circuspes`.
pub open spec fn circuspes_marker() -> Seq<u8> {
    seq![67u8, 105u8, 114u8, 99u8, 117u8, 115u8, 112u8, 101u8, 115u8]
}

/// The attribution text written in place of a source marker: `StarTrad FR`.
pub open spec fn brand_text() -> Seq<u8> {
    seq![83u8, 116u8, 97u8, 114u8, 84u8, 114u8, 97u8, 100u8, 32u8, 70u8, 82u8]
}

fn scefra_marker_bytes() -> (r: Vec<u8>)
    ensures
        r@ == scefra_marker(),
{
    let r: Vec<u8> = vec![83u8, 67u8, 70u8, 82u8, 65u8];
    proof {
        assert(r@ =~= scefra_marker());
    }
    r
}

fn startrad_marker_bytes() -> (r: Vec<u8>)
    ensures
        r@ == startrad_marker(),
{
    let r: Vec<u8> = vec![83u8, 116u8, 97u8, 114u8, 84u8, 114u8, 97u8, 100u8];
    proof {
        assert(r@ =~= startrad_marker());
    }
    r
}

fn circuspes_marker_bytes() -> (r: Vec<u8>)
    ensures
        r@ == circuspes_marker(),
{
    let r: Vec<u8> = vec![67u8, 105u8, 114u8, 99u8, 117u8, 115u8, 112u8, 101u8, 115u8];
    proof {
        assert(r@ =~= circuspes_marker());
    }
    r
}

fn brand_text_bytes() -> (r: Vec<u8>)
    ensures
        r@ == brand_text(),
{
    let r: Vec<u8> = vec![83u8, 116u8, 97u8, 114u8, 84u8, 114u8, 97u8, 100u8, 32u8, 70u8, 82u8];
    proof {
        assert(r@ =~= brand_text());
    }
    r
}

/// Which upstream source a piece of localization content came from, as far as
/// its marker phrases reveal it.
#[derive(PartialEq, Eq, Structural, Clone, Copy, Debug)]
pub enum ContentSource {
    ScefraFr,
    Circuspes,
    Unbranded,
}

pub open spec fn spec_content_source(c: Seq<u8>) -> ContentSource {
    if contains_seq(c, scefra_marker()) || contains_seq(c, startrad_marker()) {
        ContentSource::ScefraFr
    } else if contains_seq(c, circuspes_marker()) {
        ContentSource::Circuspes
    } else {
        ContentSource::Unbranded
    }
}

/// The branding rewrite keyed by detected content source.
pub open spec fn spec_apply_branding(c: Seq<u8>) -> Seq<u8> {
    match spec_content_source(c) {
        ContentSource::ScefraFr => spec_replace_all(c, scefra_marker(), brand_text()),
        ContentSource::Circuspes => spec_replace_all(c, circuspes_marker(), brand_text()),
        ContentSource::Unbranded => c,
    }
}

/// Detect the source of localization content from its marker phrases.
pub fn detect_source_from_content(content: &Vec<u8>) -> (r: ContentSource)
    ensures
        r == spec_content_source(content@),
{
    let scefra = scefra_marker_bytes();
    let startrad = startrad_marker_bytes();
    let circuspes = circuspes_marker_bytes();
    if contains_needle(content, &scefra) || contains_needle(content, &startrad) {
        ContentSource::ScefraFr
    } else if contains_needle(content, &circuspes) {
        ContentSource::Circuspes
    } else {
        ContentSource::Unbranded
    }
}

/// Rewrite the source's marker phrases into this application's attribution
/// text, detecting the source from the content itself.
pub fn apply_branding(content: &Vec<u8>) -> (out: Vec<u8>)
    ensures
        out@ == spec_apply_branding(content@),
{
    let brand = brand_text_bytes();
    match detect_source_from_content(content) {
        ContentSource::ScefraFr => {
            let n = scefra_marker_bytes();
            replace_all(content, &n, &brand)
        },
        ContentSource::Circuspes => {
            let n = circuspes_marker_bytes();
            replace_all(content, &n, &brand)
        },
        ContentSource::Unbranded => {
            let mut out: Vec<u8> = Vec::new();
            crate::text::append_bytes(&mut out, content);
            proof {
                assert(out@ =~= content@);
            }
            out
        },
    }
}

/// Whether the branding rewrite would change this content.
pub fn needs_branding(content: &Vec<u8>) -> (r: bool)
    ensures
        r == (spec_apply_branding(content@) != content@),
{
    proof {
        lemma_brand_markers();
    }
    let scefra = scefra_marker_bytes();
    let circuspes = circuspes_marker_bytes();
    match detect_source_from_content(content) {
        ContentSource::ScefraFr => {
            let hit = contains_needle(content, &scefra);
            proof {
                if hit {
                    lemma_replace_all_longer(content@, scefra_marker(), brand_text());
                } else {
                    lemma_replace_all_id(content@, scefra_marker(), brand_text());
                }
            }
            hit
        },
        ContentSource::Circuspes => {
            proof {
                lemma_replace_all_longer(content@, circuspes_marker(), brand_text());
            }
            true
        },
        ContentSource::Unbranded => false,
    }
}

/// Basic facts about the marker and attribution literals: the attribution
/// text starts with the branded marker, and neither source marker can align
/// with any window of the attribution text.
proof fn lemma_brand_markers()
    ensures
        occurs_at(brand_text(), startrad_marker(), 0),
        overlap_free(scefra_marker(), brand_text()),
        overlap_free(circuspes_marker(), brand_text()),
{
    assert(brand_text().subrange(0, startrad_marker().len() as int) =~= startrad_marker());
    reveal_with_fuel(crate::text::overlap_free_from, 25);
    reveal_with_fuel(crate::text::window_has_mismatch, 25);
    assert(overlap_free(scefra_marker(), brand_text()));
    assert(overlap_free(circuspes_marker(), brand_text()));
}

/// Idempotent branding: applying the rewrite to already-branded content
/// changes nothing, for every content.
pub proof fn lemma_branding_idempotent(c: Seq<u8>)
    ensures
        spec_apply_branding(spec_apply_branding(c)) == spec_apply_branding(c),
{
    lemma_brand_markers();
    let scefra = scefra_marker();
    let startrad = startrad_marker();
    let circuspes = circuspes_marker();
    let brand = brand_text();
    match spec_content_source(c) {
        ContentSource::ScefraFr => {
            let res = spec_replace_all(c, scefra, brand);
            // no SCFRA marker survives the rewrite
            lemma_replace_all_free(c, scefra, brand, scefra);
            if contains_seq(c, scefra) {
                // a replacement happened, so the attribution text is present
                lemma_replace_all_inserts(c, scefra, brand);
                let i = choose|i: int| occurs_at(res, brand, i);
                lemma_occurrence_nested(res, brand, i, startrad, 0);
                assert(contains_seq(res, startrad));
            } else {
                // nothing replaced: the content already carried the brand
                lemma_replace_all_id(c, scefra, brand);
                assert(res == c);
            }
            assert(spec_content_source(res) == ContentSource::ScefraFr);
            lemma_replace_all_id(res, scefra, brand);
        },
        ContentSource::Circuspes => {
            let res = spec_replace_all(c, circuspes, brand);
            // a replacement happened, so the attribution text is present
            lemma_replace_all_inserts(c, circuspes, brand);
            let i = choose|i: int| occurs_at(res, brand, i);
            lemma_occurrence_nested(res, brand, i, startrad, 0);
            assert(contains_seq(res, startrad));
            // and the rewrite introduced no SCFRA marker
            lemma_replace_all_free(c, circuspes, brand, scefra);
            assert(spec_content_source(res) == ContentSource::ScefraFr);
            lemma_replace_all_id(res, scefra, brand);
        },
        ContentSource::Unbranded => {},
    }
}

/// Which translation source a download URL belongs to.
#[derive(PartialEq, Eq, Structural, Clone, Copy, Debug)]
pub enum UrlSource {
    ScefraFr,
    ScefraEn,
    Circuspes,
    LocalCopy,
    Unknown,
}

pub open spec fn lit_scefra() -> Seq<u8> {
    seq![115u8, 99u8, 101u8, 102u8, 114u8, 97u8]
}

pub open spec fn lit_speed0u() -> Seq<u8> {
    seq![115u8, 112u8, 101u8, 101u8, 100u8, 48u8, 117u8]
}

pub open spec fn lit_settings_en_us() -> Seq<u8> {
    seq![115u8, 101u8, 116u8, 116u8, 105u8, 110u8, 103u8, 115u8, 95u8, 101u8, 110u8]
}

pub open spec fn lit_settings_en_dash() -> Seq<u8> {
    seq![115u8, 101u8, 116u8, 116u8, 105u8, 110u8, 103u8, 115u8, 45u8, 101u8, 110u8]
}

pub open spec fn lit_settingsen() -> Seq<u8> {
    seq![115u8, 101u8, 116u8, 116u8, 105u8, 110u8, 103u8, 115u8, 101u8, 110u8]
}

pub open spec fn lit_us_en_dot() -> Seq<u8> {
    seq![95u8, 101u8, 110u8, 46u8]
}

pub open spec fn lit_dash_en_dot() -> Seq<u8> {
    seq![45u8, 101u8, 110u8, 46u8]
}

pub open spec fn lit_circuspes() -> Seq<u8> {
    seq![99u8, 105u8, 114u8, 99u8, 117u8, 115u8, 112u8, 101u8, 115u8]
}

pub open spec fn lit_local_scheme() -> Seq<u8> {
    seq![108u8, 111u8, 99u8, 97u8, 108u8, 58u8, 47u8, 47u8]
}

pub open spec fn lit_slash_scefra() -> Seq<u8> {
    seq![47u8, 115u8, 99u8, 101u8, 102u8, 114u8, 97u8]
}

pub open spec fn lit_slash_circuspes() -> Seq<u8> {
    seq![47u8, 99u8, 105u8, 114u8, 99u8, 117u8, 115u8, 112u8, 101u8, 115u8]
}

/// `scefra` or `speed0u` in the lowered URL marks the SCEFRA source; an
/// `en`-flavoured settings marker selects its English-settings variant.
pub open spec fn spec_url_is_scefra_en(low: Seq<u8>) -> bool {
    contains_seq(low, lit_settings_en_us()) || contains_seq(low, lit_settings_en_dash())
        || contains_seq(low, lit_settingsen()) || contains_seq(low, lit_us_en_dot())
        || contains_seq(low, lit_dash_en_dot())
}

/// Source classification of a download URL, over its ASCII-lowered bytes.
pub open spec fn spec_url_source(u: Seq<u8>) -> UrlSource {
    let low = ascii_lower(u);
    if contains_seq(low, lit_scefra()) || contains_seq(low, lit_speed0u()) {
        if spec_url_is_scefra_en(low) {
            UrlSource::ScefraEn
        } else {
            UrlSource::ScefraFr
        }
    } else if contains_seq(low, lit_circuspes()) {
        UrlSource::Circuspes
    } else if starts_with_seq(low, lit_local_scheme()) {
        if contains_seq(low, lit_slash_scefra()) {
            UrlSource::ScefraFr
        } else if contains_seq(low, lit_slash_circuspes()) {
            UrlSource::Circuspes
        } else {
            UrlSource::LocalCopy
        }
    } else {
        UrlSource::Unknown
    }
}

/// Classify a download URL by its source markers, case-insensitively.
pub fn url_source(url_bytes: &Vec<u8>) -> (r: UrlSource)
    ensures
        r == spec_url_source(url_bytes@),
{
    let low = to_ascii_lower(url_bytes);
    let scefra: Vec<u8> = vec![115u8, 99u8, 101u8, 102u8, 114u8, 97u8];
    let speed0u: Vec<u8> = vec![115u8, 112u8, 101u8, 101u8, 100u8, 48u8, 117u8];
    let sen1: Vec<u8> = vec![115u8, 101u8, 116u8, 116u8, 105u8, 110u8, 103u8, 115u8, 95u8, 101u8, 110u8];
    let sen2: Vec<u8> = vec![115u8, 101u8, 116u8, 116u8, 105u8, 110u8, 103u8, 115u8, 45u8, 101u8, 110u8];
    let sen3: Vec<u8> = vec![115u8, 101u8, 116u8, 116u8, 105u8, 110u8, 103u8, 115u8, 101u8, 110u8];
    let sen4: Vec<u8> = vec![95u8, 101u8, 110u8, 46u8];
    let sen5: Vec<u8> = vec![45u8, 101u8, 110u8, 46u8];
    let circuspes: Vec<u8> = vec![99u8, 105u8, 114u8, 99u8, 117u8, 115u8, 112u8, 101u8, 115u8];
    let local_scheme: Vec<u8> = vec![108u8, 111u8, 99u8, 97u8, 108u8, 58u8, 47u8, 47u8];
    let slash_scefra: Vec<u8> = vec![47u8, 115u8, 99u8, 101u8, 102u8, 114u8, 97u8];
    let slash_circuspes: Vec<u8> = vec![47u8, 99u8, 105u8, 114u8, 99u8, 117u8, 115u8, 112u8, 101u8, 115u8];
    proof {
        assert(scefra@ =~= lit_scefra());
        assert(speed0u@ =~= lit_speed0u());
        assert(sen1@ =~= lit_settings_en_us());
        assert(sen2@ =~= lit_settings_en_dash());
        assert(sen3@ =~= lit_settingsen());
        assert(sen4@ =~= lit_us_en_dot());
        assert(sen5@ =~= lit_dash_en_dot());
        assert(circuspes@ =~= lit_circuspes());
        assert(local_scheme@ =~= lit_local_scheme());
        assert(slash_scefra@ =~= lit_slash_scefra());
        assert(slash_circuspes@ =~= lit_slash_circuspes());
    }
    if contains_needle(&low, &scefra) || contains_needle(&low, &speed0u) {
        if contains_needle(&low, &sen1) || contains_needle(&low, &sen2) || contains_needle(
            &low,
            &sen3,
        ) || contains_needle(&low, &sen4) || contains_needle(&low, &sen5) {
            UrlSource::ScefraEn
        } else {
            UrlSource::ScefraFr
        }
    } else if contains_needle(&low, &circuspes) {
        UrlSource::Circuspes
    } else if starts_with_bytes(&low, &local_scheme) {
        if contains_needle(&low, &slash_scefra) {
            UrlSource::ScefraFr
        } else if contains_needle(&low, &slash_circuspes) {
            UrlSource::Circuspes
        } else {
            UrlSource::LocalCopy
        }
    } else {
        UrlSource::Unknown
    }
}

/// The branding rewrite keyed by the download URL's source.
pub open spec fn spec_apply_branding_url(c: Seq<u8>, u: Seq<u8>) -> Seq<u8> {
    match spec_url_source(u) {
        UrlSource::ScefraFr => spec_replace_all(c, scefra_marker(), brand_text()),
        UrlSource::ScefraEn => spec_replace_all(c, scefra_marker(), brand_text()),
        UrlSource::Circuspes => spec_replace_all(c, circuspes_marker(), brand_text()),
        UrlSource::LocalCopy => c,
        UrlSource::Unknown => c,
    }
}

/// Rewrite the source's marker phrases into this application's attribution
/// text, with the source taken from the URL the content was fetched from.
pub fn apply_branding_url(content: &Vec<u8>, url_bytes: &Vec<u8>) -> (out: Vec<u8>)
    ensures
        out@ == spec_apply_branding_url(content@, url_bytes@),
{
    let brand = brand_text_bytes();
    match url_source(url_bytes) {
        UrlSource::ScefraFr => {
            let n = scefra_marker_bytes();
            replace_all(content, &n, &brand)
        },
        UrlSource::ScefraEn => {
            let n = scefra_marker_bytes();
            replace_all(content, &n, &brand)
        },
        UrlSource::Circuspes => {
            let n = circuspes_marker_bytes();
            replace_all(content, &n, &brand)
        },
        _ => {
            let mut out: Vec<u8> = Vec::new();
            crate::text::append_bytes(&mut out, content);
            proof {
                assert(out@ =~= content@);
            }
            out
        },
    }
}

/// Idempotent branding, URL-keyed variant: a second rewrite for the same URL
/// changes nothing.
pub proof fn lemma_branding_url_idempotent(c: Seq<u8>, u: Seq<u8>)
    ensures
        spec_apply_branding_url(spec_apply_branding_url(c, u), u) == spec_apply_branding_url(c, u),
{
    lemma_brand_markers();
    match spec_url_source(u) {
        UrlSource::ScefraFr | UrlSource::ScefraEn => {
            let res = spec_replace_all(c, scefra_marker(), brand_text());
            lemma_replace_all_free(c, scefra_marker(), brand_text(), scefra_marker());
            lemma_replace_all_id(res, scefra_marker(), brand_text());
        },
        UrlSource::Circuspes => {
            let res = spec_replace_all(c, circuspes_marker(), brand_text());
            lemma_replace_all_free(c, circuspes_marker(), brand_text(), circuspes_marker());
            lemma_replace_all_id(res, circuspes_marker(), brand_text());
        },
        UrlSource::LocalCopy => {},
        UrlSource::Unknown => {},
    }
}

} // verus!

use startradfr::cache::{
    cache_info_of, detect_translation_source, get_cache_filename, is_cache_empty_for_version,
    local_url_for, sources_to_fetch, translation_sources, CacheIndex, CachedTranslation,
};
use startradfr::translation::{strip_bom, with_bom};

fn entry(gv: &str, src: &str, size: u64) -> CachedTranslation {
    CachedTranslation {
        game_version: gv.to_string(),
        source: src.to_string(),
        original_url: format!("local://{}/{}", gv, src),
        cached_at: "2024-01-01T00:00:00+00:00".to_string(),
        file_size: size,
    }
}

#[test]
fn cache_round_trip_is_byte_identical() {
    let content: Vec<u8> = b"key=value\n\xC3\xA9".to_vec();
    let stored = with_bom(&content);
    let read_back = strip_bom(&stored);
    assert_eq!(read_back, content);
}

#[test]
fn upsert_replaces_the_entry_for_a_key() {
    let mut index = CacheIndex::new();
    index.upsert(entry("LIVE", "scefra_fr", 10));
    index.upsert(entry("LIVE", "circuspes", 20));
    index.upsert(entry("PTU", "scefra_fr", 30));
    assert_eq!(index.translations.len(), 3);
    // writing the same key again replaces, never duplicates
    index.upsert(entry("LIVE", "scefra_fr", 99));
    assert_eq!(index.translations.len(), 3);
    let found = index
        .translations
        .iter()
        .find(|e| e.game_version == "LIVE" && e.source == "scefra_fr")
        .unwrap();
    assert_eq!(found.file_size, 99);
}

#[test]
fn remove_entry_is_idempotent() {
    let mut index = CacheIndex::new();
    index.upsert(entry("LIVE", "scefra_fr", 10));
    index.remove_entry("LIVE", "scefra_fr");
    assert_eq!(index.translations.len(), 0);
    index.remove_entry("LIVE", "scefra_fr");
    assert_eq!(index.translations.len(), 0);
}

#[test]
fn version_lookup_ignores_ascii_case() {
    let mut index = CacheIndex::new();
    index.upsert(entry("live", "scefra_fr", 10));
    assert!(index.has_version("LIVE"));
    assert!(index.has_version("live"));
    assert!(!index.has_version("PTU"));
    assert!(!is_cache_empty_for_version(&index, "LiVe"));
    assert!(is_cache_empty_for_version(&index, "PTU"));
}

#[test]
fn cache_filename_is_lowercased() {
    assert_eq!(get_cache_filename("LIVE", "SCEFRA_FR"), "live_scefra_fr.ini");
    assert_eq!(get_cache_filename("Ptu", "circuspes"), "ptu_circuspes.ini");
}

#[test]
fn source_detection_from_urls() {
    assert_eq!(
        detect_translation_source(
            "https://raw.githubusercontent.com/SPEED0U/Scefra/main/french_(france)/global.ini"
        ),
        "scefra_fr"
    );
    assert_eq!(
        detect_translation_source(
            "https://raw.githubusercontent.com/SPEED0U/Scefra/refs/heads/settings-en/french_(france)/global.ini"
        ),
        "scefra_en"
    );
    assert_eq!(
        detect_translation_source("https://traduction.circuspes.fr/download/global.ini"),
        "circuspes"
    );
    assert_eq!(detect_translation_source("local://LIVE/scefra"), "scefra_fr");
    assert_eq!(detect_translation_source("local://LIVE/circuspes"), "circuspes");
    assert_eq!(detect_translation_source("local://LIVE/whatever"), "local");
    assert_eq!(detect_translation_source("https://example.invalid/x"), "unknown");
}

#[test]
fn local_url_shape() {
    assert_eq!(local_url_for("LIVE", "scefra_fr"), "local://LIVE/scefra_fr");
}

#[test]
fn the_three_sources_are_enumerated() {
    let sources = translation_sources();
    assert_eq!(sources.len(), 3);
    assert_eq!(sources[0].0, "scefra_fr");
    assert_eq!(sources[1].0, "scefra_en");
    assert_eq!(sources[2].0, "circuspes");
    for (name, url) in &sources {
        assert_eq!(&detect_translation_source(url), name);
    }
}

#[test]
fn download_pass_skips_cached_sources_unless_forced() {
    let mut index = CacheIndex::new();
    index.upsert(entry("LIVE", "scefra_fr", 10));
    let plan = sources_to_fetch(&index, "LIVE", false);
    let names: Vec<&str> = plan.iter().map(|p| p.0.as_str()).collect();
    assert_eq!(names, vec!["scefra_en", "circuspes"]);
    let forced = sources_to_fetch(&index, "LIVE", true);
    assert_eq!(forced.len(), 3);
    let other = sources_to_fetch(&index, "PTU", false);
    assert_eq!(other.len(), 3);
}

#[test]
fn cache_info_counts_and_sums() {
    let mut index = CacheIndex::new();
    index.upsert(entry("LIVE", "scefra_fr", 100));
    index.upsert(entry("LIVE", "circuspes", 250));
    let info = cache_info_of(&index, "somewhere".to_string());
    assert_eq!(info.total_files, 2);
    assert_eq!(info.total_size, 350);
    assert_eq!(info.cache_path, "somewhere");
}

#[test]
fn cache_info_saturates_on_huge_sizes() {
    let mut index = CacheIndex::new();
    index.upsert(entry("LIVE", "scefra_fr", u64::MAX));
    index.upsert(entry("LIVE", "circuspes", 5));
    let info = cache_info_of(&index, String::new());
    assert_eq!(info.total_size, u64::MAX);
}

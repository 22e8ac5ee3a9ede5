use startradfr::branding::{apply_branding, apply_branding_url, needs_branding};
use startradfr::translation::{
    get_language_folder, is_up_to_date_from, normalize_content, strip_bom, update_file_bytes,
    user_cfg_content, user_cfg_declares_language, utf8_valid, with_bom,
};

fn b(s: &str) -> Vec<u8> {
    s.as_bytes().to_vec()
}

#[test]
fn language_folder_known_codes() {
    assert_eq!(get_language_folder("fr"), Some("french_(france)"));
    assert_eq!(get_language_folder("FR"), Some("french_(france)"));
    assert_eq!(get_language_folder("Fr"), Some("french_(france)"));
    assert_eq!(get_language_folder("fR"), Some("french_(france)"));
    assert_eq!(get_language_folder("en"), None);
    assert_eq!(get_language_folder(""), None);
    assert_eq!(get_language_folder("fra"), None);
}

#[test]
fn bom_round_trip_is_identity() {
    let content = b("key=value\nanother=entry\n");
    let written = with_bom(&content);
    assert_eq!(&written[0..3], &[0xEF, 0xBB, 0xBF]);
    let read_back = strip_bom(&written);
    assert_eq!(read_back, content);
}

#[test]
fn bom_round_trip_content_itself_starting_with_bom() {
    let mut content = vec![0xEF, 0xBB, 0xBF];
    content.extend_from_slice(b"data");
    let written = with_bom(&content);
    assert_eq!(strip_bom(&written), content);
}

#[test]
fn normalization_unifies_line_endings_and_trims() {
    let messy = b("  line1\r\nline2\r\n  ");
    assert_eq!(normalize_content(&messy), b("line1\nline2"));
    let clean = b("line1\nline2");
    assert_eq!(normalize_content(&clean), b("line1\nline2"));
    assert_eq!(normalize_content(&b("   \r\n  ")), b(""));
}

#[test]
fn branding_rewrites_scefra_marker() {
    let content = b("intro SCFRA outro");
    let branded = apply_branding(&content);
    assert_eq!(branded, b("intro StarTrad FR outro"));
}

#[test]
fn branding_rewrites_circuspes_marker() {
    let content = b("made by Circuspes team");
    let branded = apply_branding(&content);
    assert_eq!(branded, b("made by StarTrad FR team"));
}

#[test]
fn branding_leaves_unmarked_content_alone() {
    let content = b("no markers here");
    assert_eq!(apply_branding(&content), content);
    assert!(!needs_branding(&content));
}

#[test]
fn branding_is_idempotent_on_concrete_content() {
    let samples: Vec<Vec<u8>> = vec![
        b("SCFRA localization SCFRA"),
        b("Circuspes credits"),
        b("already StarTrad FR branded"),
        b("plain"),
        b(""),
    ];
    for c in samples {
        let once = apply_branding(&c);
        let twice = apply_branding(&once);
        assert_eq!(twice, once);
        assert!(!needs_branding(&once));
    }
}

#[test]
fn branding_by_url_is_idempotent() {
    let url = b("https://raw.githubusercontent.com/SPEED0U/Scefra/main/french_(france)/global.ini");
    let content = b("SCFRA pack");
    let once = apply_branding_url(&content, &url);
    assert_eq!(once, b("StarTrad FR pack"));
    let twice = apply_branding_url(&once, &url);
    assert_eq!(twice, once);
}

#[test]
fn needs_branding_detects_pending_rewrite() {
    assert!(needs_branding(&b("SCFRA")));
    assert!(needs_branding(&b("Circuspes")));
    assert!(!needs_branding(&b("StarTrad FR")));
}

#[test]
fn staleness_true_when_local_matches_branded_remote() {
    let url = b("https://traduction.circuspes.fr/download/global.ini");
    let remote = b("header\r\nmade by Circuspes\r\n");
    // the local file holds the branded remote, normalized, behind a marker
    let local = with_bom(&b("header\nmade by StarTrad FR"));
    assert!(is_up_to_date_from("fr", Some(&local), Some(&remote), &url));
}

#[test]
fn staleness_false_on_single_character_difference() {
    let url = b("https://traduction.circuspes.fr/download/global.ini");
    let remote = b("header\nvalue=1");
    let local = with_bom(&b("header\nvalue=2"));
    assert!(!is_up_to_date_from("fr", Some(&local), Some(&remote), &url));
}

#[test]
fn staleness_false_for_unknown_language_or_missing_sides() {
    let url = b("https://example.invalid/global.ini");
    let content = b("same");
    assert!(!is_up_to_date_from("de", Some(&content), Some(&content), &url));
    assert!(!is_up_to_date_from("fr", None, Some(&content), &url));
    assert!(!is_up_to_date_from("fr", Some(&content), None, &url));
}

#[test]
fn staleness_false_on_invalid_utf8_local_file() {
    let url = b("https://example.invalid/global.ini");
    let local = vec![0xFF, 0xFE, 0x41];
    let remote = b("anything");
    assert!(!is_up_to_date_from("fr", Some(&local), Some(&remote), &url));
}

#[test]
fn absent_local_file_then_update_round_trips() {
    let url = b("https://raw.githubusercontent.com/SPEED0U/Scefra/main/french_(france)/global.ini");
    let remote = b("alpha\r\nSCFRA beta\r\n");
    // the file is absent: not up to date
    assert!(!is_up_to_date_from("fr", None, Some(&remote), &url));
    // update writes the byte-order mark plus the branded content
    let written = update_file_bytes(&remote, &url);
    assert_eq!(&written[0..3], &[0xEF, 0xBB, 0xBF]);
    assert_eq!(&written[3..], b("alpha\r\nStarTrad FR beta\r\n").as_slice());
    // the freshly written file reads as up to date against the same remote
    assert!(is_up_to_date_from("fr", Some(&written), Some(&remote), &url));
}

#[test]
fn user_cfg_content_and_detection() {
    let cfg = user_cfg_content();
    assert_eq!(
        cfg,
        b("g_language = french_(france)\ng_languageAudio = english\n")
    );
    assert!(user_cfg_declares_language(&cfg));
    assert!(!user_cfg_declares_language(&b("g_language = english\n")));
}

#[test]
fn utf8_validation_accepts_well_formed_text() {
    assert!(utf8_valid(&b("plain ascii")));
    assert!(utf8_valid(&b("")));
    assert!(utf8_valid(&"héhé €100 𝄞".as_bytes().to_vec()));
}

#[test]
fn utf8_validation_rejects_malformed_bytes() {
    // a stray continuation byte
    assert!(!utf8_valid(&vec![0x80]));
    // a truncated two-byte scalar
    assert!(!utf8_valid(&vec![0xC3]));
    // an overlong encoding of the null scalar
    assert!(!utf8_valid(&vec![0xC0, 0x80]));
    // a surrogate half
    assert!(!utf8_valid(&vec![0xED, 0xA0, 0x80]));
    // a scalar beyond the last codepoint
    assert!(!utf8_valid(&vec![0xF4, 0x90, 0x80, 0x80]));
    // a byte no encoding starts with
    assert!(!utf8_valid(&vec![0xFF]));
}

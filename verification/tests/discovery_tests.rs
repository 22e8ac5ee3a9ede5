use startradfr::discovery::{
    candidate_paths, get_game_channel_id, channel_of, select_installations,
};
use startradfr::records::extract_version_from_path;

fn lines(ls: &[&str]) -> Vec<String> {
    ls.iter().map(|s| s.to_string()).collect()
}

#[test]
fn candidate_paths_extracts_and_normalizes() {
    let log = lines(&[
        r#"install at "E:\\Games\\StarCitizen\\LIVE" done"#,
    ]);
    let paths = candidate_paths(&log);
    assert_eq!(paths, vec![r"E:\Games\StarCitizen\LIVE".to_string()]);
}

#[test]
fn candidate_paths_scans_most_recent_line_first() {
    let log = lines(&[
        r#"old: "E:\\Old\\StarCitizen\\LIVE""#,
        r#"new: "E:\\New\\StarCitizen\\LIVE""#,
    ]);
    let paths = candidate_paths(&log);
    // the later line is scanned first, so the newer mention comes first
    assert_eq!(
        paths,
        vec![
            r"E:\New\StarCitizen\LIVE".to_string(),
            r"E:\Old\StarCitizen\LIVE".to_string(),
        ]
    );
}

#[test]
fn candidate_paths_deduplicates() {
    let log = lines(&[
        r#"a "E:\\Games\\StarCitizen\\PTU""#,
        r#"b "E:\\Games\\StarCitizen\\PTU" and "E:\\Games\\StarCitizen\\PTU""#,
    ]);
    let paths = candidate_paths(&log);
    assert_eq!(paths, vec![r"E:\Games\StarCitizen\PTU".to_string()]);
}

#[test]
fn candidate_paths_is_deterministic() {
    let log = lines(&[
        r#"x "C:\\P\\StarCitizen\\LIVE" y "D:\\Q\\StarCitizen\\PTU""#,
        r#"z "C:\\P\\StarCitizen\\EPTU""#,
    ]);
    let first = candidate_paths(&log);
    let second = candidate_paths(&log);
    assert_eq!(first, second);
}

#[test]
fn candidate_paths_ignores_text_without_marker() {
    let log = lines(&[
        r#"nothing here"#,
        r#"almost: "E:\\Games\\StarCitizenX\\LIVE""#,
        r#"no drive: \\Games\\StarCitizen\\LIVE"#,
    ]);
    assert!(candidate_paths(&log).is_empty());
}

#[test]
fn channel_id_reads_the_final_segment() {
    assert_eq!(get_game_channel_id(r"E:\Games\StarCitizen\LIVE"), "LIVE");
    assert_eq!(get_game_channel_id(r"E:\Games\StarCitizen\PTU"), "PTU");
    assert_eq!(
        get_game_channel_id(r"E:\Games\StarCitizen\4.0_PREVIEW"),
        "4.0_PREVIEW"
    );
    assert_eq!(get_game_channel_id(r"E:\Games\Other\LIVE"), "UNKNOWN");
    assert_eq!(get_game_channel_id(r"E:\Games\StarCitizen"), "UNKNOWN");
    assert!(channel_of(r"E:\Games\StarCitizen\LIVE").is_some());
    assert!(channel_of(r"E:\Elsewhere\LIVE").is_none());
}

#[test]
fn select_installations_keeps_first_accepted_path_per_channel() {
    let paths: Vec<String> = vec![
        r"E:\New\StarCitizen\LIVE".to_string(),
        r"E:\Old\StarCitizen\LIVE".to_string(),
        r"E:\Games\StarCitizen\PTU".to_string(),
    ];
    let flags = vec![true, true, true];
    let found = select_installations(&paths, &flags);
    assert_eq!(found.versions.len(), 2);
    assert_eq!(found.versions[0].0, "LIVE");
    assert_eq!(found.versions[0].1.path, r"E:\New\StarCitizen\LIVE");
    assert_eq!(found.versions[1].0, "PTU");
    assert!(!found.versions[0].1.translated);
    assert!(!found.versions[0].1.up_to_date);
}

#[test]
fn two_mentions_discovery_falls_back_to_the_valid_one() {
    // the log mentions LIVE twice; the mention later in the file (scanned
    // first) points at a path missing the required game files
    let log = lines(&[
        r#"earlier "E:\\Good\\StarCitizen\\LIVE""#,
        r#"later "E:\\Broken\\StarCitizen\\LIVE""#,
    ]);
    let paths = candidate_paths(&log);
    assert_eq!(
        paths,
        vec![
            r"E:\Broken\StarCitizen\LIVE".to_string(),
            r"E:\Good\StarCitizen\LIVE".to_string(),
        ]
    );
    // the marker-file check fails for the broken path
    let flags = vec![false, true];
    let found = select_installations(&paths, &flags);
    assert_eq!(found.versions.len(), 1);
    assert_eq!(found.versions[0].0, "LIVE");
    assert_eq!(found.versions[0].1.path, r"E:\Good\StarCitizen\LIVE");
}

#[test]
fn select_installations_skips_unrecognizable_channels() {
    let paths: Vec<String> = vec![r"E:\Games\Other\LIVE".to_string()];
    let flags = vec![true];
    let found = select_installations(&paths, &flags);
    assert!(found.versions.is_empty());
}

#[test]
fn character_path_version_extraction() {
    assert_eq!(
        extract_version_from_path(r"E:\Games\StarCitizen\LIVE\user\client\0\customcharacters\a.chf"),
        "LIVE"
    );
    assert_eq!(extract_version_from_path(r"E:\Games\Other\LIVE\a.chf"), "Unknown");
    assert_eq!(extract_version_from_path(r"E:\Games\StarCitizen"), "Unknown");
}

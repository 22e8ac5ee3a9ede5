use startradfr::backup::{
    backup_folder_name, backup_object_name, character_file_name, downloaded_backup_name,
    entry_is_directory, file_name_from_url, installer_args_for, restore_target_for,
    sanitize_title, storage_list_path, storage_object_path, update_delay_command,
    update_script_for, user_prefix, vbs_launcher_for, zip_dir_entries_for, zip_entry_name,
    RestoreTarget,
};
use startradfr::cfgfile::{
    get_graphics_renderer_content, get_user_cfg_resolution_content, join_lines,
    set_graphics_renderer_content, set_user_cfg_resolution_content, split_lines,
};
use startradfr::commits::{commit_kept, format_commit_date, shape_commit, split_commit_message};
use startradfr::prefs::{ThemeSelected, TranslationSetting, TranslationsSelected};
use startradfr::stats::{
    days_since, epoch_seconds, format_playtime, parse_log_line_stamp, registry_date_to_iso,
    session_counts, session_minutes, LogStamp,
};
use startradfr::web::{characters_url, html_escape, urlencode};

fn b(s: &str) -> Vec<u8> {
    s.as_bytes().to_vec()
}

#[test]
fn cfg_renderer_read_and_write() {
    let cfg = b("Con_Restricted = 0\nr.graphicsRenderer = 1\nother = x");
    assert_eq!(get_graphics_renderer_content(&cfg), 1);
    assert_eq!(get_graphics_renderer_content(&b("nothing")), 0);
    assert_eq!(get_graphics_renderer_content(&b("r.graphicsRenderer = oops")), 0);
    let rewritten = set_graphics_renderer_content(&cfg, 0);
    assert_eq!(
        rewritten,
        b("Con_Restricted = 0\nother = x\nr.graphicsRenderer = 0")
    );
    assert_eq!(get_graphics_renderer_content(&rewritten), 0);
}

#[test]
fn cfg_resolution_read_defaults_and_last_assignment() {
    assert_eq!(get_user_cfg_resolution_content(&b("")), (1920, 1080));
    let cfg = b("r_width = 800\nr_height = 600\nr_width = 2560\nr_height = 1440");
    assert_eq!(get_user_cfg_resolution_content(&cfg), (2560, 1440));
    let partial = b("r_width = 1280");
    assert_eq!(get_user_cfg_resolution_content(&partial), (1280, 1080));
}

#[test]
fn cfg_resolution_rewrite_preserves_other_lines() {
    let cfg = b("keepme = 1\nr_width = 800\nr_height = 600\nr.graphicsRenderer = 1");
    let rewritten = set_user_cfg_resolution_content(&cfg, 2560, 1440);
    assert_eq!(
        rewritten,
        b("keepme = 1\nCon_Restricted = 0\n\nr_width = 2560\nr_height = 1440\nr.graphicsRenderer = 1")
    );
    assert_eq!(get_user_cfg_resolution_content(&rewritten), (2560, 1440));
    assert_eq!(get_graphics_renderer_content(&rewritten), 1);
}

#[test]
fn cfg_resolution_rewrite_on_empty_file() {
    let rewritten = set_user_cfg_resolution_content(&b(""), 1024, 768);
    assert_eq!(rewritten, b("Con_Restricted = 0\n\nr_width = 1024\nr_height = 768"));
}

#[test]
fn line_split_and_join() {
    let content = b("a\r\nb\nc");
    let lines = split_lines(&content);
    assert_eq!(lines, vec![b("a"), b("b"), b("c")]);
    assert_eq!(join_lines(&lines), b("a\nb\nc"));
    assert!(split_lines(&b("")).is_empty());
    assert_eq!(split_lines(&b("x\n")), vec![b("x")]);
}

#[test]
fn commit_filtering_and_splitting() {
    assert!(commit_kept("Feat : new button"));
    assert!(commit_kept("Bugfix : crash"));
    assert!(commit_kept("Release : 3.0"));
    assert!(commit_kept("Refactoring : cleanup"));
    assert!(!commit_kept("chore: bump deps"));
    let (head, body) = split_commit_message("Feat : title\n\nlong body\nmore");
    assert_eq!(head, "Feat : title");
    assert_eq!(body.as_deref(), Some("long body\nmore"));
    let (head2, body2) = split_commit_message("Feat : title only");
    assert_eq!(head2, "Feat : title only");
    assert!(body2.is_none());
}

#[test]
fn commit_dates_render_in_utc() {
    assert_eq!(
        format_commit_date("2024-01-15T14:30:00Z"),
        "2024-01-15 | 14:30:00"
    );
    assert_eq!(
        format_commit_date("2024-01-15T14:30:00+02:00"),
        "2024-01-15 | 12:30:00"
    );
    assert_eq!(format_commit_date("not a date"), "");
}

#[test]
fn commit_shaping() {
    let shaped = shape_commit("Feat : a\n\nbody", "2024-01-15T14:30:00Z").unwrap();
    assert_eq!(shaped.message, "Feat : a");
    assert_eq!(shaped.description.as_deref(), Some("body"));
    assert_eq!(shaped.date, "2024-01-15 | 14:30:00");
    assert!(shape_commit("chore: x", "2024-01-15T14:30:00Z").is_none());
}

#[test]
fn theme_and_translation_defaults() {
    let theme = ThemeSelected::default();
    assert_eq!(theme.primary_color, "#6463b6");
    let setting = TranslationSetting::default();
    assert!(setting.link.is_none());
    assert!(!setting.settings_en);
}

#[test]
fn translation_selection_lookup_and_replacement() {
    let mut selected = TranslationsSelected::new();
    assert!(selected.get("LIVE").is_none());
    selected.set(
        "LIVE".to_string(),
        TranslationSetting { link: Some("https://a".to_string()), settings_en: false },
    );
    selected.set(
        "PTU".to_string(),
        TranslationSetting { link: Some("https://b".to_string()), settings_en: true },
    );
    assert_eq!(selected.get("LIVE").unwrap().link.as_deref(), Some("https://a"));
    // setting a channel again replaces its earlier entry
    selected.set(
        "LIVE".to_string(),
        TranslationSetting { link: Some("https://c".to_string()), settings_en: false },
    );
    assert_eq!(selected.entries.len(), 2);
    assert_eq!(selected.get("LIVE").unwrap().link.as_deref(), Some("https://c"));
    assert!(selected.get("EPTU").is_none());
}

#[test]
fn title_sanitization() {
    assert_eq!(sanitize_title(r#"a<b>c:d"e/f\g|h?i*j"#), "a_b_c_d_e_f_g_h_i_j");
    assert_eq!(sanitize_title("plain name"), "plain name");
    assert_eq!(character_file_name("he:ro"), "he_ro.chf");
}

#[test]
fn url_file_names_and_installer_args() {
    assert_eq!(file_name_from_url("https://host/path/setup-3.0.exe"), "setup-3.0.exe");
    assert_eq!(file_name_from_url("plain"), "plain");
    assert_eq!(file_name_from_url("dir/"), "");
    assert_eq!(installer_args_for("app.msi"), "/quiet /norestart");
    assert_eq!(installer_args_for("app.exe"), "/S");
    assert_eq!(installer_args_for("msi"), "/S");
}

#[test]
fn cloud_and_backup_names() {
    assert_eq!(backup_folder_name("20240101_120000"), "backup_customcharacters_20240101_120000");
    assert_eq!(
        backup_object_name("user1", "LIVE", "20240101_120000"),
        "user1/backup_LIVE_20240101_120000.zip"
    );
    assert_eq!(
        storage_object_path("user-backups", "user1/b.zip"),
        "/storage/v1/object/user-backups/user1/b.zip"
    );
    assert_eq!(storage_list_path("user-backups"), "/storage/v1/object/list/user-backups");
    assert_eq!(user_prefix("user1"), "user1/");
    assert_eq!(downloaded_backup_name("t1"), "downloaded_backup_t1.zip");
}

#[test]
fn zip_entry_names_and_dir_entries() {
    assert_eq!(zip_entry_name(r"user\client\0\a.txt"), "user/client/0/a.txt");
    let dirs = zip_dir_entries_for("user/client/0/a.txt");
    assert_eq!(dirs, vec!["user/", "user/client/", "user/client/0/"]);
    assert!(zip_dir_entries_for("toplevel.cfg").is_empty());
}

#[test]
fn restore_targets() {
    assert!(matches!(restore_target_for("user/"), RestoreTarget::SkipEntry));
    assert!(matches!(restore_target_for(""), RestoreTarget::SkipEntry));
    assert!(matches!(restore_target_for("user.cfg"), RestoreTarget::UserCfg));
    match restore_target_for("user/client/0/x.chf") {
        RestoreTarget::UserRelative(rel) => assert_eq!(rel, "client/0/x.chf"),
        _ => panic!("expected a user-relative target"),
    }
    match restore_target_for("stray.txt") {
        RestoreTarget::Other(name) => assert_eq!(name, "stray.txt"),
        _ => panic!("expected a root-relative target"),
    }
    assert!(entry_is_directory("user/sub/"));
    assert!(!entry_is_directory("user/sub/file"));
}

#[test]
fn play_session_timestamps_parse_and_measure() {
    let line = b("<2024-01-15T14:30:00.123456Z> session start");
    let start = parse_log_line_stamp(&line).unwrap();
    assert_eq!(
        start,
        LogStamp { year: 2024, month: 1, day: 15, hour: 14, minute: 30, second: 0 }
    );
    let end = parse_log_line_stamp(&b("<2024-01-15T16:05:30> later")).unwrap();
    assert_eq!(session_minutes(&start, &end), 95);
    assert!(session_counts(95));
    assert!(!session_counts(0));
    assert!(!session_counts(1440));
    assert!(!session_counts(-5));
}

#[test]
fn play_session_rejects_malformed_lines() {
    assert!(parse_log_line_stamp(&b("no stamp")).is_none());
    assert!(parse_log_line_stamp(&b("<2024-13-01T00:00:00>")).is_none());
    assert!(parse_log_line_stamp(&b("<2024-02-30T00:00:00>")).is_none());
    assert!(parse_log_line_stamp(&b("<2024-02-29T00:00:00>")).is_some());
    assert!(parse_log_line_stamp(&b("<2023-02-29T00:00:00>")).is_none());
    assert!(parse_log_line_stamp(&b("<2024-01-01T24:00:00>")).is_none());
}

#[test]
fn epoch_seconds_matches_the_unix_epoch() {
    let epoch = LogStamp { year: 1970, month: 1, day: 1, hour: 0, minute: 0, second: 0 };
    assert_eq!(epoch_seconds(&epoch), 0);
    let later = LogStamp { year: 2024, month: 1, day: 1, hour: 0, minute: 0, second: 0 };
    assert_eq!(epoch_seconds(&later), 1704067200);
}

#[test]
fn playtime_formatting() {
    assert_eq!(format_playtime(0), "0min");
    assert_eq!(format_playtime(59), "59min");
    assert_eq!(format_playtime(60), "1h 00min");
    assert_eq!(format_playtime(7655), "127h 35min");
}

#[test]
fn registry_dates_become_iso() {
    assert_eq!(
        registry_date_to_iso("20240115").as_deref(),
        Some("2024-01-15T00:00:00Z")
    );
    assert!(registry_date_to_iso("2024011").is_none());
    assert!(registry_date_to_iso("2024-1-5").is_none());
}

#[test]
fn days_since_counts_whole_days() {
    let now = 1704067200 + 10 * 86400 + 3600;
    assert_eq!(days_since("2024-01-01T00:00:00Z", now), Some(10));
    assert_eq!(days_since("garbage", now), None);
    assert_eq!(days_since("2024-01-01T00:00:00+00:00", 1704067200), Some(0));
}

#[test]
fn html_escaping() {
    assert_eq!(html_escape(r#"<a href="x">&'q'</a>"#), "&lt;a href=&quot;x&quot;&gt;&amp;&#x27;q&#x27;&lt;/a&gt;");
    assert_eq!(html_escape("plain"), "plain");
}

#[test]
fn characters_api_url() {
    assert_eq!(
        characters_url(2, "latest", ""),
        "https://www.star-citizen-characters.com/api/heads?page=2&orderBy=latest"
    );
    assert_eq!(
        characters_url(1, "download", "space hero"),
        "https://www.star-citizen-characters.com/api/heads?page=1&orderBy=download&search=space%20hero"
    );
    // the encoder really transforms its input
    assert_eq!(urlencode("a b&c"), "a%20b%26c");
    assert_eq!(urlencode("safe-._~123"), "safe-._~123");
}

#[test]
fn update_script_composition() {
    assert_eq!(update_delay_command(0), "");
    assert_eq!(update_delay_command(30), "timeout /t 30 /nobreak >nul");
    let script = update_script_for(
        "timeout /t 30 /nobreak >nul",
        "app.exe",
        r"C:\Downloads\setup.msi",
        "/quiet /norestart",
        r"C:\Apps\app.exe",
    );
    assert_eq!(
        script,
        "@echo off\nchcp 65001 >nul 2>&1\ntimeout /t 30 /nobreak >nul\n\
         taskkill /F /IM \"app.exe\" >nul 2>&1\ntimeout /t 1 /nobreak >nul\n\
         start /wait \"\" \"C:\\Downloads\\setup.msi\" /quiet /norestart\n\
         timeout /t 2 /nobreak >nul\nstart \"\" \"C:\\Apps\\app.exe\"\n"
    );
    let vbs = vbs_launcher_for(r"C:\tmp\u.bat");
    assert!(vbs.contains(r"C:\\tmp\\u.bat"));
    assert!(vbs.starts_with("Set WshShell"));
}

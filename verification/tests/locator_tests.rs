use translation_sync::locator::{
    check_and_add_path, extract_install_paths, get_game_channel_id, get_star_citizen_versions_sync,
    line_install_matches, normalize_path, sentinel_data_path, sentinel_exe_path,
};

// In the launcher log, path separators appear escaped (doubled).
const LIVE_LINE: &str =
    "{\"t\":\"info\",\"install_dir\":\"E:\\\\Games\\\\StarCitizen\\\\LIVE\",\"ok\":true}";
const PTU_LINE: &str =
    "{\"t\":\"info\",\"install_dir\":\"E:\\\\Games\\\\StarCitizen\\\\PTU\",\"ok\":true}";

#[test]
fn reverse_scan_discovers_newer_sessions_first() {
    // LIVE appears first in the file, PTU later: the reverse scan finds PTU first.
    let lines = vec![LIVE_LINE.to_string(), PTU_LINE.to_string()];
    let paths = extract_install_paths(&lines);
    assert_eq!(paths.len(), 2);
    assert_eq!(paths[0].as_str(), "E:\\Games\\StarCitizen\\PTU");
    assert_eq!(paths[1].as_str(), "E:\\Games\\StarCitizen\\LIVE");
}

#[test]
fn discovery_deduplicates_by_normalized_path() {
    let lines = vec![
        LIVE_LINE.to_string(),
        PTU_LINE.to_string(),
        LIVE_LINE.to_string(),
        PTU_LINE.to_string(),
    ];
    let paths = extract_install_paths(&lines);
    assert_eq!(paths.len(), 2);
    assert_eq!(paths[0].as_str(), "E:\\Games\\StarCitizen\\PTU");
    assert_eq!(paths[1].as_str(), "E:\\Games\\StarCitizen\\LIVE");
}

#[test]
fn missing_or_empty_log_yields_no_paths() {
    let none: Vec<String> = Vec::new();
    assert!(extract_install_paths(&none).is_empty());
    let chatter = vec!["nothing to see".to_string(), "".to_string()];
    assert!(extract_install_paths(&chatter).is_empty());
}

#[test]
fn one_line_can_mention_several_paths() {
    // a lone backslash ends the first fragment's component chain
    let line = "a E:\\\\A\\\\StarCitizen\\\\LIVE \\ F:\\\\B\\\\StarCitizen\\\\PTU c".to_string();
    let ms = line_install_matches(&line);
    assert_eq!(ms.len(), 2);
    assert_eq!(ms[0].as_str(), "E:\\\\A\\\\StarCitizen\\\\LIVE");
    assert_eq!(ms[1].as_str(), "F:\\\\B\\\\StarCitizen\\\\PTU");
}

#[test]
fn component_chains_reach_the_last_product_folder() {
    // components may hold any character but a backslash, so text between two
    // fragments that never breaks the separator chain joins them into one,
    // ending at the last product folder — the scan is greedy
    let line = "E:\\\\A\\\\StarCitizen\\\\LIVE b F:\\\\B\\\\StarCitizen\\\\PTU c".to_string();
    let ms = line_install_matches(&line);
    assert_eq!(ms.len(), 1);
    assert_eq!(
        ms[0].as_str(),
        "E:\\\\A\\\\StarCitizen\\\\LIVE b F:\\\\B\\\\StarCitizen\\\\PTU"
    );
}

#[test]
fn fragment_needs_the_product_folder() {
    let line = "E:\\\\Games\\\\Elsewhere\\\\LIVE".to_string();
    assert!(line_install_matches(&line).is_empty());
}

#[test]
fn normalize_collapses_separators_and_trims() {
    assert_eq!(
        normalize_path("E:\\\\Games\\\\StarCitizen\\\\LIVE").as_str(),
        "E:\\Games\\StarCitizen\\LIVE"
    );
    assert_eq!(normalize_path("E:\\\\X\\\\").as_str(), "E:\\X");
    assert_eq!(normalize_path("").as_str(), "");
}

#[test]
fn check_and_add_path_skips_duplicates_and_empties() {
    let mut v: Vec<String> = Vec::new();
    check_and_add_path("E:\\\\A\\\\StarCitizen\\\\LIVE", &mut v);
    check_and_add_path("E:\\\\A\\\\StarCitizen\\\\LIVE\\\\", &mut v);
    check_and_add_path("", &mut v);
    assert_eq!(v.len(), 1);
    assert_eq!(v[0].as_str(), "E:\\A\\StarCitizen\\LIVE");
}

#[test]
fn channel_id_is_the_component_after_the_product_folder() {
    assert_eq!(
        get_game_channel_id("E:\\Games\\StarCitizen\\LIVE").as_str(),
        "LIVE"
    );
    assert_eq!(
        get_game_channel_id("E:\\Games\\StarCitizen\\4.0_PREVIEW\\").as_str(),
        "4.0_PREVIEW"
    );
    assert_eq!(get_game_channel_id("E:\\Games\\Other\\LIVE").as_str(), "UNKNOWN");
    assert_eq!(get_game_channel_id("E:\\Games\\StarCitizen").as_str(), "UNKNOWN");
    assert_eq!(get_game_channel_id("").as_str(), "UNKNOWN");
}

#[test]
fn version_map_filters_and_keys_by_channel() {
    let paths = vec![
        "E:\\A\\StarCitizen\\PTU".to_string(),
        "E:\\B\\Other\\X".to_string(),
        "E:\\C\\StarCitizen\\LIVE".to_string(),
        "E:\\D\\StarCitizen\\PTU".to_string(),
    ];
    // the second path has no derivable channel, the last duplicates PTU
    let keep = vec![true, true, true, true];
    let vp = get_star_citizen_versions_sync(&paths, &keep);
    assert_eq!(vp.versions.len(), 2);
    assert_eq!(vp.versions[0].0.as_str(), "PTU");
    assert_eq!(vp.versions[0].1.path.as_str(), "E:\\A\\StarCitizen\\PTU");
    assert!(!vp.versions[0].1.translated);
    assert!(!vp.versions[0].1.up_to_date);
    assert_eq!(vp.versions[1].0.as_str(), "LIVE");
    assert_eq!(vp.versions[1].1.path.as_str(), "E:\\C\\StarCitizen\\LIVE");
}

#[test]
fn version_map_honours_the_existence_verdicts() {
    let paths = vec![
        "E:\\A\\StarCitizen\\PTU".to_string(),
        "E:\\C\\StarCitizen\\LIVE".to_string(),
    ];
    let keep = vec![false, true];
    let vp = get_star_citizen_versions_sync(&paths, &keep);
    assert_eq!(vp.versions.len(), 1);
    assert_eq!(vp.versions[0].0.as_str(), "LIVE");
}

#[test]
fn sentinel_files_mark_a_live_installation() {
    assert_eq!(
        sentinel_exe_path("E:\\A\\StarCitizen\\LIVE").as_str(),
        "E:\\A\\StarCitizen\\LIVE\\Bin64\\StarCitizen.exe"
    );
    assert_eq!(
        sentinel_data_path("E:\\A\\StarCitizen\\LIVE").as_str(),
        "E:\\A\\StarCitizen\\LIVE\\Data.p4k"
    );
}

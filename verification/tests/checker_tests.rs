use translation_sync::checker::{
    get_language_folder, is_game_translated_sync, is_translation_up_to_date, normalize_text,
    plan_install_or_update, strip_bom, translation_paths, uninstall_targets, InstallationProbe,
};

const BOM: [u8; 3] = [0xEF, 0xBB, 0xBF];

fn bytes_with_bom(text: &str) -> Vec<u8> {
    let mut v = BOM.to_vec();
    v.extend_from_slice(text.as_bytes());
    v
}

#[test]
fn language_folder_lookup_is_closed_and_case_insensitive() {
    assert_eq!(get_language_folder("fr"), Some("french_(france)"));
    assert_eq!(get_language_folder("FR"), Some("french_(france)"));
    assert_eq!(get_language_folder("Fr"), Some("french_(france)"));
    assert_eq!(get_language_folder("en"), None);
    assert_eq!(get_language_folder(""), None);
    assert_eq!(get_language_folder("fra"), None);
}

#[test]
fn up_to_date_is_reflexive_under_normalization() {
    // identical content modulo BOM, CRLF/LF and surrounding whitespace
    let local = bytes_with_bom("  Hello\r\nWorld\r\n");
    let r = is_translation_up_to_date(Some(local), Some("Hello\nWorld".to_string()), "fr");
    assert!(r);
    // without a BOM the comparison works the same
    let r2 = is_translation_up_to_date(
        Some("Hello\nWorld".as_bytes().to_vec()),
        Some("\tHello\r\nWorld  \n".to_string()),
        "fr",
    );
    assert!(r2);
}

#[test]
fn up_to_date_rejects_any_remaining_difference() {
    let local = bytes_with_bom("Hello\nWorld");
    let r = is_translation_up_to_date(Some(local), Some("Hello\nWorld!".to_string()), "fr");
    assert!(!r);
    // whitespace inside the text is a difference
    let local2 = bytes_with_bom("Hello \nWorld");
    assert!(!is_translation_up_to_date(
        Some(local2),
        Some("Hello\nWorld".to_string()),
        "fr"
    ));
}

#[test]
fn up_to_date_degrades_to_stale_on_any_failure() {
    // missing local asset
    assert!(!is_translation_up_to_date(None, Some("x".to_string()), "fr"));
    // failed remote fetch
    assert!(!is_translation_up_to_date(Some(b"x".to_vec()), None, "fr"));
    // unknown locale
    assert!(!is_translation_up_to_date(
        Some(b"x".to_vec()),
        Some("x".to_string()),
        "en"
    ));
    // local bytes that are not UTF-8
    let bad = vec![0xFF, 0xFE, 0x00];
    assert!(!is_translation_up_to_date(
        Some(bad),
        Some("x".to_string()),
        "fr"
    ));
}

#[test]
fn strip_bom_removes_exactly_one_leading_mark() {
    assert_eq!(strip_bom(&bytes_with_bom("abc")), b"abc".to_vec());
    assert_eq!(strip_bom(&b"abc".to_vec()), b"abc".to_vec());
    let double: Vec<u8> = [&BOM[..], &BOM[..]].concat();
    assert_eq!(strip_bom(&double), BOM.to_vec());
}

#[test]
fn normalize_folds_line_endings_and_trims() {
    let n = normalize_text(" \r\n a\r\nb\rc \n");
    let s: String = n.into_iter().collect();
    assert_eq!(s, "a\nb\rc");
}

#[test]
fn fresh_install_then_installed_round_trip() {
    let plan = plan_install_or_update("D:\\SC\\StarCitizen\\LIVE", "fr", "content", true).unwrap();
    // the asset is the byte-order mark plus the remote text
    assert_eq!(plan.asset_contents, bytes_with_bom("content"));
    // the fresh install writes the locale-selecting user config
    let user_cfg = plan.user_cfg_contents.clone().unwrap();
    assert_eq!(
        user_cfg.as_str(),
        "g_language = french_(france)\ng_languageAudio = english\n"
    );
    // probing the state the plan creates reports the overlay installed
    let probe = InstallationProbe {
        user_cfg: Some(user_cfg),
        data_dir: true,
        localization_dir: true,
        lang_dir: true,
        asset_file: true,
    };
    assert!(is_game_translated_sync(&probe, "fr"));
    // and the freshly written asset is current against the same remote text
    assert!(is_translation_up_to_date(
        Some(plan.asset_contents),
        Some("content".to_string()),
        "fr"
    ));
    // after an uninstall nothing remains and the check reports false
    let gone = InstallationProbe {
        user_cfg: None,
        data_dir: false,
        localization_dir: false,
        lang_dir: false,
        asset_file: false,
    };
    assert!(!is_game_translated_sync(&gone, "fr"));
}

#[test]
fn pure_update_never_touches_user_config() {
    let plan = plan_install_or_update("D:\\SC\\StarCitizen\\LIVE", "fr", "new text", false).unwrap();
    assert!(plan.user_cfg_contents.is_none());
    assert_eq!(plan.asset_contents, bytes_with_bom("new text"));
}

#[test]
fn unsupported_locale_is_a_hard_error_for_installs() {
    let r = plan_install_or_update("D:\\SC\\StarCitizen\\LIVE", "de", "x", true);
    match r {
        Ok(_) => panic!("an unsupported locale must be rejected"),
        Err(e) => assert_eq!(e.as_str(), "unsupported language"),
    }
}

#[test]
fn installed_check_needs_every_condition() {
    let probe = InstallationProbe {
        user_cfg: Some("g_language = french_(france)\n".to_string()),
        data_dir: true,
        localization_dir: true,
        lang_dir: true,
        asset_file: true,
    };
    assert!(is_game_translated_sync(&probe, "fr"));
    // unknown locale
    assert!(!is_game_translated_sync(&probe, "en"));
    // user config selecting another language
    let other = InstallationProbe {
        user_cfg: Some("g_language = german_(germany)\n".to_string()),
        ..probe_clone(&probe)
    };
    assert!(!is_game_translated_sync(&other, "fr"));
    // missing asset file
    let no_asset = InstallationProbe { asset_file: false, ..probe_clone(&probe) };
    assert!(!is_game_translated_sync(&no_asset, "fr"));
    // missing user config
    let no_cfg = InstallationProbe { user_cfg: None, ..probe_clone(&probe) };
    assert!(!is_game_translated_sync(&no_cfg, "fr"));
}

fn probe_clone(p: &InstallationProbe) -> InstallationProbe {
    InstallationProbe {
        user_cfg: p.user_cfg.clone(),
        data_dir: p.data_dir,
        localization_dir: p.localization_dir,
        lang_dir: p.lang_dir,
        asset_file: p.asset_file,
    }
}

#[test]
fn translation_paths_are_built_under_the_installation() {
    let p = translation_paths("D:\\SC\\StarCitizen\\LIVE", "fr").unwrap();
    assert_eq!(p.data_dir.as_str(), "D:\\SC\\StarCitizen\\LIVE\\data");
    assert_eq!(
        p.localization_dir.as_str(),
        "D:\\SC\\StarCitizen\\LIVE\\data\\Localization"
    );
    assert_eq!(
        p.lang_dir.as_str(),
        "D:\\SC\\StarCitizen\\LIVE\\data\\Localization\\french_(france)"
    );
    assert_eq!(
        p.asset_file.as_str(),
        "D:\\SC\\StarCitizen\\LIVE\\data\\Localization\\french_(france)\\global.ini"
    );
    assert_eq!(p.user_cfg.as_str(), "D:\\SC\\StarCitizen\\LIVE\\user.cfg");
    assert!(translation_paths("D:\\SC\\StarCitizen\\LIVE", "xx").is_none());
}

#[test]
fn uninstall_removes_data_subtree_and_user_config() {
    let (data, cfg) = uninstall_targets("D:\\SC\\StarCitizen\\LIVE");
    assert_eq!(data.as_str(), "D:\\SC\\StarCitizen\\LIVE\\data");
    assert_eq!(cfg.as_str(), "D:\\SC\\StarCitizen\\LIVE\\user.cfg");
}

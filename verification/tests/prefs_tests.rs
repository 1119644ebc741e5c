use translation_sync::characters::{
    characters_dir_path, extract_version_from_path, sanitize_file_name,
};
use translation_sync::prefs::{extract_quoted_link, TranslationsSelected};

fn sample_prefs() -> TranslationsSelected {
    TranslationsSelected {
        live: Some("live-link".to_string()),
        ptu: None,
        eptu: Some("eptu-link".to_string()),
        techpreview: Some("tp-link".to_string()),
        preview40: Some("p40-link".to_string()),
    }
}

#[test]
fn links_are_looked_up_by_channel() {
    let prefs = sample_prefs();
    assert_eq!(prefs.get_link("LIVE").unwrap().as_str(), "live-link");
    assert!(prefs.get_link("PTU").is_none());
    assert_eq!(prefs.get_link("EPTU").unwrap().as_str(), "eptu-link");
    assert_eq!(prefs.get_link("TECH-PREVIEW").unwrap().as_str(), "tp-link");
    assert_eq!(prefs.get_link("4.0_PREVIEW").unwrap().as_str(), "p40-link");
    assert!(prefs.get_link("NIGHTLY").is_none());
    assert!(prefs.get_link("live").is_none());
}

#[test]
fn no_selection_has_no_links() {
    let prefs = TranslationsSelected::none_selected();
    assert!(prefs.get_link("LIVE").is_none());
    assert!(prefs.get_link("PTU").is_none());
}

#[test]
fn quoted_link_payloads_are_unwrapped() {
    assert_eq!(
        extract_quoted_link("\"https://x.invalid/a.ini\"").unwrap().as_str(),
        "https://x.invalid/a.ini"
    );
    // every surrounding quote goes
    assert_eq!(extract_quoted_link("\"\"abc\"\"").unwrap().as_str(), "abc");
    assert_eq!(extract_quoted_link("\"\"").unwrap().as_str(), "");
    assert!(extract_quoted_link("{\"link\": \"x\"}").is_none());
    assert!(extract_quoted_link("plain").is_none());
    assert!(extract_quoted_link("").is_none());
}

#[test]
fn preset_version_is_the_component_after_the_product_folder() {
    assert_eq!(
        extract_version_from_path(
            "E:\\Games\\StarCitizen\\LIVE\\user\\client\\0\\customcharacters\\hero.chf"
        )
        .as_str(),
        "LIVE"
    );
    assert_eq!(extract_version_from_path("E:\\Games\\Other\\LIVE").as_str(), "Unknown");
    assert_eq!(extract_version_from_path("StarCitizen").as_str(), "Unknown");
    assert_eq!(extract_version_from_path("StarCitizen\\PTU").as_str(), "PTU");
}

#[test]
fn preset_titles_become_safe_file_names() {
    assert_eq!(sanitize_file_name("a<b>:c").as_str(), "a_b__c");
    assert_eq!(sanitize_file_name("hero?*|/\\\"").as_str(), "hero______");
    assert_eq!(sanitize_file_name("plain name").as_str(), "plain name");
    assert_eq!(sanitize_file_name("").as_str(), "");
}

#[test]
fn preset_folder_sits_under_the_installation() {
    assert_eq!(
        characters_dir_path("E:\\Games\\StarCitizen\\LIVE").as_str(),
        "E:\\Games\\StarCitizen\\LIVE\\user\\client\\0\\customcharacters"
    );
}

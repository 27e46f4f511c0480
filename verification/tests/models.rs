use factoriomodtranslator::models::cfg::{CfgEntry, CfgFile};
use factoriomodtranslator::models::enums::{
    ModSourceType, TranslationEngineType, TranslationMode, TranslationSource,
};
use factoriomodtranslator::models::glossary::GlossaryEntry;
use factoriomodtranslator::models::mod_info::ModInfo;
use factoriomodtranslator::models::settings::AppSettings;
use factoriomodtranslator::models::translation::{TranslationItem, TranslationRecord};
use factoriomodtranslator::string_map::StringMap;

#[test]
fn test_cfg_entry_creation() {
    let entry = CfgEntry {
        section: "item-name".to_string(),
        key: "iron-plate".to_string(),
        value: "Iron Plate".to_string(),
        comment: Some("Comment".to_string()),
    };

    assert_eq!(entry.section, "item-name");
    assert_eq!(entry.key, "iron-plate");
    assert_eq!(entry.value, "Iron Plate");
    assert_eq!(entry.comment, Some("Comment".to_string()));
}

#[test]
fn test_cfg_entry_without_comment() {
    let entry = CfgEntry {
        section: "item-name".to_string(),
        key: "copper-plate".to_string(),
        value: "Copper Plate".to_string(),
        comment: None,
    };

    assert!(entry.comment.is_none());
}

#[test]
fn test_cfg_file_creation() {
    let cfg_file = CfgFile {
        file_path: "locale/en/strings.cfg".to_string(),
        language_code: "en".to_string(),
        entries: vec![CfgEntry {
            section: "item-name".to_string(),
            key: "iron-plate".to_string(),
            value: "Iron Plate".to_string(),
            comment: None,
        }],
        section_order: vec!["item-name".to_string()],
        header_comments: vec!["; Header comment".to_string()],
    };

    assert_eq!(cfg_file.file_path, "locale/en/strings.cfg");
    assert_eq!(cfg_file.language_code, "en");
    assert_eq!(cfg_file.entries.len(), 1);
}

#[test]
fn test_cfg_file_empty_entries() {
    let cfg_file = CfgFile {
        file_path: "locale/en/strings.cfg".to_string(),
        language_code: "en".to_string(),
        entries: vec![],
        section_order: vec![],
        header_comments: vec![],
    };

    assert!(cfg_file.entries.is_empty());
    assert!(cfg_file.section_order.is_empty());
    assert!(cfg_file.header_comments.is_empty());
}

#[test]
fn test_translation_engine_type_default() {
    let default: TranslationEngineType = Default::default();
    assert_eq!(default, TranslationEngineType::DeepL);
}

#[test]
fn test_translation_mode_equality() {
    assert_eq!(TranslationMode::NewTranslation, TranslationMode::NewTranslation);
    assert_ne!(TranslationMode::NewTranslation, TranslationMode::DiffTranslation);
}

#[test]
fn test_translation_source_equality() {
    assert_eq!(TranslationSource::API, TranslationSource::API);
    assert_ne!(TranslationSource::API, TranslationSource::VanillaKeyMatch);
}

#[test]
fn test_glossary_entry_creation() {
    let entry = GlossaryEntry {
        source_term: "Iron Plate".to_string(),
        target_term: "鉄板".to_string(),
        source_lang: "en".to_string(),
        target_lang: "ja".to_string(),
        exclude_from_translation: false,
    };

    assert_eq!(entry.source_term, "Iron Plate");
    assert_eq!(entry.target_term, "鉄板");
    assert_eq!(entry.source_lang, "en");
    assert_eq!(entry.target_lang, "ja");
}

#[test]
fn test_glossary_entry_exclude_from_translation() {
    let entry = GlossaryEntry {
        source_term: "Item".to_string(),
        target_term: "アイテム".to_string(),
        source_lang: "en".to_string(),
        target_lang: "ja".to_string(),
        exclude_from_translation: true,
    };

    assert!(entry.exclude_from_translation);
}

#[test]
fn test_glossary_entry_default_values() {
    let entry = GlossaryEntry {
        source_term: String::new(),
        target_term: String::new(),
        source_lang: String::new(),
        target_lang: String::new(),
        exclude_from_translation: false,
    };

    assert!(entry.source_term.is_empty());
    assert!(entry.target_term.is_empty());
}

#[test]
fn test_mod_info_creation() {
    let mod_info = ModInfo {
        name: "my-mod".to_string(),
        version: "1.0.0".to_string(),
        title: "My Mod".to_string(),
        author: "Author".to_string(),
        source_path: "/path/to/mod".to_string(),
        source_type: ModSourceType::Folder,
        factorio_version: Some("2.0".to_string()),
        locale_files: vec![],
    };

    assert_eq!(mod_info.name, "my-mod");
    assert_eq!(mod_info.version, "1.0.0");
    assert_eq!(mod_info.source_type, ModSourceType::Folder);
}

#[test]
fn test_mod_info_zip_source_type() {
    let mod_info = ModInfo {
        name: "my-mod".to_string(),
        version: "0.5.0".to_string(),
        title: "My Mod".to_string(),
        author: "Author".to_string(),
        source_path: "/path/to/mod.zip".to_string(),
        source_type: ModSourceType::Zip,
        factorio_version: None,
        locale_files: vec![],
    };

    assert_eq!(mod_info.source_type, ModSourceType::Zip);
    assert!(mod_info.factorio_version.is_none());
}

#[test]
fn test_mod_info_with_locale_files() {
    let cfg_file = CfgFile {
        file_path: "locale/en/strings.cfg".to_string(),
        language_code: "en".to_string(),
        entries: vec![CfgEntry {
            section: "item-name".to_string(),
            key: "iron-plate".to_string(),
            value: "Iron Plate".to_string(),
            comment: None,
        }],
        section_order: vec!["item-name".to_string()],
        header_comments: vec![],
    };

    let mod_info = ModInfo {
        name: "my-mod".to_string(),
        version: "1.0.0".to_string(),
        title: "My Mod".to_string(),
        author: "Author".to_string(),
        source_path: "/path/to/mod".to_string(),
        source_type: ModSourceType::Folder,
        factorio_version: Some("2.0".to_string()),
        locale_files: vec![cfg_file],
    };

    assert_eq!(mod_info.locale_files.len(), 1);
    assert_eq!(mod_info.locale_files[0].entries.len(), 1);
}

#[test]
fn test_app_settings_default() {
    let settings = AppSettings::default();

    assert_eq!(settings.selected_engine, TranslationEngineType::DeepL);
    assert!(settings.factorio_install_path.is_empty());
    assert!(settings.ui_language.is_empty());
    assert!(settings.last_mod_path.is_empty());
    assert!(settings.api_keys.is_empty());
}

#[test]
fn test_app_settings_creation() {
    let mut api_keys = StringMap::new();
    api_keys.insert("DeepL".to_string(), "test-key".to_string());

    let settings = AppSettings {
        selected_engine: TranslationEngineType::GoogleTranslate,
        factorio_install_path: "/path/to/factorio".to_string(),
        ui_language: "en".to_string(),
        last_mod_path: "/path/to/mod".to_string(),
        default_source_lang: "en".to_string(),
        default_target_lang: "ja".to_string(),
        window_width: 1024,
        window_height: 768,
        api_keys,
    };

    assert_eq!(settings.selected_engine, TranslationEngineType::GoogleTranslate);
    assert_eq!(settings.factorio_install_path, "/path/to/factorio");
    assert_eq!(settings.window_width, 1024);
    assert_eq!(settings.window_height, 768);
    assert_eq!(settings.api_keys.get("DeepL"), Some(&"test-key".to_string()));
}

#[test]
fn test_app_settings_api_keys() {
    let mut settings = AppSettings::default();
    settings.api_keys.insert("Google".to_string(), "google-key".to_string());

    assert_eq!(settings.api_keys.len(), 1);
    assert_eq!(settings.api_keys.get("Google"), Some(&"google-key".to_string()));
}

#[test]
fn test_translation_record_creation() {
    let record = TranslationRecord {
        id: Some(1),
        mod_name: "test-mod".to_string(),
        mod_version: Some("1.0.0".to_string()),
        section: "item-name".to_string(),
        key: "iron-plate".to_string(),
        source_lang: "en".to_string(),
        target_lang: "ja".to_string(),
        source_text: "Iron Plate".to_string(),
        translated_text: "鉄板".to_string(),
        engine: "DeepL".to_string(),
        translated_at: "2026-01-01T00:00:00+00:00".to_string(),
    };

    assert_eq!(record.id, Some(1));
    assert_eq!(record.mod_name, "test-mod");
    assert_eq!(record.mod_version, Some("1.0.0".to_string()));
}

#[test]
fn test_translation_record_without_id() {
    let record = TranslationRecord {
        id: None,
        mod_name: "test-mod".to_string(),
        mod_version: None,
        section: "item-name".to_string(),
        key: "copper-plate".to_string(),
        source_lang: "en".to_string(),
        target_lang: "ja".to_string(),
        source_text: "Copper Plate".to_string(),
        translated_text: "銅板".to_string(),
        engine: "Google".to_string(),
        translated_at: "2026-01-01T00:00:00+00:00".to_string(),
    };

    assert!(record.id.is_none());
    assert!(record.mod_version.is_none());
}

#[test]
fn test_translation_item_creation() {
    let item = TranslationItem {
        section: "item-name".to_string(),
        key: "iron-plate".to_string(),
        source_text: "Iron Plate".to_string(),
        translated_text: "鉄板".to_string(),
        vanilla_translation: Some("鉄板".to_string()),
        source: TranslationSource::VanillaKeyMatch,
        is_edited: false,
    };

    assert_eq!(item.section, "item-name");
    assert_eq!(item.key, "iron-plate");
    assert_eq!(item.source, TranslationSource::VanillaKeyMatch);
    assert!(!item.is_edited);
}

#[test]
fn test_translation_item_api_source() {
    let item = TranslationItem {
        section: "recipe-name".to_string(),
        key: "iron-gear".to_string(),
        source_text: "Iron Gear".to_string(),
        translated_text: "鉄歯車".to_string(),
        vanilla_translation: None,
        source: TranslationSource::API,
        is_edited: true,
    };

    assert_eq!(item.source, TranslationSource::API);
    assert!(item.is_edited);
}

#[test]
fn string_map_insert_replaces_and_returns_previous() {
    let mut m = StringMap::new();
    assert_eq!(m.insert("a".to_string(), "1".to_string()), None);
    assert_eq!(m.insert("b".to_string(), "2".to_string()), None);
    assert_eq!(m.insert("a".to_string(), "3".to_string()), Some("1".to_string()));
    assert_eq!(m.len(), 2);
    assert_eq!(m.get("a"), Some(&"3".to_string()));
    assert!(m.contains_key("b"));
    assert!(!m.contains_key("c"));
    let copy = m.copied();
    assert_eq!(copy.get("b"), Some(&"2".to_string()));
}

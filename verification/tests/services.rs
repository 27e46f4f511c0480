use factoriomodtranslator::models::cfg::{CfgEntry, CfgFile};
use factoriomodtranslator::models::enums::{ModSourceType, TranslationEngineType};
use factoriomodtranslator::models::glossary::GlossaryEntry;
use factoriomodtranslator::models::settings::AppSettings;
use factoriomodtranslator::services::cfg_parser::CfgParser;
use factoriomodtranslator::services::formatter::FactorioStringFormatter;
use factoriomodtranslator::services::glossary_service::GlossaryService;
use factoriomodtranslator::services::localization_service::LocalizationService;
use factoriomodtranslator::services::logging::{mask_sensitive, LogContext};
use factoriomodtranslator::services::mod_loader::{InfoFile, InfoJson, LocaleSource, ModLoader};
use factoriomodtranslator::services::settings_service::{MachineIdentity, SettingsService};
use factoriomodtranslator::services::translation_history_service::TranslationHistoryService;
use factoriomodtranslator::services::vanilla_translation_service::VanillaTranslationService;

fn iron_entry(source_term: &str, target_term: &str) -> GlossaryEntry {
    GlossaryEntry {
        source_term: source_term.to_string(),
        target_term: target_term.to_string(),
        source_lang: "en".to_string(),
        target_lang: "ja".to_string(),
        exclude_from_translation: false,
    }
}

#[test]
fn test_parse_should_correctly_parse_cfg_content() {
    let cfg_content = "
; Header Comment
[item-name]
; Item Comment
iron-plate=鉄板
copper-plate=銅板

[entity-name]
small-biter=小型バイター
";
    let result = CfgParser::parse(cfg_content.as_bytes(), String::new(), String::new());

    assert_eq!(result.entries.len(), 3);
    assert!(result.section_order.contains(&"item-name".to_string()));
    assert!(result.section_order.contains(&"entity-name".to_string()));

    let iron_plate = result.entries.iter().find(|e| e.key == "iron-plate").unwrap();
    assert_eq!(iron_plate.value, "鉄板");
    assert_eq!(iron_plate.comment, Some("; Item Comment".to_string()));

    assert_eq!(result.header_comments.len(), 1);
    assert_eq!(result.header_comments[0], "; Header Comment");
}

#[test]
fn test_write_should_preserve_structure() {
    let cfg_file = CfgFile {
        file_path: String::new(),
        language_code: String::new(),
        section_order: vec!["item-name".to_string()],
        header_comments: vec!["; Header".to_string()],
        entries: vec![CfgEntry {
            section: "item-name".to_string(),
            key: "key1".to_string(),
            value: "val1".to_string(),
            comment: Some("; Entry Comment".to_string()),
        }],
    };
    let output_str = CfgParser::write(&cfg_file);

    assert!(output_str.contains("; Header"));
    assert!(output_str.contains("[item-name]"));
    assert!(output_str.contains("; Entry Comment"));
    assert!(output_str.contains("key1=val1"));
}

#[test]
fn write_gives_exact_layout() {
    let cfg_file = CfgFile {
        file_path: String::new(),
        language_code: String::new(),
        section_order: vec!["item-name".to_string()],
        header_comments: vec!["; Header".to_string()],
        entries: vec![CfgEntry {
            section: "item-name".to_string(),
            key: "key1".to_string(),
            value: "val1".to_string(),
            comment: Some("; Entry Comment".to_string()),
        }],
    };
    assert_eq!(
        CfgParser::write(&cfg_file),
        "; Header\n\n[item-name]\n; Entry Comment\nkey1=val1\n"
    );
}

#[test]
fn parse_of_written_file_groups_entries_by_section() {
    let cfg_file = CfgFile {
        file_path: "locale/en/a.cfg".to_string(),
        language_code: "en".to_string(),
        section_order: vec!["b".to_string(), "a".to_string()],
        header_comments: vec!["; top".to_string()],
        entries: vec![
            CfgEntry {
                section: "a".to_string(),
                key: "x".to_string(),
                value: "1".to_string(),
                comment: None,
            },
            CfgEntry {
                section: "b".to_string(),
                key: "y".to_string(),
                value: "2".to_string(),
                comment: Some("; about y".to_string()),
            },
        ],
    };
    let text = CfgParser::write(&cfg_file);
    let back = CfgParser::parse(text.as_bytes(), "locale/en/a.cfg".to_string(), "en".to_string());
    assert_eq!(back.header_comments, vec!["; top".to_string()]);
    assert_eq!(back.section_order, vec!["b".to_string(), "a".to_string()]);
    assert_eq!(back.entries.len(), 2);
    assert_eq!(back.entries[0].key, "y");
    assert_eq!(back.entries[0].comment, Some("; about y".to_string()));
    assert_eq!(back.entries[1].key, "x");
    assert_eq!(back.entries[1].value, "1");
    assert_eq!(back.entries[1].comment, None);
}

#[test]
fn blank_lines_inside_a_section_are_kept() {
    let text = "[a]\nx=1\n\ny=2\n";
    let f = CfgParser::parse(text.as_bytes(), String::new(), String::new());
    assert_eq!(f.entries.len(), 2);
    assert_eq!(f.entries[0].comment, None);
    assert_eq!(f.entries[1].comment, Some(String::new()));
    assert_eq!(CfgParser::write(&f), text);
}

#[test]
fn blank_lines_around_sections_become_one_separator() {
    let text = "\n; top\n\n[a]\n; c\n\nx=1\n\n\n[b]\ny=2\n\n";
    let f = CfgParser::parse(text.as_bytes(), String::new(), String::new());
    assert_eq!(f.header_comments, vec!["; top".to_string()]);
    assert_eq!(f.entries[0].comment, Some("; c\n".to_string()));
    assert_eq!(f.entries[1].comment, None);
    assert_eq!(CfgParser::write(&f), "; top\n\n[a]\n; c\n\nx=1\n\n[b]\ny=2\n");
}

#[test]
fn reading_a_written_file_groups_the_entries_read() {
    let text = "; top\n[a]\nx=1\n[b]\ny=2\n[a]\nz=3\n";
    let f = CfgParser::parse(text.as_bytes(), String::new(), String::new());
    let written = CfgParser::write(&f);
    assert_eq!(written, "; top\n\n[a]\nx=1\nz=3\n\n[b]\ny=2\n");
    let g = CfgParser::parse(written.as_bytes(), String::new(), String::new());
    assert_eq!(g.header_comments, f.header_comments);
    assert_eq!(g.section_order, f.section_order);
    let keys: Vec<&str> = g.entries.iter().map(|e| e.key.as_str()).collect();
    assert_eq!(keys, vec!["x", "z", "y"]);
    assert_eq!(CfgParser::write(&g), written);
}

#[test]
fn parse_skips_invalid_utf8_lines_and_lines_without_equals() {
    let mut bytes = b"[s]\nk=v\n".to_vec();
    bytes.extend_from_slice(&[0xff, 0xfe, b'\n']);
    bytes.extend_from_slice(b"noequals\nk2 = v2 \n");
    let f = CfgParser::parse(&bytes, String::new(), String::new());
    assert_eq!(f.entries.len(), 2);
    assert_eq!(f.entries[1].key, "k2");
    assert_eq!(f.entries[1].value, "v2");
}

#[test]
fn test_wrap_tags_empty_string() {
    let result = FactorioStringFormatter::wrap_tags("");
    assert_eq!(result, "");
}

#[test]
fn test_wrap_tags_simple_text() {
    let result = FactorioStringFormatter::wrap_tags("Hello World");
    assert!(result.contains("Hello World"));
}

#[test]
fn test_wrap_tags_preserves_italic_underscores() {
    let result = FactorioStringFormatter::wrap_tags("__Iron Plate__");
    assert!(result.contains("<keep>"));
    assert!(result.contains("__Iron Plate__"));
}

#[test]
fn test_wrap_tags_preserves_brackets() {
    let result = FactorioStringFormatter::wrap_tags("[item]Iron Plate[/item]");
    assert!(result.contains("<keep>"));
    assert!(result.contains("<keep>"));
}

#[test]
fn test_wrap_tags_preserves_newlines() {
    let result = FactorioStringFormatter::wrap_tags("Line 1\\nLine 2");
    assert!(result.contains("<keep>"));
    assert!(result.contains("\\n"));
}

#[test]
fn test_wrap_tags_combined_patterns() {
    let result = FactorioStringFormatter::wrap_tags("__Iron Plate__ and [item]Copper[/item]");
    assert!(result.contains("<keep>"));
}

#[test]
fn test_unwrap_tags_empty_string() {
    let result = FactorioStringFormatter::unwrap_tags("");
    assert_eq!(result, "");
}

#[test]
fn test_unwrap_tags_removes_keep_tags() {
    let result = FactorioStringFormatter::unwrap_tags("Hello <keep>__test__</keep> World");
    assert!(!result.contains("<keep>"));
    assert!(!result.contains("</keep>"));
    assert!(result.contains("__test__"));
}

#[test]
fn test_unwrap_tags_restores_html_entities() {
    let text = "Test & <test>";
    let wrapped = FactorioStringFormatter::wrap_tags(text);
    let unwrapped = FactorioStringFormatter::unwrap_tags(&wrapped);
    assert!(unwrapped.contains("Test"));
}

#[test]
fn test_wrap_unwrap_cycle() {
    let text = "__Iron Plate__";
    let wrapped = FactorioStringFormatter::wrap_tags(text);
    let unwrapped = FactorioStringFormatter::unwrap_tags(&wrapped);
    assert!(unwrapped.contains("__Iron Plate__"));
}

#[test]
fn wrap_tags_exact_forms() {
    assert_eq!(FactorioStringFormatter::wrap_tags("A & B"), "A &amp; B");
    assert_eq!(
        FactorioStringFormatter::wrap_tags("__Iron Plate__ and [item]"),
        "<keep>__Iron Plate__</keep> and <keep>[item]</keep>"
    );
    assert_eq!(FactorioStringFormatter::unwrap_tags("<keep>a</keep> &amp; b"), "a & b");
}

#[test]
fn test_manage_glossary_success_should_replace_terms() {
    let mut service = GlossaryService::new("glossary.json".to_string());
    let entry = iron_entry("Iron", "鉄");

    service.add_entry(entry);
    let result = service.apply_glossary("Iron Plate", "en", "ja");

    assert_eq!(result, "鉄 Plate");
}

#[test]
fn test_manage_glossary_alternative_duplicate_term_should_overwrite_existing() {
    let mut service = GlossaryService::new("glossary.json".to_string());
    let entry1 = iron_entry("Iron", "鉄");
    let entry2 = iron_entry("Iron", "アイアン");

    service.add_entry(entry1);
    service.add_entry(entry2);
    let entries = service.get_all_entries();

    assert_eq!(entries.len(), 1);
    assert_eq!(entries[0].target_term, "アイアン");
}

#[test]
fn test_manage_glossary_remove_entry() {
    let mut service = GlossaryService::new("glossary.json".to_string());
    let entry = iron_entry("Iron", "鉄");

    service.add_entry(entry);
    assert_eq!(service.get_all_entries().len(), 1);

    service.remove_entry("Iron");
    service.remove_entry("Copper");

    let entries = service.get_all_entries();
    assert_eq!(entries.len(), 0);
}

#[test]
fn glossary_ignores_case_other_languages_and_empty_terms() {
    let mut service = GlossaryService::new("glossary.json".to_string());
    service.add_entry(iron_entry("iron", "鉄"));
    service.add_entry(iron_entry("", "空"));
    let mut other = iron_entry("Plate", "板");
    other.target_lang = "de".to_string();
    service.add_entry(other);
    assert_eq!(service.apply_glossary("IRON Plate, iron", "en", "ja"), "鉄 Plate, 鉄");
    assert_eq!(service.apply_glossary("Iron Plate", "en", "de"), "Iron 板");
    assert_eq!(service.apply_glossary("a.b", "en", "ja"), "a.b");
    assert_eq!(service.file_path(), "glossary.json");
}

#[test]
fn test_localization_should_return_correct_strings() {
    let service = LocalizationService::new();

    assert_eq!(service.get_string("AppTitle", "ja"), "Factorio Mod 自動翻訳ツール");
    assert_eq!(service.get_string("AppTitle", "en"), "Factorio Mod Auto-Translator");
    assert_eq!(service.get_string("InvalidKey", "ja"), "InvalidKey");
}

#[test]
fn test_get_all_translations_should_return_entire_map() {
    let service = LocalizationService::new();
    let ja = service.get_all_translations("ja");
    assert!(ja.contains_key("AppTitle"));
    assert_eq!(ja.get("AppTitle").unwrap(), "Factorio Mod 自動翻訳ツール");
}

#[test]
fn localization_falls_back_to_english_for_other_languages() {
    let service = LocalizationService::new();
    assert_eq!(service.get_string("Settings", "fr"), "Settings");
    assert_eq!(service.get_string("Settings", "ja-JP"), "設定");
    assert_eq!(service.get_all_translations("de").len(), 15);
}

#[test]
fn mask_sensitive_hides_all_but_four_bytes() {
    assert_eq!(mask_sensitive("short"), "***");
    assert_eq!(mask_sensitive("12345678"), "***");
    assert_eq!(mask_sensitive("test_key_123456789"), "test***");
}

#[test]
fn log_context_keeps_function_name() {
    let ctx = LogContext::new("load_mod", "req-1".to_string());
    assert_eq!(ctx.function_name, "load_mod");
    assert_eq!(ctx.request_id, "req-1");
}

#[test]
fn is_cfg_file_follows_extension_rules() {
    assert!(ModLoader::is_cfg_file("strings.cfg"));
    assert!(!ModLoader::is_cfg_file(".cfg"));
    assert!(!ModLoader::is_cfg_file("strings.cfg.bak"));
    assert!(!ModLoader::is_cfg_file("strings.txt"));
}

#[test]
fn plan_zip_load_refuses_empty_archive() {
    let r = ModLoader::plan_zip_load(&vec![]);
    assert_eq!(r.unwrap_err(), "Zip is empty");
}

#[test]
fn plan_zip_load_finds_metadata_and_locale_entries() {
    let names = vec![
        "test-mod_1.0.0/".to_string(),
        "test-mod_1.0.0/info.json".to_string(),
        "test-mod_1.0.0/locale/en/strings.cfg".to_string(),
        "test-mod_1.0.0/locale/strings.cfg".to_string(),
        "test-mod_1.0.0/locale/ja/readme.txt".to_string(),
        "test-mod_1.0.0/locale/ja/a/b.cfg".to_string(),
        "other/locale/de/x.cfg".to_string(),
    ];
    let plan = ModLoader::plan_zip_load(&names).unwrap();
    assert_eq!(plan.root_folder, "test-mod_1.0.0/");
    assert_eq!(plan.info_name, "test-mod_1.0.0/info.json");
    assert_eq!(plan.locale_entries.len(), 2);
    assert_eq!(plan.locale_entries[0].entry_name, "test-mod_1.0.0/locale/en/strings.cfg");
    assert_eq!(plan.locale_entries[0].lang_code, "en");
    assert_eq!(plan.locale_entries[1].lang_code, "a");
    assert!(plan.has_locale_folder);
}

#[test]
fn zip_root_of_entry_without_slash() {
    assert_eq!(ModLoader::zip_root_folder("info.json"), "info.json/");
    assert_eq!(ModLoader::zip_entry_lang("a/locale/en/x.cfg"), Some("en".to_string()));
    assert_eq!(ModLoader::zip_entry_lang("a/locale/x.cfg"), None);
}

#[test]
fn assemble_mod_info_takes_metadata_and_parses_files() {
    let info = InfoJson {
        name: Some("test-mod".to_string()),
        version: Some("1.0.0".to_string()),
        title: Some("Test Mod Title".to_string()),
        author: None,
        factorio_version: None,
    };
    let sources = vec![LocaleSource {
        file_path: "/m/locale/en/strings.cfg".to_string(),
        lang_code: "en".to_string(),
        content: b"[section]\nkey=value".to_vec(),
    }];
    let m = ModLoader::assemble_mod_info("/m", ModSourceType::Folder, InfoFile::Read(info), true, &sources)
        .unwrap();
    assert_eq!(m.name, "test-mod");
    assert_eq!(m.title, "Test Mod Title");
    assert_eq!(m.author, "");
    assert_eq!(m.locale_files.len(), 1);
    assert_eq!(m.locale_files[0].language_code, "en");
    assert_eq!(m.locale_files[0].entries[0].key, "key");
    assert_eq!(m.locale_files[0].entries[0].value, "value");
}

#[test]
fn populate_metadata_keeps_fields_the_file_omits() {
    let mut m = ModLoader::empty_mod_info("/m.zip", ModSourceType::Zip);
    m.author = "Someone".to_string();
    m.factorio_version = Some("1.1".to_string());
    let info = InfoJson {
        name: Some("n".to_string()),
        version: None,
        title: None,
        author: None,
        factorio_version: None,
    };
    ModLoader::populate_metadata(&mut m, info);
    assert_eq!(m.name, "n");
    assert_eq!(m.author, "Someone");
    assert_eq!(m.factorio_version, None);
    assert_eq!(m.source_type, ModSourceType::Zip);
}

fn vanilla_service() -> VanillaTranslationService {
    let mut service = VanillaTranslationService::new();
    let targets = vec![
        "[gui]\nconfirm=確定".as_bytes().to_vec(),
        "[item-name]\niron-plate=鉄板".as_bytes().to_vec(),
    ];
    let english = vec![
        "[gui]\nconfirm=Confirm".as_bytes().to_vec(),
        "[item-name]\niron-plate=Iron Plate".as_bytes().to_vec(),
    ];
    service.load_vanilla_contents(&targets, &english);
    service
}

#[test]
fn test_vanilla_data_matching_success_should_find_matches() {
    let service = vanilla_service();

    assert_eq!(service.match_by_key("item-name", "iron-plate"), Some("鉄板".to_string()));
    assert_eq!(service.match_by_text("Iron Plate"), Some("鉄板".to_string()));
}

#[test]
fn vanilla_hints_match_ignoring_case() {
    let service = vanilla_service();
    assert_eq!(service.get_context_hints("iron"), vec!["Iron Plate → 鉄板".to_string()]);
    assert_eq!(service.get_context_hints("zzz").len(), 0);
    assert_eq!(service.get_context_hints("").len(), 2);
    assert_eq!(service.match_by_key("gui", "cancel"), None);
    assert_eq!(service.match_by_text("Cancel"), None);
}

#[test]
fn vanilla_hints_are_at_most_three() {
    let mut service = VanillaTranslationService::new();
    let targets = vec!["[a]\nk1=1\nk2=2\nk3=3\nk4=4".as_bytes().to_vec()];
    let english = vec!["[a]\nk1=Iron A\nk2=Iron B\nk3=Iron C\nk4=Iron D\nk5=Iron E".as_bytes().to_vec()];
    service.load_vanilla_contents(&targets, &english);
    let hints = service.get_context_hints("IRON");
    assert_eq!(hints.len(), 3);
    assert_eq!(service.match_by_text("Iron E"), None);
    service.clear();
    assert_eq!(service.match_by_key("a", "k1"), None);
}

#[test]
fn test_manage_settings_api_key_save_load() {
    let identity = MachineIdentity {
        computer_name: None,
        user_domain: None,
        user_name: None,
    };
    let engine = "TestEngine_Antigravity";
    let key = "test_key_123456789";

    let mut settings = SettingsService::default_settings();
    let saved = SettingsService::save_api_key(&mut settings, &identity, engine, key);
    assert!(saved.is_ok());
    if let Ok(_) = saved {
        let loaded = SettingsService::load_api_key(&settings, &identity, engine);
        assert_eq!(loaded, Some(key.to_string()));
    }
}

#[test]
fn api_keys_are_trimmed_and_refused_when_empty() {
    let identity = MachineIdentity {
        computer_name: Some("PC".to_string()),
        user_domain: Some("HOME".to_string()),
        user_name: Some("me".to_string()),
    };
    assert_eq!(
        SettingsService::encode_api_key(&identity, "   \n").unwrap_err(),
        "API key cannot be empty"
    );
    let stored = SettingsService::encode_api_key(&identity, "  abc  ").unwrap();
    assert_ne!(stored, "abc");
    let mut settings = AppSettings::default();
    SettingsService::store_api_key(&mut settings, "DeepL", stored.clone());
    assert_eq!(SettingsService::load_api_key(&settings, &identity, "DeepL"), Some("abc".to_string()));
    assert_eq!(SettingsService::load_api_key(&settings, &identity, "Google"), None);
    let other = MachineIdentity {
        computer_name: Some("PC2".to_string()),
        user_domain: Some("HOME".to_string()),
        user_name: Some("me".to_string()),
    };
    assert_eq!(SettingsService::load_api_key(&settings, &other, "DeepL"), None);
    assert_eq!(SettingsService::decode_api_key(&identity, "not base64!"), None);
}

#[test]
fn default_settings_values() {
    let s = SettingsService::default_settings();
    assert_eq!(s.selected_engine, TranslationEngineType::DeepL);
    assert_eq!(s.factorio_install_path, "C:\\Program Files\\Factorio");
    assert_eq!(s.ui_language, "ja");
    assert_eq!(s.default_source_lang, "en");
    assert_eq!(s.default_target_lang, "ja");
    assert_eq!(s.window_width, 1200);
    assert_eq!(s.window_height, 800);
    assert!(s.api_keys.is_empty());
    assert_eq!(SettingsService::settings_file_name(), "settings.json");
    assert_eq!(SettingsService::new("/data").app_data_dir(), "/data");
}

#[test]
fn encryption_key_depends_on_identity() {
    let a = MachineIdentity {
        computer_name: None,
        user_domain: None,
        user_name: None,
    };
    let b = MachineIdentity {
        computer_name: Some("fixed_comp".to_string()),
        user_domain: Some("fixed_domain".to_string()),
        user_name: Some("fixed_user".to_string()),
    };
    let c = MachineIdentity {
        computer_name: Some("other".to_string()),
        user_domain: None,
        user_name: None,
    };
    let ka = SettingsService::get_encryption_key(&a);
    assert_eq!(ka.len(), 32);
    assert_eq!(ka, SettingsService::get_encryption_key(&b));
    assert_ne!(ka, SettingsService::get_encryption_key(&c));
}

#[test]
fn history_store_names_its_file() {
    let h = TranslationHistoryService::new("/data");
    assert_eq!(h.app_data_dir(), "/data");
    assert_eq!(TranslationHistoryService::database_file_name(), "history.db");
}

#[test]
fn test_load_from_zip_empty() {
    let mut writer = zip::ZipWriter::new(std::io::Cursor::new(Vec::new()));
    let bytes = writer.finish().unwrap().into_inner();
    let mut archive = zip::ZipArchive::new(std::io::Cursor::new(bytes)).unwrap();
    let mut names = Vec::new();
    for i in 0..archive.len() {
        names.push(archive.by_index(i).unwrap().name().to_string());
    }

    let result = ModLoader::plan_zip_load(&names);
    assert!(result.is_err());
}

#[test]
fn glossary_terms_are_matched_literally() {
    let mut service = GlossaryService::new("glossary.json".to_string());
    service.add_entry(iron_entry("a.b", "X"));
    service.add_entry(iron_entry("(c)", "Y"));
    assert_eq!(service.apply_glossary("axb a.b (c) c", "en", "ja"), "axb X Y c");
}

#[test]
fn vanilla_keys_do_not_run_together() {
    let mut service = VanillaTranslationService::new();
    service.load_vanilla_contents(&vec!["[a]\nb.c=X\n".as_bytes().to_vec()], &vec![]);
    assert_eq!(service.match_by_key("a", "b.c"), Some("X".to_string()));
    assert_eq!(service.match_by_key("a.b", "c"), None);
}

#[test]
fn vanilla_tables_take_the_last_loaded_entry() {
    let mut service = VanillaTranslationService::new();
    service.load_vanilla_contents(
        &vec![
            "[item-name]\niron-plate=鉄板\n".as_bytes().to_vec(),
            "[item-name]\niron-plate=鉄の板\ngear=歯車\n".as_bytes().to_vec(),
        ],
        &vec![
            "[item-name]\niron-plate=Iron plate\n".as_bytes().to_vec(),
            "[item-name]\ngear=Iron plate\nwood=Wood\n".as_bytes().to_vec(),
        ],
    );
    assert_eq!(service.match_by_key("item-name", "iron-plate"), Some("鉄の板".to_string()));
    assert_eq!(service.match_by_text("Iron plate"), Some("歯車".to_string()));
    assert_eq!(service.match_by_text("iron plate"), None);
    assert_eq!(service.match_by_text("Wood"), None);
}

#[test]
fn glossary_targets_are_inserted_literally() {
    let mut service = GlossaryService::new("glossary.json".to_string());
    service.add_entry(iron_entry("Gold", "$5 $$ ${x}"));
    assert_eq!(service.apply_glossary("Gold bar", "en", "ja"), "$5 $$ ${x} bar");
    assert_eq!(service.exact_term("Gold", "en", "ja"), Some("$5 $$ ${x}".to_string()));
    assert_eq!(service.exact_term("Gold bar", "en", "ja"), None);
    assert_eq!(service.exact_term("Gold", "en", "de"), None);
}

#[test]
fn mods_without_info_json_or_locale_folder_are_refused() {
    let sources: Vec<LocaleSource> = vec![];
    assert_eq!(
        ModLoader::assemble_mod_info("/m", ModSourceType::Folder, InfoFile::Missing, true, &sources).unwrap_err(),
        "info.json not found: /m"
    );
    assert_eq!(
        ModLoader::assemble_mod_info("/m", ModSourceType::Folder, InfoFile::Unreadable, false, &sources).unwrap_err(),
        "locale folder not found: /m"
    );
    let m = ModLoader::assemble_mod_info("/m", ModSourceType::Folder, InfoFile::Unreadable, true, &sources).unwrap();
    assert_eq!(m.name, "");
    let plan = ModLoader::plan_zip_load(&vec!["m/".to_string(), "m/info.json".to_string()]).unwrap();
    assert!(!plan.has_locale_folder);
}

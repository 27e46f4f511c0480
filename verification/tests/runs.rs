use factoriomodtranslator::commands::{
    api_key_name, missing_key_error, plan_folder_save, plan_zip_save, ZipSaveStep,
};
use factoriomodtranslator::models::cfg::{CfgEntry, CfgFile};
use factoriomodtranslator::models::enums::{
    ModSourceType, TranslationEngineType, TranslationMode, TranslationSource,
};
use factoriomodtranslator::models::glossary::GlossaryEntry;
use factoriomodtranslator::models::mod_info::ModInfo;
use factoriomodtranslator::models::translation::{TranslationItem, TranslationRecord};
use factoriomodtranslator::services::glossary_service::GlossaryService;
use factoriomodtranslator::services::mod_loader::{InfoFile, InfoJson, LocaleSource, ModLoader};
use factoriomodtranslator::services::orchestrator::{
    RunAction, RunEvent, TranslationOrchestrator, TranslationRun,
};
use factoriomodtranslator::services::translation_engines::{
    AttemptOutcome, DeepLTranslationEngine, GoogleTranslationEngine, RetryDecision, RetryState,
    TranslationEngine,
};
use factoriomodtranslator::services::vanilla_translation_service::VanillaTranslationService;

fn entry(section: &str, key: &str, value: &str) -> CfgEntry {
    CfgEntry {
        section: section.to_string(),
        key: key.to_string(),
        value: value.to_string(),
        comment: None,
    }
}

fn cfg(path: &str, lang: &str, entries: Vec<CfgEntry>) -> CfgFile {
    CfgFile {
        file_path: path.to_string(),
        language_code: lang.to_string(),
        entries,
        section_order: vec![],
        header_comments: vec![],
    }
}

fn mod_with(files: Vec<CfgFile>) -> ModInfo {
    ModInfo {
        name: "test-mod".to_string(),
        version: "1.0.0".to_string(),
        title: "Test Mod".to_string(),
        author: "Author".to_string(),
        source_path: String::new(),
        source_type: ModSourceType::Folder,
        factorio_version: None,
        locale_files: files,
    }
}

fn item(section: &str, key: &str, source: &str, translated: &str) -> TranslationItem {
    TranslationItem {
        section: section.to_string(),
        key: key.to_string(),
        source_text: source.to_string(),
        translated_text: translated.to_string(),
        vanilla_translation: None,
        source: TranslationSource::Manual,
        is_edited: true,
    }
}

/// Drives a run to its end, answering history lookups and engine calls with
/// the given functions.
fn drive(
    orchestrator: &TranslationOrchestrator,
    run: TranslationRun,
    history: &dyn Fn(&str, &str, &str, &str) -> Option<String>,
    engine: &dyn Fn(&str) -> Result<String, String>,
) -> (Result<Vec<TranslationItem>, String>, Vec<TranslationRecord>) {
    let mut run = run;
    let mut event = RunEvent::Proceed;
    let mut records = Vec::new();
    loop {
        assert!(run.accepts_event(&event));
        let (next, action) = orchestrator.step(run, event, "2026-01-01T00:00:00+00:00");
        run = next;
        event = match action {
            RunAction::LookupHistory { mod_name, section, key, target_lang } => {
                RunEvent::History(history(&mod_name, &section, &key, &target_lang))
            }
            RunAction::Translate { text, .. } => RunEvent::Translation(engine(&text)),
            RunAction::EntryDone { record, .. } => {
                if let Some(r) = record {
                    records.push(r);
                }
                RunEvent::Proceed
            }
            RunAction::Finished(items) => {
                assert!(run.is_finished());
                return (Ok(items), records);
            }
            RunAction::Failed(e) => {
                assert!(run.is_finished());
                return (Err(e), records);
            }
        };
    }
}

fn no_history(_: &str, _: &str, _: &str, _: &str) -> Option<String> {
    None
}

fn mock_engine(text: &str) -> Result<String, String> {
    Ok(format!("Mock: {}", text))
}

#[test]
fn test_orchestrator_should_prefer_vanilla_match() {
    let mut vanilla = VanillaTranslationService::new();
    vanilla.load_vanilla_contents(
        &vec!["[gui]\nconfirm=確定".as_bytes().to_vec()],
        &vec!["[gui]\nconfirm=Confirm".as_bytes().to_vec()],
    );
    let glossary = GlossaryService::new("glossary.json".to_string());
    let orchestrator = TranslationOrchestrator::new(&vanilla, &glossary, "Mock");
    let mod_info = mod_with(vec![cfg("locale/en/test.cfg", "en", vec![entry("gui", "confirm", "Confirm")])]);

    let run = orchestrator.plan(&mod_info, TranslationMode::NewTranslation, "en", "ja");
    let (results, _) = drive(&orchestrator, run, &no_history, &mock_engine);
    let results = results.unwrap();

    assert_eq!(results.len(), 1);
    assert_eq!(results[0].translated_text, "確定");
    assert_eq!(results[0].source, TranslationSource::VanillaKeyMatch);
}

#[test]
fn test_orchestrator_should_apply_glossary_before_api() {
    let vanilla = VanillaTranslationService::new();
    let mut glossary = GlossaryService::new("glossary.json".to_string());
    glossary.add_entry(GlossaryEntry {
        source_term: "Iron".to_string(),
        target_term: "鉄".to_string(),
        source_lang: "en".to_string(),
        target_lang: "ja".to_string(),
        exclude_from_translation: false,
    });
    let orchestrator = TranslationOrchestrator::new(&vanilla, &glossary, "Mock");
    let mod_info = mod_with(vec![cfg(
        "locale/en/test.cfg",
        "en",
        vec![entry("item-name", "iron-plate", "Iron Plate")],
    )]);

    let run = orchestrator.plan(&mod_info, TranslationMode::NewTranslation, "en", "ja");
    let (results, _) = drive(&orchestrator, run, &no_history, &mock_engine);
    let results = results.unwrap();

    assert_eq!(results.len(), 1);
    assert_eq!(results[0].translated_text, "Mock: 鉄 Plate");
    assert_eq!(results[0].source, TranslationSource::API);
}

#[test]
fn a_whole_glossary_term_is_taken_without_the_engine() {
    let vanilla = VanillaTranslationService::new();
    let mut glossary = GlossaryService::new("glossary.json".to_string());
    glossary.add_entry(GlossaryEntry {
        source_term: "Iron Plate".to_string(),
        target_term: "鉄板".to_string(),
        source_lang: "en".to_string(),
        target_lang: "ja".to_string(),
        exclude_from_translation: false,
    });
    let orchestrator = TranslationOrchestrator::new(&vanilla, &glossary, "Mock");
    let mod_info = mod_with(vec![cfg(
        "locale/en/test.cfg",
        "en",
        vec![entry("item-name", "iron-plate", "Iron Plate"), entry("item-name", "gear", "Iron Plate Gear")],
    )]);
    let run = orchestrator.plan(&mod_info, TranslationMode::NewTranslation, "en", "ja");
    let (results, records) = drive(&orchestrator, run, &no_history, &mock_engine);
    let results = results.unwrap();
    assert_eq!(results[0].translated_text, "鉄板");
    assert_eq!(results[0].source, TranslationSource::Glossary);
    assert_eq!(results[1].translated_text, "Mock: 鉄板 Gear");
    assert_eq!(results[1].source, TranslationSource::API);
    assert_eq!(records.len(), 2);
}

#[test]
fn manual_edit_runs_never_call_the_engine() {
    let mut vanilla = VanillaTranslationService::new();
    vanilla.load_vanilla_contents(
        &vec!["[gui]\nconfirm=確定".as_bytes().to_vec()],
        &vec!["[gui]\nconfirm=Confirm".as_bytes().to_vec()],
    );
    let glossary = GlossaryService::new("glossary.json".to_string());
    let orchestrator = TranslationOrchestrator::new(&vanilla, &glossary, "Mock");
    let engine = |_: &str| -> Result<String, String> { panic!("the engine must not be asked") };
    let mod_info = mod_with(vec![cfg(
        "locale/en/test.cfg",
        "en",
        vec![entry("gui", "confirm", "Confirm"), entry("item-name", "gear", "Gear")],
    )]);
    let run = orchestrator.plan(&mod_info, TranslationMode::ManualEdit, "en", "ja");
    let (results, _) = drive(&orchestrator, run, &no_history, &engine);
    let results = results.unwrap();
    assert_eq!(results[0].translated_text, "確定");
    assert_eq!(results[0].source, TranslationSource::VanillaKeyMatch);
    assert_eq!(results[1].translated_text, "");
    assert_eq!(results[1].source, TranslationSource::API);
    assert!(results.iter().all(|i| !i.is_edited && i.source != TranslationSource::Manual));
}

#[test]
fn test_orchestrator_diff_translation_skips_existing() {
    let vanilla = VanillaTranslationService::new();
    let glossary = GlossaryService::new("glossary.json".to_string());
    let orchestrator = TranslationOrchestrator::new(&vanilla, &glossary, "Mock");
    let mod_info = mod_with(vec![cfg(
        "locale/ja/test.cfg",
        "ja",
        vec![entry("item-name", "iron-plate", "鉄の板")],
    )]);

    let run = orchestrator.plan(&mod_info, TranslationMode::DiffTranslation, "en", "ja");
    let (results, _) = drive(&orchestrator, run, &no_history, &mock_engine);

    assert_eq!(results.unwrap().len(), 0);
}

#[test]
fn test_orchestrator_history_match() {
    let vanilla = VanillaTranslationService::new();
    let glossary = GlossaryService::new("glossary.json".to_string());
    let orchestrator = TranslationOrchestrator::new(&vanilla, &glossary, "Mock");
    let history = |mod_name: &str, section: &str, key: &str, target: &str| {
        if mod_name == "test-mod" && section == "item-name" && key == "copper-plate" && target == "ja" {
            Some("銅板(History)".to_string())
        } else {
            None
        }
    };
    let mod_info = mod_with(vec![cfg(
        "locale/en/test.cfg",
        "en",
        vec![entry("item-name", "copper-plate", "Copper Plate")],
    )]);

    let run = orchestrator.plan(&mod_info, TranslationMode::NewTranslation, "en", "ja");
    let (results, _) = drive(&orchestrator, run, &history, &mock_engine);
    let results = results.unwrap();

    assert_eq!(results.len(), 1);
    assert_eq!(results[0].translated_text, "銅板(History)");
    assert_eq!(results[0].source, TranslationSource::History);
}

#[test]
fn test_orchestrator_api_error_handling() {
    let vanilla = VanillaTranslationService::new();
    let glossary = GlossaryService::new("glossary.json".to_string());
    let orchestrator = TranslationOrchestrator::new(&vanilla, &glossary, "ErrorMock");
    let failing = |_: &str| -> Result<String, String> { Err("API Limit Exceeded".to_string()) };
    let mod_info = mod_with(vec![cfg(
        "locale/en/test.cfg",
        "en",
        vec![entry("item-name", "copper-plate", "Copper Plate")],
    )]);

    let run = orchestrator.plan(&mod_info, TranslationMode::NewTranslation, "en", "ja");
    let (result, _) = drive(&orchestrator, run, &no_history, &failing);

    assert!(result.is_err());
    assert!(result.unwrap_err().contains("API Limit Exceeded"));
}

#[test]
fn run_error_message_is_prefixed() {
    let vanilla = VanillaTranslationService::new();
    let glossary = GlossaryService::new("glossary.json".to_string());
    let orchestrator = TranslationOrchestrator::new(&vanilla, &glossary, "ErrorMock");
    let failing = |_: &str| -> Result<String, String> { Err("boom".to_string()) };
    let mod_info = mod_with(vec![cfg("locale/en/test.cfg", "en", vec![entry("s", "k", "Text")])]);
    let run = orchestrator.plan(&mod_info, TranslationMode::NewTranslation, "en", "ja");
    let (result, records) = drive(&orchestrator, run, &no_history, &failing);
    assert_eq!(result.unwrap_err(), "Translation failed: boom");
    assert!(records.is_empty());
}

#[test]
fn diff_mode_keeps_existing_target_values_and_saves_records_for_the_rest() {
    let vanilla = VanillaTranslationService::new();
    let glossary = GlossaryService::new("glossary.json".to_string());
    let orchestrator = TranslationOrchestrator::new(&vanilla, &glossary, "Mock");
    let mod_info = mod_with(vec![
        cfg("mod/locale/en/strings.cfg", "en", vec![entry("s", "a", "Alpha"), entry("s", "b", "Beta"), entry("s", "c", "Gamma")]),
        cfg("mod/locale/ja/strings.cfg", "ja", vec![entry("s", "a", "アルファ"), entry("s", "b", "")]),
    ]);
    let run = orchestrator.plan(&mod_info, TranslationMode::DiffTranslation, "en", "ja");
    assert_eq!(run.total(), 3);
    let (results, records) = drive(&orchestrator, run, &no_history, &mock_engine);
    let results = results.unwrap();
    assert_eq!(results.len(), 3);
    assert_eq!(results[0].translated_text, "アルファ");
    assert_eq!(results[0].source, TranslationSource::History);
    assert_eq!(results[1].translated_text, "Mock: Beta");
    assert_eq!(results[2].translated_text, "Mock: Gamma");
    assert_eq!(records.len(), 2);
    assert_eq!(records[0].key, "b");
    assert_eq!(records[0].engine, "Mock");
    assert_eq!(records[0].mod_version, Some("1.0.0".to_string()));
    assert_eq!(records[0].translated_at, "2026-01-01T00:00:00+00:00");
}

#[test]
fn overwrite_mode_asks_the_engine_even_after_a_vanilla_match() {
    let mut vanilla = VanillaTranslationService::new();
    vanilla.load_vanilla_contents(
        &vec!["[gui]\nconfirm=確定".as_bytes().to_vec()],
        &vec!["[gui]\nconfirm=Confirm".as_bytes().to_vec()],
    );
    let glossary = GlossaryService::new("glossary.json".to_string());
    let orchestrator = TranslationOrchestrator::new(&vanilla, &glossary, "Mock");
    let mod_info = mod_with(vec![cfg("locale/en/test.cfg", "en", vec![
        entry("gui", "confirm", "Confirm"),
        entry("other", "ok", "Confirm"),
    ])]);
    let run = orchestrator.plan(&mod_info, TranslationMode::OverwriteUpdate, "en", "ja");
    let (results, _) = drive(&orchestrator, run, &no_history, &mock_engine);
    let results = results.unwrap();
    assert_eq!(results[0].translated_text, "Mock: Confirm");
    assert_eq!(results[0].source, TranslationSource::API);
    assert_eq!(results[0].vanilla_translation, Some("確定".to_string()));

    let run = orchestrator.plan(&mod_info, TranslationMode::NewTranslation, "en", "ja");
    let (results, _) = drive(&orchestrator, run, &no_history, &mock_engine);
    let results = results.unwrap();
    assert_eq!(results[1].translated_text, "確定");
    assert_eq!(results[1].source, TranslationSource::VanillaTextMatch);
}

#[test]
fn overwrite_runs_ask_the_engine_once_per_entry_in_order() {
    let mut vanilla = VanillaTranslationService::new();
    vanilla.load_vanilla_contents(
        &vec!["[gui]\nconfirm=確定".as_bytes().to_vec()],
        &vec!["[gui]\nconfirm=Confirm".as_bytes().to_vec()],
    );
    let mut glossary = GlossaryService::new("glossary.json".to_string());
    glossary.add_entry(GlossaryEntry {
        source_term: "Iron".to_string(),
        target_term: "鉄".to_string(),
        source_lang: "en".to_string(),
        target_lang: "ja".to_string(),
        exclude_from_translation: false,
    });
    let orchestrator = TranslationOrchestrator::new(&vanilla, &glossary, "Mock");
    let asked = std::cell::RefCell::new(Vec::new());
    let engine = |text: &str| -> Result<String, String> {
        asked.borrow_mut().push(text.to_string());
        Ok(format!("#{}", asked.borrow().len()))
    };
    let history = |_: &str, _: &str, _: &str, _: &str| Some("old".to_string());
    let mod_info = mod_with(vec![cfg("locale/en/test.cfg", "en", vec![
        entry("gui", "confirm", "Confirm"),
        entry("item-name", "iron", "Iron"),
        entry("item-name", "gear", "Gear"),
    ])]);
    let run = orchestrator.plan(&mod_info, TranslationMode::OverwriteUpdate, "en", "ja");
    let (results, _) = drive(&orchestrator, run, &history, &engine);
    let results = results.unwrap();
    assert_eq!(*asked.borrow(), vec!["Confirm".to_string(), "鉄".to_string(), "Gear".to_string()]);
    let texts: Vec<&str> = results.iter().map(|i| i.translated_text.as_str()).collect();
    assert_eq!(texts, vec!["#1", "#2", "#3"]);
    assert!(results.iter().all(|i| i.source == TranslationSource::API));
}

#[test]
fn test_save_translation_writes_files_correctly() {
    let mut mod_info = mod_with(vec![cfg(
        "locale/en/strings.cfg",
        "en",
        vec![entry("item-name", "iron-plate", "Iron Plate")],
    )]);
    mod_info.locale_files[0].section_order = vec!["item-name".to_string()];
    let translations = vec![item("item-name", "iron-plate", "Iron Plate", "鉄板")];

    let planned = plan_folder_save(&mod_info, &translations, "ja").unwrap();
    assert_eq!(planned.len(), 1);
    assert!(planned[0].content.contains("[item-name]"));
    assert!(planned[0].content.contains("iron-plate=鉄板"));
}

#[test]
fn test_save_to_folder_creates_locale_structure() {
    let mut mod_info = mod_with(vec![cfg(
        "locale/en/strings.cfg",
        "en",
        vec![entry("item-name", "iron-plate", "Iron Plate")],
    )]);
    mod_info.source_type = ModSourceType::Zip;
    mod_info.locale_files[0].section_order = vec!["item-name".to_string()];
    let translations = vec![item("item-name", "iron-plate", "Iron Plate", "鉄板")];

    let planned = plan_folder_save(&mod_info, &translations, "ja").unwrap();
    assert_eq!(planned[0].index, 0);
    assert_eq!(planned[0].file_path, "locale/en/strings.cfg");
    assert_eq!(planned[0].content, "[item-name]\niron-plate=鉄板\n");
}

#[test]
fn test_save_to_folder_no_matching_translations() {
    let mut mod_info = mod_with(vec![cfg(
        "locale/en/strings.cfg",
        "en",
        vec![entry("item-name", "iron-plate", "Iron Plate")],
    )]);
    mod_info.locale_files[0].section_order = vec!["item-name".to_string()];
    let translations = vec![item("other-section", "other-key", "Other", "他")];

    let result = plan_folder_save(&mod_info, &translations, "ja");
    assert!(result.is_err());
    assert!(result.unwrap_err().contains("No translations were found"));
}

#[test]
fn folder_save_of_mod_without_locale_files_writes_nothing() {
    let mod_info = mod_with(vec![]);
    assert_eq!(plan_folder_save(&mod_info, &vec![], "ja").unwrap().len(), 0);
}

#[test]
fn test_save_to_zip_creates_translated_zip() {
    let names = vec![
        "test-mod_1.0.0/info.json".to_string(),
        "test-mod_1.0.0/locale/en/strings.cfg".to_string(),
    ];
    let plan = ModLoader::plan_zip_load(&names).unwrap();
    let sources: Vec<LocaleSource> = plan
        .locale_entries
        .iter()
        .map(|e| LocaleSource {
            file_path: e.entry_name.clone(),
            lang_code: e.lang_code.clone(),
            content: b"[item-name]\niron-plate=Iron Plate\n".to_vec(),
        })
        .collect();
    let info = InfoFile::Read(InfoJson {
        name: Some("test-mod".to_string()),
        version: Some("1.0.0".to_string()),
        title: None,
        author: None,
        factorio_version: None,
    });
    let mod_info = ModLoader::assemble_mod_info(
        "test-mod_1.0.0.zip",
        ModSourceType::Zip,
        info,
        plan.has_locale_folder,
        &sources,
    )
    .unwrap();
    let translations = vec![TranslationItem {
        section: "item-name".to_string(),
        key: "iron-plate".to_string(),
        source_text: "Iron Plate".to_string(),
        translated_text: "鉄板".to_string(),
        vanilla_translation: None,
        source: TranslationSource::API,
        is_edited: false,
    }];

    let steps = plan_zip_save(&mod_info, &translations, "ja", &names);
    assert_eq!(steps.len(), 3);
    assert!(matches!(&steps[0], ZipSaveStep::Copy { index: 0, name } if name == "test-mod_1.0.0/info.json"));
    assert!(matches!(&steps[1], ZipSaveStep::Copy { index: 1, name } if name == "test-mod_1.0.0/locale/en/strings.cfg"));
    match &steps[2] {
        ZipSaveStep::Translated { name, content } => {
            assert_eq!(name, "test-mod_1.0.0/locale/ja/strings.cfg");
            assert!(content.contains("iron-plate=鉄板"));
        }
        ZipSaveStep::Copy { .. } => panic!("the source locale file must be translated"),
    }
}

#[test]
fn zip_save_uses_the_last_item_per_key() {
    let mut file = cfg("m/locale/de/a.cfg", "de", vec![entry("s", "k", "Wert")]);
    file.section_order = vec!["s".to_string()];
    let mod_info = mod_with(vec![file]);
    let translations = vec![item("s", "k", "Wert", "first"), item("s", "k", "Wert", "last")];
    let names = vec!["m/".to_string(), "m/locale/de/a.cfg".to_string(), "m/locale/de/b.cfg".to_string()];
    let steps = plan_zip_save(&mod_info, &translations, "fr", &names);
    assert_eq!(steps.len(), 4);
    assert!(matches!(&steps[0], ZipSaveStep::Copy { index: 0, .. }));
    assert!(matches!(&steps[1], ZipSaveStep::Copy { index: 1, name } if name == "m/locale/de/a.cfg"));
    match &steps[2] {
        ZipSaveStep::Translated { name, content } => {
            assert_eq!(name, "m/locale/fr/a.cfg");
            assert_eq!(content, "[s]\nk=last\n");
        }
        ZipSaveStep::Copy { .. } => panic!("expected a translated file"),
    }
    assert!(matches!(&steps[3], ZipSaveStep::Copy { index: 2, .. }));
}

#[test]
fn zip_save_replaces_an_existing_target_file() {
    let mut file = cfg("m/locale/de/a.cfg", "de", vec![entry("s", "k", "Wert")]);
    file.section_order = vec!["s".to_string()];
    let mod_info = mod_with(vec![file]);
    let translations = vec![item("s", "k", "Wert", "valeur")];
    let names = vec!["m/".to_string(), "m/locale/fr/a.cfg".to_string(), "m/locale/de/a.cfg".to_string()];
    let steps = plan_zip_save(&mod_info, &translations, "fr", &names);
    assert_eq!(steps.len(), 3);
    assert!(matches!(&steps[0], ZipSaveStep::Copy { index: 0, .. }));
    assert!(matches!(&steps[1], ZipSaveStep::Copy { index: 2, .. }));
    match &steps[2] {
        ZipSaveStep::Translated { name, content } => {
            assert_eq!(name, "m/locale/fr/a.cfg");
            assert_eq!(content, "[s]\nk=valeur\n");
        }
        ZipSaveStep::Copy { .. } => panic!("expected a translated file"),
    }
}

#[test]
fn engine_key_names() {
    assert_eq!(api_key_name(TranslationEngineType::DeepL), "DeepL");
    assert_eq!(api_key_name(TranslationEngineType::GoogleTranslate), "Google");
    assert_eq!(missing_key_error(TranslationEngineType::DeepL), "DeepL API key not found");
    assert_eq!(missing_key_error(TranslationEngineType::GoogleTranslate), "Google API key not found");
}

#[test]
fn test_deepl_endpoint_selection() {
    let free_engine = DeepLTranslationEngine::new("test-key:fx".to_string()).unwrap();
    let free_key = free_engine.api_key().trim();
    assert!(free_key.ends_with(":fx"));

    let pro_engine = DeepLTranslationEngine::new("test-key-pro".to_string()).unwrap();
    let pro_key = pro_engine.api_key().trim();
    assert!(!pro_key.ends_with(":fx"));

    let ws_engine = DeepLTranslationEngine::new("  test-key:fx  \n".to_string()).unwrap();
    let ws_key = ws_engine.api_key().trim();
    assert!(ws_key.ends_with(":fx"));
    assert_eq!(ws_key, "test-key:fx");
}

#[test]
fn deepl_endpoints_and_request() {
    let free_engine = DeepLTranslationEngine::new("  test-key:fx  \n".to_string()).unwrap();
    assert_eq!(free_engine.endpoint(), "https://api-free.deepl.com/v2/translate");
    let pro_engine = DeepLTranslationEngine::new("test-key-pro".to_string()).unwrap();
    assert_eq!(pro_engine.endpoint(), "https://api.deepl.com/v2/translate");
    let req = free_engine.request("__Iron__ & x", "en", "pt-br");
    assert_eq!(req.url, "https://api-free.deepl.com/v2/translate");
    assert_eq!(req.authorization, Some("DeepL-Auth-Key test-key:fx".to_string()));
    assert!(!req.params_in_query);
    assert_eq!(req.params[0], ("text".to_string(), "<keep>__Iron__</keep> &amp; x".to_string()));
    assert_eq!(req.params[1], ("source_lang".to_string(), "EN".to_string()));
    assert_eq!(req.params[2], ("target_lang".to_string(), "PT-BR".to_string()));
    assert_eq!(req.params[3], ("tag_handling".to_string(), "xml".to_string()));
    assert_eq!(req.params[4], ("ignore_tags".to_string(), "keep".to_string()));
    assert_eq!(free_engine.name(), "DeepL");
}

#[test]
fn deepl_language_codes() {
    assert_eq!(DeepLTranslationEngine::map_lang("en", true), "EN-US");
    assert_eq!(DeepLTranslationEngine::map_lang("en", false), "EN");
    assert_eq!(DeepLTranslationEngine::map_lang("zh-CN", true), "ZH");
    assert_eq!(DeepLTranslationEngine::map_lang("pt-PT", false), "PT");
    assert_eq!(DeepLTranslationEngine::map_lang("pt-PT", true), "PT-PT");
    assert_eq!(DeepLTranslationEngine::map_lang("es-MX", true), "ES");
    assert_eq!(DeepLTranslationEngine::map_lang("ja", true), "JA");
}

#[test]
fn deepl_retries_network_errors_three_times_with_doubling_waits() {
    let mut state = RetryState::initial();
    let net = AttemptOutcome::Network("timed out".to_string());
    let mut waits = Vec::new();
    loop {
        match DeepLTranslationEngine::decide(&state, &net) {
            RetryDecision::Retry { delay_ms, next } => {
                waits.push(delay_ms);
                state = next;
            }
            RetryDecision::Fail(e) => {
                assert_eq!(e, "timed out");
                break;
            }
            RetryDecision::ReadBody => panic!("a failed request has no body"),
        }
    }
    assert_eq!(waits, vec![1000, 2000, 4000]);
    assert_eq!(state.retry_count(), 3);
    let first = RetryState::initial();
    let busy = AttemptOutcome::Status { code: 429, text: "429 Too Many Requests".to_string() };
    assert!(matches!(DeepLTranslationEngine::decide(&first, &busy), RetryDecision::Fail(e) if e == "DeepL API error: 429 Too Many Requests"));
    let bad = AttemptOutcome::Status { code: 403, text: "403 Forbidden".to_string() };
    assert!(matches!(DeepLTranslationEngine::decide(&first, &bad), RetryDecision::Fail(e) if e == "DeepL API error: 403 Forbidden"));
    assert!(matches!(DeepLTranslationEngine::decide(&first, &AttemptOutcome::Success), RetryDecision::ReadBody));
}

#[test]
fn deepl_retries_server_errors_five_times_with_doubling_waits() {
    let mut state = RetryState::initial();
    let server = AttemptOutcome::Status { code: 503, text: "503 Service Unavailable".to_string() };
    let mut waits = Vec::new();
    loop {
        match DeepLTranslationEngine::decide(&state, &server) {
            RetryDecision::Retry { delay_ms, next } => {
                waits.push(delay_ms);
                state = next;
            }
            RetryDecision::Fail(e) => {
                assert_eq!(e, "DeepL API error: 503 Service Unavailable");
                break;
            }
            RetryDecision::ReadBody => panic!("a failed request has no body"),
        }
    }
    assert_eq!(waits, vec![1000, 2000, 4000, 8000, 16000]);
    assert_eq!(state.retry_count(), 5);
    let net = AttemptOutcome::Network("timed out".to_string());
    assert!(matches!(DeepLTranslationEngine::decide(&state, &net), RetryDecision::Fail(e) if e == "timed out"));
}

#[test]
fn engine_answers() {
    assert_eq!(
        DeepLTranslationEngine::finish(&vec!["<keep>__a__</keep> &amp; b".to_string(), "x".to_string()]),
        Ok("__a__ & b".to_string())
    );
    assert_eq!(DeepLTranslationEngine::finish(&vec![]), Err("No translations returned".to_string()));
    assert_eq!(GoogleTranslationEngine::finish(&vec!["a &amp; b".to_string()]), Ok("a &amp; b".to_string()));
    assert_eq!(GoogleTranslationEngine::finish(&vec![]), Err("No translations returned".to_string()));
    assert_eq!(GoogleTranslationEngine::status_error("500 Internal Server Error"), "Google API error: 500 Internal Server Error");
}

#[test]
fn google_request() {
    let engine = GoogleTranslationEngine::new("gkey".to_string()).unwrap();
    let req = engine.request("Iron Plate", "EN", "JA");
    assert_eq!(req.url, "https://translation.googleapis.com/language/translate/v2");
    assert!(req.params_in_query);
    assert_eq!(req.authorization, None);
    assert_eq!(req.params[0], ("key".to_string(), "gkey".to_string()));
    assert_eq!(req.params[1], ("q".to_string(), "Iron Plate".to_string()));
    assert_eq!(req.params[2], ("source".to_string(), "en".to_string()));
    assert_eq!(req.params[3], ("target".to_string(), "ja".to_string()));
    assert_eq!(req.params[4], ("format".to_string(), "text".to_string()));
    assert_eq!(engine.name(), "Google Translate");
}

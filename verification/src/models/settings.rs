use vstd::prelude::*;
use crate::models::enums::TranslationEngineType;
use crate::string_map::StringMap;

verus! {

/// The user's settings; `api_keys` maps an engine name to its stored key.
#[derive(Debug)]
pub struct AppSettings {
    pub selected_engine: TranslationEngineType,
    pub factorio_install_path: String,
    pub ui_language: String,
    pub last_mod_path: String,
    pub default_source_lang: String,
    pub default_target_lang: String,
    pub window_width: u32,
    pub window_height: u32,
    pub api_keys: StringMap,
}

impl Default for AppSettings {
    /// DeepL, empty texts, zero sizes and no keys.
    fn default() -> (r: Self)
        ensures
            r.selected_engine == TranslationEngineType::DeepL,
            r.factorio_install_path@.len() == 0,
            r.ui_language@.len() == 0,
            r.last_mod_path@.len() == 0,
            r.default_source_lang@.len() == 0,
            r.default_target_lang@.len() == 0,
            r.window_width == 0,
            r.window_height == 0,
            r.api_keys@ == Map::<Seq<char>, Seq<char>>::empty(),
    {
        AppSettings {
            selected_engine: TranslationEngineType::DeepL,
            factorio_install_path: String::new(),
            ui_language: String::new(),
            last_mod_path: String::new(),
            default_source_lang: String::new(),
            default_target_lang: String::new(),
            window_width: 0,
            window_height: 0,
            api_keys: StringMap::new(),
        }
    }
}

impl AppSettings {
    /// A copy of these settings.
    pub fn copied(&self) -> (r: Self)
        ensures
            r.selected_engine == self.selected_engine,
            r.factorio_install_path@ == self.factorio_install_path@,
            r.ui_language@ == self.ui_language@,
            r.last_mod_path@ == self.last_mod_path@,
            r.default_source_lang@ == self.default_source_lang@,
            r.default_target_lang@ == self.default_target_lang@,
            r.window_width == self.window_width,
            r.window_height == self.window_height,
            r.api_keys@ == self.api_keys@,
    {
        AppSettings {
            selected_engine: self.selected_engine,
            factorio_install_path: self.factorio_install_path.clone(),
            ui_language: self.ui_language.clone(),
            last_mod_path: self.last_mod_path.clone(),
            default_source_lang: self.default_source_lang.clone(),
            default_target_lang: self.default_target_lang.clone(),
            window_width: self.window_width,
            window_height: self.window_height,
            api_keys: self.api_keys.copied(),
        }
    }
}

} // verus!

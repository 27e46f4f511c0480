//! The texts of the user interface in Japanese and English.
use vstd::prelude::*;
use crate::string_map::StringMap;
use crate::text::{has_prefix, starts_with_text};

verus! {

/// The Japanese texts, by key.
pub open spec fn japanese_texts() -> Map<Seq<char>, Seq<char>> {
    Map::<Seq<char>, Seq<char>>::empty()
        .insert("AppTitle"@, "Factorio Mod 自動翻訳ツール"@)
        .insert("SelectMod"@, "Modを選択"@)
        .insert("Translate"@, "翻訳"@)
        .insert("Glossary"@, "用語集"@)
        .insert("History"@, "履歴"@)
        .insert("Settings"@, "設定"@)
        .insert("PromptEnterModPath"@, "ModフォルダまたはZIPのパスを入力してください:"@)
        .insert("TitleModSelection"@, "Modプロジェクトを選択"@)
        .insert("LabelDropMod"@, "ここにModをドロップするか、参照ボタンで選択してください"@)
        .insert("BtnBrowse"@, "ファイルを参照..."@)
        .insert("BtnTranslate"@, "すべて翻訳実行"@)
        .insert("BtnSaveMod"@, "翻訳済みModとして保存"@)
        .insert("LabelEngine"@, "翻訳エンジン"@)
        .insert("LabelApiKey"@, "APIキー (安全に保存されます)"@)
        .insert("BtnSaveKey"@, "設定を適用"@)
}

/// The English texts, by key.
pub open spec fn english_texts() -> Map<Seq<char>, Seq<char>> {
    Map::<Seq<char>, Seq<char>>::empty()
        .insert("AppTitle"@, "Factorio Mod Auto-Translator"@)
        .insert("SelectMod"@, "Select Mod"@)
        .insert("Translate"@, "Translate"@)
        .insert("Glossary"@, "Glossary"@)
        .insert("History"@, "History"@)
        .insert("Settings"@, "Settings"@)
        .insert("PromptEnterModPath"@, "Enter Mod Folder or Zip path:"@)
        .insert("TitleModSelection"@, "Select Mod Project"@)
        .insert("LabelDropMod"@, "Drag & Drop Mod Folder or ZIP here"@)
        .insert("BtnBrowse"@, "Browse Files..."@)
        .insert("BtnTranslate"@, "Translate All"@)
        .insert("BtnSaveMod"@, "Save Translated Mod"@)
        .insert("LabelEngine"@, "Translation Engine"@)
        .insert("LabelApiKey"@, "API Key (Securely stored)"@)
        .insert("BtnSaveKey"@, "Apply Changes"@)
}

/// A language code that selects the Japanese texts.
pub open spec fn is_japanese(lang: Seq<char>) -> bool {
    has_prefix(lang, seq!['j', 'a'])
}

/// The texts for a language code: Japanese for codes starting with `ja`,
/// English for all others.
pub open spec fn texts_for(lang: Seq<char>) -> Map<Seq<char>, Seq<char>> {
    if is_japanese(lang) {
        japanese_texts()
    } else {
        english_texts()
    }
}

/// The texts of the user interface.
pub struct LocalizationService {
    ja: StringMap,
    en: StringMap,
}

impl LocalizationService {
    /// The texts kept for a language code.
    pub closed spec fn table(&self, lang: Seq<char>) -> Map<Seq<char>, Seq<char>> {
        if is_japanese(lang) {
            self.ja@
        } else {
            self.en@
        }
    }

    /// The service with the built-in Japanese and English texts.
    pub fn new() -> (r: Self)
        ensures
            forall|lang: Seq<char>| #[trigger] r.table(lang) == texts_for(lang),
    {
        let mut ja = StringMap::new();
        ja.insert("AppTitle".to_owned(), "Factorio Mod 自動翻訳ツール".to_owned());
        ja.insert("SelectMod".to_owned(), "Modを選択".to_owned());
        ja.insert("Translate".to_owned(), "翻訳".to_owned());
        ja.insert("Glossary".to_owned(), "用語集".to_owned());
        ja.insert("History".to_owned(), "履歴".to_owned());
        ja.insert("Settings".to_owned(), "設定".to_owned());
        ja.insert("PromptEnterModPath".to_owned(), "ModフォルダまたはZIPのパスを入力してください:".to_owned());
        ja.insert("TitleModSelection".to_owned(), "Modプロジェクトを選択".to_owned());
        ja.insert("LabelDropMod".to_owned(), "ここにModをドロップするか、参照ボタンで選択してください".to_owned());
        ja.insert("BtnBrowse".to_owned(), "ファイルを参照...".to_owned());
        ja.insert("BtnTranslate".to_owned(), "すべて翻訳実行".to_owned());
        ja.insert("BtnSaveMod".to_owned(), "翻訳済みModとして保存".to_owned());
        ja.insert("LabelEngine".to_owned(), "翻訳エンジン".to_owned());
        ja.insert("LabelApiKey".to_owned(), "APIキー (安全に保存されます)".to_owned());
        ja.insert("BtnSaveKey".to_owned(), "設定を適用".to_owned());
        let mut en = StringMap::new();
        en.insert("AppTitle".to_owned(), "Factorio Mod Auto-Translator".to_owned());
        en.insert("SelectMod".to_owned(), "Select Mod".to_owned());
        en.insert("Translate".to_owned(), "Translate".to_owned());
        en.insert("Glossary".to_owned(), "Glossary".to_owned());
        en.insert("History".to_owned(), "History".to_owned());
        en.insert("Settings".to_owned(), "Settings".to_owned());
        en.insert("PromptEnterModPath".to_owned(), "Enter Mod Folder or Zip path:".to_owned());
        en.insert("TitleModSelection".to_owned(), "Select Mod Project".to_owned());
        en.insert("LabelDropMod".to_owned(), "Drag & Drop Mod Folder or ZIP here".to_owned());
        en.insert("BtnBrowse".to_owned(), "Browse Files...".to_owned());
        en.insert("BtnTranslate".to_owned(), "Translate All".to_owned());
        en.insert("BtnSaveMod".to_owned(), "Save Translated Mod".to_owned());
        en.insert("LabelEngine".to_owned(), "Translation Engine".to_owned());
        en.insert("LabelApiKey".to_owned(), "API Key (Securely stored)".to_owned());
        en.insert("BtnSaveKey".to_owned(), "Apply Changes".to_owned());
        LocalizationService { ja, en }
    }

    /// The text under `key` for the language, or the key itself when there
    /// is none.
    pub fn get_string(&self, key: &str, lang: &str) -> (r: String)
        ensures
            r@ == if self.table(lang@).contains_key(key@) {
                self.table(lang@)[key@]
            } else {
                key@
            },
    {
        let table = if starts_with_text(lang, "ja") {
            &self.ja
        } else {
            &self.en
        };
        proof {
            reveal_strlit("ja");
            assert("ja"@ =~= seq!['j', 'a']);
        }
        match table.get(key) {
            Some(v) => v.clone(),
            None => key.to_owned(),
        }
    }

    /// All texts for the language.
    pub fn get_all_translations(&self, lang: &str) -> (r: StringMap)
        ensures
            r@ == self.table(lang@),
    {
        proof {
            reveal_strlit("ja");
            assert("ja"@ =~= seq!['j', 'a']);
        }
        if starts_with_text(lang, "ja") {
            self.ja.copied()
        } else {
            self.en.copied()
        }
    }
}

} // verus!

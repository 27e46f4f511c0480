use vstd::prelude::*;
use crate::models::enums::TranslationSource;

verus! {

/// A translation kept in the history store; `translated_at` is an RFC 3339
/// timestamp.
#[derive(Debug, Clone)]
pub struct TranslationRecord {
    pub id: Option<i64>,
    pub mod_name: String,
    pub mod_version: Option<String>,
    pub section: String,
    pub key: String,
    pub source_lang: String,
    pub target_lang: String,
    pub source_text: String,
    pub translated_text: String,
    pub engine: String,
    pub translated_at: String,
}

/// The characters of a [`TranslationRecord`].
pub struct TranslationRecordView {
    pub id: Option<i64>,
    pub mod_name: Seq<char>,
    pub mod_version: Option<Seq<char>>,
    pub section: Seq<char>,
    pub key: Seq<char>,
    pub source_lang: Seq<char>,
    pub target_lang: Seq<char>,
    pub source_text: Seq<char>,
    pub translated_text: Seq<char>,
    pub engine: Seq<char>,
    pub translated_at: Seq<char>,
}

impl View for TranslationRecord {
    type V = TranslationRecordView;

    open spec fn view(&self) -> TranslationRecordView {
        TranslationRecordView {
            id: self.id,
            mod_name: self.mod_name@,
            mod_version: match self.mod_version {
                Some(v) => Some(v@),
                None => None,
            },
            section: self.section@,
            key: self.key@,
            source_lang: self.source_lang@,
            target_lang: self.target_lang@,
            source_text: self.source_text@,
            translated_text: self.translated_text@,
            engine: self.engine@,
            translated_at: self.translated_at@,
        }
    }
}

/// One translated entry of a run.
#[derive(Debug, Clone)]
pub struct TranslationItem {
    pub section: String,
    pub key: String,
    pub source_text: String,
    pub translated_text: String,
    pub vanilla_translation: Option<String>,
    pub source: TranslationSource,
    pub is_edited: bool,
}

/// The characters of a [`TranslationItem`].
pub struct TranslationItemView {
    pub section: Seq<char>,
    pub key: Seq<char>,
    pub source_text: Seq<char>,
    pub translated_text: Seq<char>,
    pub vanilla_translation: Option<Seq<char>>,
    pub source: TranslationSource,
    pub is_edited: bool,
}

impl View for TranslationItem {
    type V = TranslationItemView;

    open spec fn view(&self) -> TranslationItemView {
        TranslationItemView {
            section: self.section@,
            key: self.key@,
            source_text: self.source_text@,
            translated_text: self.translated_text@,
            vanilla_translation: match self.vanilla_translation {
                Some(v) => Some(v@),
                None => None,
            },
            source: self.source,
            is_edited: self.is_edited,
        }
    }
}

} // verus!

use vstd::prelude::*;

verus! {

/// A term of the glossary and what it becomes in the target language.
#[derive(Debug, Clone)]
pub struct GlossaryEntry {
    pub source_term: String,
    pub target_term: String,
    pub source_lang: String,
    pub target_lang: String,
    pub exclude_from_translation: bool,
}

/// The characters of a [`GlossaryEntry`].
pub struct GlossaryEntryView {
    pub source_term: Seq<char>,
    pub target_term: Seq<char>,
    pub source_lang: Seq<char>,
    pub target_lang: Seq<char>,
    pub exclude_from_translation: bool,
}

impl View for GlossaryEntry {
    type V = GlossaryEntryView;

    open spec fn view(&self) -> GlossaryEntryView {
        GlossaryEntryView {
            source_term: self.source_term@,
            target_term: self.target_term@,
            source_lang: self.source_lang@,
            target_lang: self.target_lang@,
            exclude_from_translation: self.exclude_from_translation,
        }
    }
}

impl GlossaryEntry {
    /// A copy of this entry.
    pub fn copied(&self) -> (r: GlossaryEntry)
        ensures
            r@ == self@,
    {
        GlossaryEntry {
            source_term: self.source_term.clone(),
            target_term: self.target_term.clone(),
            source_lang: self.source_lang.clone(),
            target_lang: self.target_lang.clone(),
            exclude_from_translation: self.exclude_from_translation,
        }
    }
}

} // verus!

use vstd::prelude::*;

verus! {

/// Where a mod was loaded from.
#[derive(Debug, Clone, Copy, PartialEq, Eq, Structural)]
pub enum ModSourceType {
    Folder,
    Zip,
}

/// How a translation run treats entries that already have a translation.
#[derive(Debug, Clone, Copy, PartialEq, Eq, Structural)]
pub enum TranslationMode {
    NewTranslation,
    DiffTranslation,
    OverwriteUpdate,
    ManualEdit,
}

/// The machine translation service to call.
#[derive(Debug, Clone, Copy, PartialEq, Eq, Structural)]
pub enum TranslationEngineType {
    DeepL,
    GoogleTranslate,
}

impl Default for TranslationEngineType {
    /// DeepL is the default engine.
    fn default() -> (r: Self)
        ensures
            r == TranslationEngineType::DeepL,
    {
        TranslationEngineType::DeepL
    }
}

/// Where the text of a translated entry came from.
#[derive(Debug, Clone, Copy, PartialEq, Eq, Structural)]
pub enum TranslationSource {
    API,
    VanillaKeyMatch,
    VanillaTextMatch,
    Manual,
    History,
    Glossary,
}

} // verus!

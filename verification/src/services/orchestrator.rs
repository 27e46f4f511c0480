//! The decisions of a translation run. A run walks the entries of the mod's
//! source-language files; for each it decides, in this order, whether an
//! existing translation is kept (difference mode), whether the game's own
//! translation applies (by key, then by English text), whether the history
//! has one, and whether the engine must be asked, with the glossary applied
//! to the text first. The caller performs each action the run asks for (a
//! history lookup, an engine call, saving a record) and hands back its
//! outcome.
use vstd::prelude::*;
use crate::models::cfg::{CfgEntry, CfgEntryView, CfgFile, CfgFileView};
use crate::models::enums::{TranslationMode, TranslationSource};
use crate::models::mod_info::ModInfo;
use crate::models::translation::{
    TranslationItem, TranslationItemView, TranslationRecord, TranslationRecordView,
};
use crate::services::glossary_service::{GlossaryService, exact_term, glossary_applied};
use crate::models::glossary::GlossaryEntryView;
use crate::services::mod_loader::{file_views, name_views};
use crate::services::vanilla_translation_service::VanillaTranslationService;
use crate::text::{concat2, same_text, split_on};

verus! {

broadcast use vstd::seq_lib::group_seq_properties;

/// A relative path of non-empty parts separated by `/`, none of them `.` or
/// `..`, with no backslash or colon in it: a path that every platform cuts the
/// same way.
pub open spec fn is_portable_path(p: Seq<char>) -> bool {
    &&& forall|i: int| 0 <= i < p.len() ==> p[i] != '\\' && p[i] != ':'
    &&& forall|i: int|
        0 <= i < split_on(p, '/').len() ==> {
            let c = #[trigger] split_on(p, '/')[i];
            c.len() > 0 && c != seq!['.'] && c != seq!['.', '.']
        }
}

/// The last part of a `/`-separated path.
pub open spec fn last_component(p: Seq<char>) -> Seq<char> {
    split_on(p, '/').last()
}

/// Calls `Path::file_name` on a locale file's path and turns the name into
/// text as `OsStr::to_string_lossy` does, or gives an empty text where the
/// path has no name. For a portable path (see [`is_portable_path`]) that is
/// its last part, on Unix and on Windows alike; of other paths, whose names
/// follow the platform's path rules, nothing is claimed.
#[verifier::external_body]
fn path_file_name(path: &str) -> (r: String)
    ensures
        is_portable_path(path@) ==> r@ == last_component(path@),
{
    match std::path::Path::new(path).file_name() {
        Some(n) => n.to_string_lossy().into_owned(),
        None => String::new(),
    }
}

/// An entry of a source-language file to be translated, with the value the
/// target-language file of the same name already gives it, if any.
#[derive(Debug, Clone)]
pub struct PlannedEntry {
    pub section: String,
    pub key: String,
    pub source_text: String,
    pub existing: Option<String>,
}

/// The characters of a [`PlannedEntry`].
pub struct PlannedEntryView {
    pub section: Seq<char>,
    pub key: Seq<char>,
    pub source_text: Seq<char>,
    pub existing: Option<Seq<char>>,
}

impl View for PlannedEntry {
    type V = PlannedEntryView;

    open spec fn view(&self) -> PlannedEntryView {
        PlannedEntryView {
            section: self.section@,
            key: self.key@,
            source_text: self.source_text@,
            existing: match self.existing {
                Some(v) => Some(v@),
                None => None,
            },
        }
    }
}

/// The views of planned entries.
pub open spec fn planned_views(v: Seq<PlannedEntry>) -> Seq<PlannedEntryView> {
    v.map_values(|e: PlannedEntry| e@)
}

/// The views of translated items.
pub open spec fn item_views(v: Seq<TranslationItem>) -> Seq<TranslationItemView> {
    v.map_values(|i: TranslationItem| i@)
}

/// The position of the first entry from `i` on with the given section and
/// key.
pub open spec fn first_match_from(es: Seq<CfgEntryView>, section: Seq<char>, key: Seq<char>, i: int) -> Option<int>
    decreases es.len() - i,
{
    if i < 0 || i >= es.len() {
        None
    } else if es[i].section == section && es[i].key == key {
        Some(i)
    } else {
        first_match_from(es, section, key, i + 1)
    }
}

/// The position of the last file of language `lang` whose name is `name`:
/// the file that a map from names to files, filled in order, keeps.
pub open spec fn last_target(fs: Seq<CfgFileView>, names: Seq<Seq<char>>, lang: Seq<char>, name: Seq<char>) -> Option<int>
    decreases fs.len(),
{
    if fs.len() == 0 {
        None
    } else if fs.last().language_code == lang && names[fs.len() - 1] == name {
        Some(fs.len() - 1)
    } else {
        last_target(fs.drop_last(), names, lang, name)
    }
}

/// A source entry with what the target file, if there is one, gives for the
/// same section and key.
pub open spec fn planned_entry(e: CfgEntryView, target: Option<CfgFileView>) -> PlannedEntryView {
    PlannedEntryView {
        section: e.section,
        key: e.key,
        source_text: e.value,
        existing: match target {
            Some(t) => match first_match_from(t.entries, e.section, e.key, 0) {
                Some(m) => Some(t.entries[m].value),
                None => None,
            },
            None => None,
        },
    }
}

/// The target-language file with the same name as file `i`.
pub open spec fn target_of(fs: Seq<CfgFileView>, names: Seq<Seq<char>>, tgt: Seq<char>, i: int) -> Option<CfgFileView> {
    match last_target(fs, names, tgt, names[i]) {
        Some(t) => Some(fs[t]),
        None => None,
    }
}

/// The planned entries of the first `n` files: the entries of each
/// source-language file, in order.
pub open spec fn planned_upto(
    fs: Seq<CfgFileView>,
    names: Seq<Seq<char>>,
    src: Seq<char>,
    tgt: Seq<char>,
    n: int,
) -> Seq<PlannedEntryView>
    decreases n,
{
    if n <= 0 {
        Seq::empty()
    } else {
        let before = planned_upto(fs, names, src, tgt, n - 1);
        let f = fs[n - 1];
        if f.language_code == src {
            before + f.entries.map_values(
                |e: CfgEntryView| planned_entry(e, target_of(fs, names, tgt, n - 1)),
            )
        } else {
            before
        }
    }
}

/// An item for an entry.
pub open spec fn item_for(
    e: PlannedEntryView,
    translated: Seq<char>,
    vanilla: Option<Seq<char>>,
    source: TranslationSource,
) -> TranslationItemView {
    TranslationItemView {
        section: e.section,
        key: e.key,
        source_text: e.source_text,
        translated_text: translated,
        vanilla_translation: vanilla,
        source,
        is_edited: false,
    }
}

/// In difference mode, an entry that already has a non-empty translation is
/// kept as it is.
pub open spec fn skips_existing(e: PlannedEntryView, mode: TranslationMode) -> bool {
    mode == TranslationMode::DiffTranslation && e.existing is Some && e.existing->0.len() > 0
}

/// The item of a kept entry.
pub open spec fn kept_item(e: PlannedEntryView) -> TranslationItemView {
    item_for(e, e.existing->0, None, TranslationSource::History)
}

/// The item of an entry after the game's translations: by section and key
/// first, then by English text, else still untranslated.
pub open spec fn vanilla_item(
    e: PlannedEntryView,
    keys: Map<(Seq<char>, Seq<char>), Seq<char>>,
    texts: Map<Seq<char>, Seq<char>>,
) -> TranslationItemView {
    let fk = (e.section, e.key);
    if keys.contains_key(fk) {
        item_for(e, keys[fk], Some(keys[fk]), TranslationSource::VanillaKeyMatch)
    } else if texts.contains_key(e.source_text) {
        item_for(
            e,
            texts[e.source_text],
            Some(texts[e.source_text]),
            TranslationSource::VanillaTextMatch,
        )
    } else {
        item_for(e, Seq::empty(), None, TranslationSource::API)
    }
}

/// The item of an entry before the history: the glossary's term where the
/// whole text is exactly a term of the language pair, else the game's
/// translations.
pub open spec fn local_item(
    e: PlannedEntryView,
    glossary: Seq<GlossaryEntryView>,
    src: Seq<char>,
    tgt: Seq<char>,
    keys: Map<(Seq<char>, Seq<char>), Seq<char>>,
    texts: Map<Seq<char>, Seq<char>>,
) -> TranslationItemView {
    match exact_term(glossary, e.source_text, src, tgt) {
        Some(t) => item_for(e, t, None, TranslationSource::Glossary),
        None => vanilla_item(e, keys, texts),
    }
}

/// The history is asked when no translation was found yet.
pub open spec fn asks_history(i: TranslationItemView) -> bool {
    i.translated_text.len() == 0
}

/// The item after the history's answer.
pub open spec fn with_history(i: TranslationItemView, h: Option<Seq<char>>) -> TranslationItemView {
    match h {
        Some(t) => TranslationItemView {
            translated_text: t,
            source: TranslationSource::History,
            ..i
        },
        None => i,
    }
}

/// The engine is asked when there is still no translation, or always when
/// overwriting; never in manual-edit mode.
pub open spec fn asks_engine(i: TranslationItemView, mode: TranslationMode) -> bool {
    mode != TranslationMode::ManualEdit && (i.translated_text.len() == 0 || mode
        == TranslationMode::OverwriteUpdate)
}

/// The item after the engine's translation.
pub open spec fn with_translation(i: TranslationItemView, t: Seq<char>) -> TranslationItemView {
    TranslationItemView { translated_text: t, source: TranslationSource::API, ..i }
}

/// Where a run stands.
#[derive(Debug, Clone, Copy, PartialEq, Eq, Structural)]
pub enum RunStage {
    Ready,
    AwaitingHistory,
    AwaitingTranslation,
    Finished,
}

/// What the caller hands back to a run.
#[derive(Debug)]
pub enum RunEvent {
    /// Go on with the next entry.
    Proceed,
    /// The history's translation of the current entry, if it has one.
    History(Option<String>),
    /// The engine's answer for the current entry.
    Translation(Result<String, String>),
}

/// The characters of a [`RunEvent`].
pub enum RunEventView {
    Proceed,
    History(Option<Seq<char>>),
    Translation(Result<Seq<char>, Seq<char>>),
}

impl View for RunEvent {
    type V = RunEventView;

    open spec fn view(&self) -> RunEventView {
        match self {
            RunEvent::Proceed => RunEventView::Proceed,
            RunEvent::History(h) => RunEventView::History(
                match h {
                    Some(t) => Some(t@),
                    None => None,
                },
            ),
            RunEvent::Translation(r) => RunEventView::Translation(
                match r {
                    Ok(t) => Ok(t@),
                    Err(e) => Err(e@),
                },
            ),
        }
    }
}

/// What a run asks the caller to do.
#[derive(Debug)]
pub enum RunAction {
    /// Look up the history's translation of an entry, then hand back
    /// `RunEvent::History`.
    LookupHistory { mod_name: String, section: String, key: String, target_lang: String },
    /// Ask the engine to translate the text, then hand back
    /// `RunEvent::Translation`.
    Translate { text: String, source_lang: String, target_lang: String },
    /// An entry is done: save the record if there is one, report the
    /// progress, then hand back `RunEvent::Proceed`.
    EntryDone { record: Option<TranslationRecord>, processed: usize, total: usize },
    /// The run is over with these items.
    Finished(Vec<TranslationItem>),
    /// The run failed with this message.
    Failed(String),
}

/// The characters of a [`RunAction`].
pub enum RunActionView {
    LookupHistory { mod_name: Seq<char>, section: Seq<char>, key: Seq<char>, target_lang: Seq<char> },
    Translate { text: Seq<char>, source_lang: Seq<char>, target_lang: Seq<char> },
    EntryDone { record: Option<TranslationRecordView>, processed: int, total: int },
    Finished(Seq<TranslationItemView>),
    Failed(Seq<char>),
}

impl View for RunAction {
    type V = RunActionView;

    open spec fn view(&self) -> RunActionView {
        match self {
            RunAction::LookupHistory { mod_name, section, key, target_lang } => RunActionView::LookupHistory {
                mod_name: mod_name@,
                section: section@,
                key: key@,
                target_lang: target_lang@,
            },
            RunAction::Translate { text, source_lang, target_lang } => RunActionView::Translate {
                text: text@,
                source_lang: source_lang@,
                target_lang: target_lang@,
            },
            RunAction::EntryDone { record, processed, total } => RunActionView::EntryDone {
                record: match record {
                    Some(r) => Some(r@),
                    None => None,
                },
                processed: *processed as int,
                total: *total as int,
            },
            RunAction::Finished(items) => RunActionView::Finished(item_views(items@)),
            RunAction::Failed(e) => RunActionView::Failed(e@),
        }
    }
}

/// The state of a translation run.
pub struct TranslationRun {
    entries: Vec<PlannedEntry>,
    file_names: Vec<String>,
    next: usize,
    results: Vec<TranslationItem>,
    current: Option<TranslationItem>,
    stage: RunStage,
    mode: TranslationMode,
    source_lang: String,
    target_lang: String,
    mod_name: String,
    mod_version: String,
}

/// The contents of a [`TranslationRun`].
#[verifier::ext_equal]
pub struct RunView {
    pub entries: Seq<PlannedEntryView>,
    pub file_names: Seq<Seq<char>>,
    pub next: int,
    pub results: Seq<TranslationItemView>,
    pub current: Option<TranslationItemView>,
    pub stage: RunStage,
    pub mode: TranslationMode,
    pub source_lang: Seq<char>,
    pub target_lang: Seq<char>,
    pub mod_name: Seq<char>,
    pub mod_version: Seq<char>,
}

impl View for TranslationRun {
    type V = RunView;

    closed spec fn view(&self) -> RunView {
        RunView {
            entries: planned_views(self.entries@),
            file_names: name_views(self.file_names@),
            next: self.next as int,
            results: item_views(self.results@),
            current: match self.current {
                Some(i) => Some(i@),
                None => None,
            },
            stage: self.stage,
            mode: self.mode,
            source_lang: self.source_lang@,
            target_lang: self.target_lang@,
            mod_name: self.mod_name@,
            mod_version: self.mod_version@,
        }
    }
}

/// An item is about an entry: same section, key and source text.
pub open spec fn item_is_for(i: TranslationItemView, e: PlannedEntryView) -> bool {
    i.section == e.section && i.key == e.key && i.source_text == e.source_text
}

/// A run that is well formed: one item per entry done, each about its entry,
/// and an item about the current entry exactly while an answer is awaited,
/// still untranslated while the history's answer is.
pub open spec fn run_wf(s: RunView) -> bool {
    &&& 0 <= s.next <= s.entries.len()
    &&& s.stage != RunStage::Finished ==> s.results.len() == s.next
    &&& s.stage != RunStage::Finished ==> forall|k: int|
        0 <= k < s.results.len() ==> item_is_for(#[trigger] s.results[k], s.entries[k])
    &&& (s.stage == RunStage::AwaitingHistory || s.stage == RunStage::AwaitingTranslation) ==> (
    s.next < s.entries.len() && s.current is Some && item_is_for(
        s.current->0,
        s.entries[s.next],
    ))
    &&& s.stage == RunStage::AwaitingHistory ==> s.current->0.translated_text.len() == 0
}

/// The events a run at this stage takes.
pub open spec fn accepts(s: RunView, e: RunEventView) -> bool {
    match e {
        RunEventView::Proceed => s.stage == RunStage::Ready,
        RunEventView::History(_) => s.stage == RunStage::AwaitingHistory,
        RunEventView::Translation(_) => s.stage == RunStage::AwaitingTranslation,
    }
}

/// The record saved for a finished item.
pub open spec fn record_for(s: RunView, i: TranslationItemView, engine: Seq<char>, now: Seq<char>) -> TranslationRecordView {
    let e = s.entries[s.next];
    TranslationRecordView {
        id: None,
        mod_name: s.mod_name,
        mod_version: Some(s.mod_version),
        section: e.section,
        key: e.key,
        source_lang: s.source_lang,
        target_lang: s.target_lang,
        source_text: e.source_text,
        translated_text: i.translated_text,
        engine,
        translated_at: now,
    }
}

/// Finishing the current entry with an item: it joins the results and its
/// record is to be saved.
pub open spec fn finish_entry(s: RunView, i: TranslationItemView, engine: Seq<char>, now: Seq<char>) -> (RunView, RunActionView) {
    (
        RunView { next: s.next + 1, results: s.results.push(i), current: None, stage: RunStage::Ready, ..s },
        RunActionView::EntryDone {
            record: Some(record_for(s, i, engine, now)),
            processed: s.next + 1,
            total: s.entries.len() as int,
        },
    )
}

/// After the history was asked, or did not need to be: ask the engine for
/// the glossary-applied text, or finish the entry.
pub open spec fn after_history(
    s: RunView,
    i: TranslationItemView,
    glossary: Seq<GlossaryEntryView>,
    engine: Seq<char>,
    now: Seq<char>,
) -> (RunView, RunActionView) {
    if asks_engine(i, s.mode) {
        (
            RunView { current: Some(i), stage: RunStage::AwaitingTranslation, ..s },
            RunActionView::Translate {
                text: glossary_applied(
                    glossary,
                    s.entries[s.next].source_text,
                    s.source_lang,
                    s.target_lang,
                ),
                source_lang: s.source_lang,
                target_lang: s.target_lang,
            },
        )
    } else {
        finish_entry(s, i, engine, now)
    }
}

/// Starting the next entry: keep an existing translation, or take the
/// glossary's term or the game's translations, and then ask the history if
/// still nothing was found.
pub open spec fn start_entry(
    s: RunView,
    keys: Map<(Seq<char>, Seq<char>), Seq<char>>,
    texts: Map<Seq<char>, Seq<char>>,
    glossary: Seq<GlossaryEntryView>,
    engine: Seq<char>,
    now: Seq<char>,
) -> (RunView, RunActionView) {
    let e = s.entries[s.next];
    if skips_existing(e, s.mode) {
        (
            RunView { next: s.next + 1, results: s.results.push(kept_item(e)), ..s },
            RunActionView::EntryDone {
                record: None,
                processed: s.next + 1,
                total: s.entries.len() as int,
            },
        )
    } else {
        let i = local_item(e, glossary, s.source_lang, s.target_lang, keys, texts);
        if asks_history(i) {
            (
                RunView { current: Some(i), stage: RunStage::AwaitingHistory, ..s },
                RunActionView::LookupHistory {
                    mod_name: s.mod_name,
                    section: e.section,
                    key: e.key,
                    target_lang: s.target_lang,
                },
            )
        } else {
            after_history(s, i, glossary, engine, now)
        }
    }
}

/// The prefix of every error of a run.
pub open spec fn failure_prefix() -> Seq<char> {
    "Translation failed: "@
}

/// One step of a run: the next state and the action asked for.
pub open spec fn run_step(
    s: RunView,
    ev: RunEventView,
    keys: Map<(Seq<char>, Seq<char>), Seq<char>>,
    texts: Map<Seq<char>, Seq<char>>,
    glossary: Seq<GlossaryEntryView>,
    engine: Seq<char>,
    now: Seq<char>,
) -> (RunView, RunActionView) {
    match ev {
        RunEventView::Proceed => if s.next >= s.entries.len() {
            (
                RunView { results: Seq::empty(), stage: RunStage::Finished, ..s },
                RunActionView::Finished(s.results),
            )
        } else {
            start_entry(s, keys, texts, glossary, engine, now)
        },
        RunEventView::History(h) => after_history(
            s,
            with_history(s.current->0, h),
            glossary,
            engine,
            now,
        ),
        RunEventView::Translation(Ok(t)) => finish_entry(
            s,
            with_translation(s.current->0, t),
            engine,
            now,
        ),
        RunEventView::Translation(Err(e)) => (
            RunView { current: None, stage: RunStage::Finished, ..s },
            RunActionView::Failed(failure_prefix() + e),
        ),
    }
}

impl TranslationRun {
    /// The run keeps its shape from step to step.
    #[verifier::type_invariant]
    spec fn inv(self) -> bool {
        run_wf(self@)
    }

    /// Whether the run takes the event at its stage.
    pub fn accepts_event(&self, event: &RunEvent) -> (r: bool)
        ensures
            r == accepts(self@, event@),
    {
        match event {
            RunEvent::Proceed => self.stage == RunStage::Ready,
            RunEvent::History(_) => self.stage == RunStage::AwaitingHistory,
            RunEvent::Translation(_) => self.stage == RunStage::AwaitingTranslation,
        }
    }

    /// Whether the run is over.
    pub fn is_finished(&self) -> (r: bool)
        ensures
            r == (self@.stage == RunStage::Finished),
    {
        self.stage == RunStage::Finished
    }

    /// The number of entries the run walks.
    pub fn total(&self) -> (r: usize)
        ensures
            r == self@.entries.len(),
    {
        self.entries.len()
    }
}

/// The decisions of translation runs over the game's translations and the
/// glossary, for one engine.
pub struct TranslationOrchestrator<'a> {
    vanilla: &'a VanillaTranslationService,
    glossary: &'a GlossaryService,
    engine_name: String,
}

impl<'a> TranslationOrchestrator<'a> {
    /// The game's translations by section and key.
    pub closed spec fn vanilla_keys(&self) -> Map<(Seq<char>, Seq<char>), Seq<char>> {
        self.vanilla.keys()
    }

    /// The game's translations by English text.
    pub closed spec fn vanilla_texts(&self) -> Map<Seq<char>, Seq<char>> {
        self.vanilla.texts()
    }

    /// The glossary's entries.
    pub closed spec fn glossary_entries(&self) -> Seq<GlossaryEntryView> {
        self.glossary.entries_view()
    }

    /// The name of the engine, as saved in records.
    pub closed spec fn engine(&self) -> Seq<char> {
        self.engine_name@
    }

    /// An orchestrator over the given services, for the engine of the given
    /// name.
    pub fn new(
        vanilla: &'a VanillaTranslationService,
        glossary: &'a GlossaryService,
        engine_name: &str,
    ) -> (r: Self)
        ensures
            r.vanilla_keys() == vanilla.keys(),
            r.vanilla_texts() == vanilla.texts(),
            r.glossary_entries() == glossary.entries_view(),
            r.engine() == engine_name@,
    {
        TranslationOrchestrator { vanilla, glossary, engine_name: engine_name.to_owned() }
    }

    /// The run of a translation of the mod from one language to another,
    /// with the file names that the platform reads from the locale files'
    /// paths: the last part of each portable path.
    pub fn plan(
        &self,
        mod_info: &ModInfo,
        mode: TranslationMode,
        source_lang: &str,
        target_lang: &str,
    ) -> (r: TranslationRun)
        ensures
            r@.file_names.len() == mod_info.locale_files@.len(),
            forall|i: int|
                0 <= i < mod_info.locale_files@.len() && is_portable_path(
                    mod_info.locale_files@[i].file_path@,
                ) ==> r@.file_names[i] == last_component(mod_info.locale_files@[i].file_path@),
            r@.entries == planned_upto(
                file_views(mod_info.locale_files@),
                r@.file_names,
                source_lang@,
                target_lang@,
                mod_info.locale_files@.len() as int,
            ),
            r@.next == 0,
            r@.results.len() == 0,
            r@.current is None,
            r@.stage == RunStage::Ready,
            r@.mode == mode,
            r@.source_lang == source_lang@,
            r@.target_lang == target_lang@,
            r@.mod_name == mod_info.name@,
            r@.mod_version == mod_info.version@,
    {
        let files = &mod_info.locale_files;
        let mut names: Vec<String> = Vec::new();
        let mut i: usize = 0;
        while i < files.len()
            invariant
                i <= files@.len(),
                names@.len() == i,
                forall|k: int|
                    0 <= k < i && is_portable_path(files@[k].file_path@) ==> names@[k]@
                        == last_component(files@[k].file_path@),
            decreases files@.len() - i,
        {
            names.push(path_file_name(files[i].file_path.as_str()));
            i = i + 1;
        }
        Self::plan_with_names(mod_info, names, mode, source_lang, target_lang)
    }

    /// The run of a translation of the mod, given the name of each of its
    /// locale files: the entries of the source-language files in order, each
    /// with the value that the last target-language file of the same name
    /// gives its section and key.
    pub fn plan_with_names(
        mod_info: &ModInfo,
        file_names: Vec<String>,
        mode: TranslationMode,
        source_lang: &str,
        target_lang: &str,
    ) -> (r: TranslationRun)
        requires
            file_names@.len() == mod_info.locale_files@.len(),
        ensures
            r@.file_names == name_views(file_names@),
            r@.entries == planned_upto(
                file_views(mod_info.locale_files@),
                name_views(file_names@),
                source_lang@,
                target_lang@,
                mod_info.locale_files@.len() as int,
            ),
            r@.next == 0,
            r@.results.len() == 0,
            r@.current is None,
            r@.stage == RunStage::Ready,
            r@.mode == mode,
            r@.source_lang == source_lang@,
            r@.target_lang == target_lang@,
            r@.mod_name == mod_info.name@,
            r@.mod_version == mod_info.version@,
    {
        let files = &mod_info.locale_files;
        let ghost fs = file_views(files@);
        let ghost ns = name_views(file_names@);
        let mut entries: Vec<PlannedEntry> = Vec::new();
        let mut i: usize = 0;
        while i < files.len()
            invariant
                i <= files@.len(),
                fs == file_views(files@),
                ns == name_views(file_names@),
                file_names@.len() == files@.len(),
                planned_views(entries@) == planned_upto(fs, ns, source_lang@, target_lang@, i as int),
            decreases files@.len() - i,
        {
            let f = &files[i];
            if same_text(f.language_code.as_str(), source_lang) {
                let target = last_target_index(files, &file_names, target_lang, file_names[i].as_str());
                let ghost tv = target_of(fs, ns, target_lang@, i as int);
                proof {
                    assert(ns[i as int] == file_names@[i as int]@);
                    assert(fs[i as int] == f@);
                }
                let ghost before = planned_views(entries@);
                let mut k: usize = 0;
                while k < f.entries.len()
                    invariant
                        k <= f.entries@.len(),
                        fs == file_views(files@),
                        i < files@.len(),
                        f == &files@[i as int],
                        target matches Some(t) ==> t < files@.len() && tv == Some(fs[t as int]),
                        target is None ==> tv is None,
                        planned_views(entries@) == before + f@.entries.take(k as int).map_values(
                            |e: CfgEntryView| planned_entry(e, tv),
                        ),
                    decreases f.entries@.len() - k,
                {
                    let e: &CfgEntry = &f.entries[k];
                    let existing = match target {
                        Some(t) => first_match_value(&files[t].entries, e.section.as_str(), e.key.as_str()),
                        None => None,
                    };
                    let ghost old_entries = entries@;
                    entries.push(
                        PlannedEntry {
                            section: e.section.clone(),
                            key: e.key.clone(),
                            source_text: e.value.clone(),
                            existing,
                        },
                    );
                    proof {
                        assert(f@.entries[k as int] == e@);
                        assert(f@.entries.take(k + 1) =~= f@.entries.take(k as int).push(e@));
                        assert(planned_views(entries@) =~= planned_views(old_entries).push(
                            planned_entry(e@, tv),
                        ));
                    }
                    k = k + 1;
                }
                proof {
                    assert(f@.entries.take(k as int) =~= f@.entries);
                }
            }
            i = i + 1;
        }
        TranslationRun {
            entries,
            file_names,
            next: 0,
            results: Vec::new(),
            current: None,
            stage: RunStage::Ready,
            mode,
            source_lang: source_lang.to_owned(),
            target_lang: target_lang.to_owned(),
            mod_name: mod_info.name.clone(),
            mod_version: mod_info.version.clone(),
        }
    }
}

impl<'a> TranslationOrchestrator<'a> {
    /// An item for an entry.
    fn item_of(
        e: &PlannedEntry,
        translated: String,
        vanilla: Option<String>,
        source: TranslationSource,
    ) -> (r: TranslationItem)
        ensures
            r@ == item_for(
                e@,
                translated@,
                match vanilla {
                    Some(v) => Some(v@),
                    None => None,
                },
                source,
            ),
    {
        TranslationItem {
            section: e.section.clone(),
            key: e.key.clone(),
            source_text: e.source_text.clone(),
            translated_text: translated,
            vanilla_translation: vanilla,
            source,
            is_edited: false,
        }
    }

    /// The item of an entry before the history.
    fn local_item_of(&self, e: &PlannedEntry, source_lang: &str, target_lang: &str) -> (r:
        TranslationItem)
        ensures
            r@ == local_item(
                e@,
                self.glossary_entries(),
                source_lang@,
                target_lang@,
                self.vanilla_keys(),
                self.vanilla_texts(),
            ),
    {
        match self.glossary.exact_term(e.source_text.as_str(), source_lang, target_lang) {
            Some(t) => Self::item_of(e, t, None, TranslationSource::Glossary),
            None => self.vanilla_item_of(e),
        }
    }

    /// The item of an entry after the game's translations.
    fn vanilla_item_of(&self, e: &PlannedEntry) -> (r: TranslationItem)
        ensures
            r@ == vanilla_item(e@, self.vanilla_keys(), self.vanilla_texts()),
    {
        match self.vanilla.match_by_key(e.section.as_str(), e.key.as_str()) {
            Some(v) => {
                let t = v.clone();
                Self::item_of(e, t, Some(v), TranslationSource::VanillaKeyMatch)
            },
            None => match self.vanilla.match_by_text(e.source_text.as_str()) {
                Some(v) => {
                    let t = v.clone();
                    Self::item_of(e, t, Some(v), TranslationSource::VanillaTextMatch)
                },
                None => Self::item_of(e, String::new(), None, TranslationSource::API),
            },
        }
    }

    /// Finishes the current entry of a ready run with an item.
    fn finish_with(&self, run: TranslationRun, item: TranslationItem, now: &str) -> (r: (
        TranslationRun,
        RunAction,
    ))
        requires
            run@.stage == RunStage::Ready,
            run@.next < run@.entries.len(),
            item_is_for(item@, run@.entries[run@.next]),
        ensures
            (r.0@, r.1@) == finish_entry(run@, item@, self.engine(), now@),
    {
        proof {
            use_type_invariant(&run);
        }
        let ghost s = run@;
        let TranslationRun {
            entries,
            file_names,
            next,
            mut results,
            current,
            stage,
            mode,
            source_lang,
            target_lang,
            mod_name,
            mod_version,
        } = run;
        let e = &entries[next];
        let record = TranslationRecord {
            id: None,
            mod_name: mod_name.clone(),
            mod_version: Some(mod_version.clone()),
            section: e.section.clone(),
            key: e.key.clone(),
            source_lang: source_lang.clone(),
            target_lang: target_lang.clone(),
            source_text: e.source_text.clone(),
            translated_text: item.translated_text.clone(),
            engine: self.engine_name.clone(),
            translated_at: now.to_owned(),
        };
        let ghost iv = item@;
        let ghost old_results = results@;
        results.push(item);
        proof {
            assert(item_views(results@) =~= item_views(old_results).push(iv));
            assert(planned_views(entries@)[next as int] == entries@[next as int]@);
            assert forall|k: int| 0 <= k < item_views(results@).len() implies item_is_for(
                #[trigger] item_views(results@)[k],
                planned_views(entries@)[k],
            ) by {
                if k < old_results.len() {
                    assert(item_views(results@)[k] == item_views(old_results)[k]);
                }
            }
        }
        let total = entries.len();
        let next2 = next + 1;
        let run2 = TranslationRun {
            entries,
            file_names,
            next: next2,
            results,
            current: None,
            stage: RunStage::Ready,
            mode,
            source_lang,
            target_lang,
            mod_name,
            mod_version,
        };
        (run2, RunAction::EntryDone { record: Some(record), processed: next2, total })
    }

    /// Goes on with an item after the history was asked or not: asks the
    /// engine, or finishes the entry.
    fn continue_after_history(&self, run: TranslationRun, item: TranslationItem, now: &str) -> (r: (
        TranslationRun,
        RunAction,
    ))
        requires
            run@.stage == RunStage::Ready,
            run@.next < run@.entries.len(),
            item_is_for(item@, run@.entries[run@.next]),
        ensures
            (r.0@, r.1@) == after_history(run@, item@, self.glossary_entries(), self.engine(), now@),
    {
        proof {
            use_type_invariant(&run);
        }
        let asks = run.mode != TranslationMode::ManualEdit && (
        item.translated_text.as_str().is_empty() || run.mode == TranslationMode::OverwriteUpdate);
        if !asks {
            return self.finish_with(run, item, now);
        }
        let TranslationRun {
            entries,
            file_names,
            next,
            results,
            current,
            stage,
            mode,
            source_lang,
            target_lang,
            mod_name,
            mod_version,
        } = run;
        let text = self.glossary.apply_glossary(
            entries[next].source_text.as_str(),
            source_lang.as_str(),
            target_lang.as_str(),
        );
        proof {
            assert(planned_views(entries@)[next as int] == entries@[next as int]@);
        }
        let action = RunAction::Translate {
            text,
            source_lang: source_lang.clone(),
            target_lang: target_lang.clone(),
        };
        let run2 = TranslationRun {
            entries,
            file_names,
            next,
            results,
            current: Some(item),
            stage: RunStage::AwaitingTranslation,
            mode,
            source_lang,
            target_lang,
            mod_name,
            mod_version,
        };
        (run2, action)
    }

    /// One step of a run: the state after the event, and the action the
    /// caller is to perform before the next step.
    pub fn step(&self, run: TranslationRun, event: RunEvent, now: &str) -> (r: (
        TranslationRun,
        RunAction,
    ))
        requires
            accepts(run@, event@),
        ensures
            (r.0@, r.1@) == run_step(
                run@,
                event@,
                self.vanilla_keys(),
                self.vanilla_texts(),
                self.glossary_entries(),
                self.engine(),
                now@,
            ),
    {
        proof {
            use_type_invariant(&run);
        }
        let ghost s = run@;
        let TranslationRun {
            entries,
            file_names,
            next,
            mut results,
            current,
            stage,
            mode,
            source_lang,
            target_lang,
            mod_name,
            mod_version,
        } = run;
        match event {
            RunEvent::Proceed => {
                if next >= entries.len() {
                    let run2 = TranslationRun {
                        entries,
                        file_names,
                        next,
                        results: Vec::new(),
                        current,
                        stage: RunStage::Finished,
                        mode,
                        source_lang,
                        target_lang,
                        mod_name,
                        mod_version,
                    };
                    return (run2, RunAction::Finished(results));
                }
                proof {
                    assert(planned_views(entries@)[next as int] == entries@[next as int]@);
                }
                let keep = match &entries[next].existing {
                    Some(v) => mode == TranslationMode::DiffTranslation && !v.as_str().is_empty(),
                    None => false,
                };
                if keep {
                    let e = &entries[next];
                    let existing = e.existing.clone().unwrap();
                    let item = Self::item_of(e, existing, None, TranslationSource::History);
                    let ghost iv = item@;
                    let ghost old_results = results@;
                    results.push(item);
                    proof {
                        assert(item_views(results@) =~= item_views(old_results).push(iv));
                        assert forall|k: int| 0 <= k < item_views(results@).len() implies item_is_for(
                            #[trigger] item_views(results@)[k],
                            planned_views(entries@)[k],
                        ) by {
                            if k < old_results.len() {
                                assert(item_views(results@)[k] == item_views(old_results)[k]);
                            }
                        }
                    }
                    let total = entries.len();
                    let next2 = next + 1;
                    let run2 = TranslationRun {
                        entries,
                        file_names,
                        next: next2,
                        results,
                        current,
                        stage,
                        mode,
                        source_lang,
                        target_lang,
                        mod_name,
                        mod_version,
                    };
                    return (run2, RunAction::EntryDone { record: None, processed: next2, total });
                }
                let item = self.local_item_of(
                    &entries[next],
                    source_lang.as_str(),
                    target_lang.as_str(),
                );
                if item.translated_text.as_str().is_empty() {
                    let action = RunAction::LookupHistory {
                        mod_name: mod_name.clone(),
                        section: entries[next].section.clone(),
                        key: entries[next].key.clone(),
                        target_lang: target_lang.clone(),
                    };
                    let run2 = TranslationRun {
                        entries,
                        file_names,
                        next,
                        results,
                        current: Some(item),
                        stage: RunStage::AwaitingHistory,
                        mode,
                        source_lang,
                        target_lang,
                        mod_name,
                        mod_version,
                    };
                    return (run2, action);
                }
                let run2 = TranslationRun {
                    entries,
                    file_names,
                    next,
                    results,
                    current,
                    stage,
                    mode,
                    source_lang,
                    target_lang,
                    mod_name,
                    mod_version,
                };
                self.continue_after_history(run2, item, now)
            },
            RunEvent::History(h) => {
                let cur = current.unwrap();
                let item = match h {
                    Some(t) => TranslationItem {
                        section: cur.section,
                        key: cur.key,
                        source_text: cur.source_text,
                        translated_text: t,
                        vanilla_translation: cur.vanilla_translation,
                        source: TranslationSource::History,
                        is_edited: cur.is_edited,
                    },
                    None => cur,
                };
                let run2 = TranslationRun {
                    entries,
                    file_names,
                    next,
                    results,
                    current: None,
                    stage: RunStage::Ready,
                    mode,
                    source_lang,
                    target_lang,
                    mod_name,
                    mod_version,
                };
                self.continue_after_history(run2, item, now)
            },
            RunEvent::Translation(Ok(t)) => {
                let cur = current.unwrap();
                let item = TranslationItem {
                    section: cur.section,
                    key: cur.key,
                    source_text: cur.source_text,
                    translated_text: t,
                    vanilla_translation: cur.vanilla_translation,
                    source: TranslationSource::API,
                    is_edited: cur.is_edited,
                };
                let run2 = TranslationRun {
                    entries,
                    file_names,
                    next,
                    results,
                    current: None,
                    stage: RunStage::Ready,
                    mode,
                    source_lang,
                    target_lang,
                    mod_name,
                    mod_version,
                };
                self.finish_with(run2, item, now)
            },
            RunEvent::Translation(Err(e)) => {
                let msg = concat2("Translation failed: ", e.as_str());
                let run2 = TranslationRun {
                    entries,
                    file_names,
                    next,
                    results,
                    current: None,
                    stage: RunStage::Finished,
                    mode,
                    source_lang,
                    target_lang,
                    mod_name,
                    mod_version,
                };
                (run2, RunAction::Failed(msg))
            },
        }
    }
}

/// The position of the last file of language `lang` named `name`.
fn last_target_index(files: &Vec<CfgFile>, names: &Vec<String>, lang: &str, name: &str) -> (r: Option<usize>)
    requires
        names@.len() == files@.len(),
    ensures
        r matches Some(t) ==> t < files@.len() && last_target(
            file_views(files@),
            name_views(names@),
            lang@,
            name@,
        ) == Some(t as int),
        r is None ==> last_target(file_views(files@), name_views(names@), lang@, name@) is None,
{
    let ghost fs = file_views(files@);
    let ghost ns = name_views(names@);
    let mut i: usize = files.len();
    while i > 0
        invariant
            i <= files@.len(),
            fs == file_views(files@),
            ns == name_views(names@),
            names@.len() == files@.len(),
            last_target(fs, ns, lang@, name@) == last_target(fs.take(i as int), ns, lang@, name@),
        decreases i,
    {
        let j = i - 1;
        let hit = same_text(files[j].language_code.as_str(), lang) && same_text(
            names[j].as_str(),
            name,
        );
        proof {
            let t = fs.take(i as int);
            assert(t.last() == files@[j as int]@);
            assert(ns[j as int] == names@[j as int]@);
            assert(t.drop_last() =~= fs.take(j as int));
        }
        if hit {
            return Some(j);
        }
        i = j;
    }
    proof {
        assert(fs.take(0) =~= Seq::<CfgFileView>::empty());
    }
    None
}

/// The value of the first entry with the given section and key.
fn first_match_value(entries: &Vec<CfgEntry>, section: &str, key: &str) -> (r: Option<String>)
    ensures
        ({
            let es = crate::models::cfg::entry_views(entries@);
            match first_match_from(es, section@, key@, 0) {
                Some(m) => r is Some && r->0@ == es[m].value,
                None => r is None,
            }
        }),
{
    let ghost es = crate::models::cfg::entry_views(entries@);
    let mut j: usize = 0;
    while j < entries.len()
        invariant
            j <= entries@.len(),
            es == crate::models::cfg::entry_views(entries@),
            first_match_from(es, section@, key@, 0) == first_match_from(es, section@, key@, j as int),
        decreases entries@.len() - j,
    {
        let e = &entries[j];
        proof {
            assert(es[j as int] == e@);
        }
        if same_text(e.section.as_str(), section) && same_text(e.key.as_str(), key) {
            return Some(e.value.clone());
        }
        j = j + 1;
    }
    None
}

/// Every step keeps a run well formed.
pub proof fn lemma_step_keeps_wf(
    s: RunView,
    ev: RunEventView,
    keys: Map<(Seq<char>, Seq<char>), Seq<char>>,
    texts: Map<Seq<char>, Seq<char>>,
    glossary: Seq<GlossaryEntryView>,
    engine: Seq<char>,
    now: Seq<char>,
)
    requires
        run_wf(s),
        accepts(s, ev),
    ensures
        run_wf(run_step(s, ev, keys, texts, glossary, engine, now).0),
{
    let s2 = run_step(s, ev, keys, texts, glossary, engine, now).0;
    if s2.stage != RunStage::Finished {
        assert forall|k: int| 0 <= k < s2.results.len() implies item_is_for(
            #[trigger] s2.results[k],
            s2.entries[k],
        ) by {
            if k < s.results.len() {
                assert(s2.results[k] == s.results[k]);
            }
        }
    }
}

/// A run that finishes gives one item per planned entry, each about its
/// entry, in the order of the entries.
pub proof fn lemma_finished_run_covers_entries(
    s: RunView,
    keys: Map<(Seq<char>, Seq<char>), Seq<char>>,
    texts: Map<Seq<char>, Seq<char>>,
    glossary: Seq<GlossaryEntryView>,
    engine: Seq<char>,
    now: Seq<char>,
)
    requires
        run_wf(s),
        accepts(s, RunEventView::Proceed),
        run_step(s, RunEventView::Proceed, keys, texts, glossary, engine, now).1 is Finished,
    ensures
        ({
            let items = run_step(s, RunEventView::Proceed, keys, texts, glossary, engine, now).1->Finished_0;
            &&& items.len() == s.entries.len()
            &&& forall|k: int| 0 <= k < items.len() ==> item_is_for(#[trigger] items[k], s.entries[k])
        }),
{
}

/// An entry whose section and key have a non-empty translation in the game,
/// and whose text is no glossary term, is given that translation at once, as
/// a key match, without asking the history or the engine, unless it is kept
/// in difference mode or the run overwrites.
pub proof fn lemma_vanilla_key_match_preferred(
    s: RunView,
    keys: Map<(Seq<char>, Seq<char>), Seq<char>>,
    texts: Map<Seq<char>, Seq<char>>,
    glossary: Seq<GlossaryEntryView>,
    engine: Seq<char>,
    now: Seq<char>,
)
    requires
        run_wf(s),
        s.stage == RunStage::Ready,
        s.next < s.entries.len(),
        keys.contains_key((s.entries[s.next].section, s.entries[s.next].key)),
        keys[(s.entries[s.next].section, s.entries[s.next].key)].len() > 0,
        exact_term(glossary, s.entries[s.next].source_text, s.source_lang, s.target_lang) is None,
        !skips_existing(s.entries[s.next], s.mode),
        s.mode != TranslationMode::OverwriteUpdate,
    ensures
        ({
            let e = s.entries[s.next];
            let v = keys[(e.section, e.key)];
            let (s2, a) = run_step(s, RunEventView::Proceed, keys, texts, glossary, engine, now);
            &&& a is EntryDone
            &&& s2.results.last().translated_text == v
            &&& s2.results.last().vanilla_translation == Some(v)
            &&& s2.results.last().source == TranslationSource::VanillaKeyMatch
            &&& s2.next == s.next + 1
        }),
{
}

/// An entry whose section and key have no translation in the game, whose
/// English text has a non-empty one, and whose text is no glossary term, is
/// given that translation at once, as a text match, without asking the
/// history or the engine, unless it is kept in difference mode or the run
/// overwrites.
pub proof fn lemma_vanilla_text_match_preferred(
    s: RunView,
    keys: Map<(Seq<char>, Seq<char>), Seq<char>>,
    texts: Map<Seq<char>, Seq<char>>,
    glossary: Seq<GlossaryEntryView>,
    engine: Seq<char>,
    now: Seq<char>,
)
    requires
        run_wf(s),
        s.stage == RunStage::Ready,
        s.next < s.entries.len(),
        !keys.contains_key((s.entries[s.next].section, s.entries[s.next].key)),
        texts.contains_key(s.entries[s.next].source_text),
        texts[s.entries[s.next].source_text].len() > 0,
        exact_term(glossary, s.entries[s.next].source_text, s.source_lang, s.target_lang) is None,
        !skips_existing(s.entries[s.next], s.mode),
        s.mode != TranslationMode::OverwriteUpdate,
    ensures
        ({
            let w = texts[s.entries[s.next].source_text];
            let (s2, a) = run_step(s, RunEventView::Proceed, keys, texts, glossary, engine, now);
            &&& a is EntryDone
            &&& s2.results.last().translated_text == w
            &&& s2.results.last().vanilla_translation == Some(w)
            &&& s2.results.last().source == TranslationSource::VanillaTextMatch
            &&& s2.next == s.next + 1
        }),
{
}

/// An entry that neither the glossary nor the game translates is looked up
/// in the history of the mod, by its section and key, for the run's target
/// language, unless it is kept in difference mode.
pub proof fn lemma_history_asked_when_nothing_local(
    s: RunView,
    keys: Map<(Seq<char>, Seq<char>), Seq<char>>,
    texts: Map<Seq<char>, Seq<char>>,
    glossary: Seq<GlossaryEntryView>,
    engine: Seq<char>,
    now: Seq<char>,
)
    requires
        run_wf(s),
        s.stage == RunStage::Ready,
        s.next < s.entries.len(),
        !keys.contains_key((s.entries[s.next].section, s.entries[s.next].key)),
        !texts.contains_key(s.entries[s.next].source_text),
        exact_term(glossary, s.entries[s.next].source_text, s.source_lang, s.target_lang) is None,
        !skips_existing(s.entries[s.next], s.mode),
    ensures
        ({
            let e = s.entries[s.next];
            let (s2, a) = run_step(s, RunEventView::Proceed, keys, texts, glossary, engine, now);
            &&& a == (RunActionView::LookupHistory {
                mod_name: s.mod_name,
                section: e.section,
                key: e.key,
                target_lang: s.target_lang,
            })
            &&& s2.stage == RunStage::AwaitingHistory
            &&& s2.next == s.next
        }),
{
}

/// When the history has no translation for an entry that the glossary and
/// the game left untranslated, the engine is asked for the entry's text with
/// the glossary applied, unless the run is a manual edit.
pub proof fn lemma_engine_asked_without_history(
    s: RunView,
    keys: Map<(Seq<char>, Seq<char>), Seq<char>>,
    texts: Map<Seq<char>, Seq<char>>,
    glossary: Seq<GlossaryEntryView>,
    engine: Seq<char>,
    now: Seq<char>,
)
    requires
        run_wf(s),
        s.stage == RunStage::AwaitingHistory,
        s.mode != TranslationMode::ManualEdit,
    ensures
        ({
            let (s2, a) = run_step(s, RunEventView::History(None), keys, texts, glossary, engine, now);
            &&& a == (RunActionView::Translate {
                text: glossary_applied(
                    glossary,
                    s.entries[s.next].source_text,
                    s.source_lang,
                    s.target_lang,
                ),
                source_lang: s.source_lang,
                target_lang: s.target_lang,
            })
            &&& s2.stage == RunStage::AwaitingTranslation
        }),
{
}

/// In difference mode an entry whose target file already translates it is
/// kept as it is, as a history item, and no record is saved for it.
pub proof fn lemma_diff_keeps_existing(
    s: RunView,
    keys: Map<(Seq<char>, Seq<char>), Seq<char>>,
    texts: Map<Seq<char>, Seq<char>>,
    glossary: Seq<GlossaryEntryView>,
    engine: Seq<char>,
    now: Seq<char>,
)
    requires
        run_wf(s),
        s.stage == RunStage::Ready,
        s.next < s.entries.len(),
        s.mode == TranslationMode::DiffTranslation,
        s.entries[s.next].existing is Some,
        s.entries[s.next].existing->0.len() > 0,
    ensures
        ({
            let (s2, a) = run_step(s, RunEventView::Proceed, keys, texts, glossary, engine, now);
            &&& a matches RunActionView::EntryDone { record, .. } && record is None
            &&& s2.results.last().translated_text == s.entries[s.next].existing->0
            &&& s2.results.last().source == TranslationSource::History
        }),
{
}

/// The engine is only ever asked for the entry's text with the glossary
/// applied for the run's languages.
pub proof fn lemma_engine_sees_glossary_text(
    s: RunView,
    ev: RunEventView,
    keys: Map<(Seq<char>, Seq<char>), Seq<char>>,
    texts: Map<Seq<char>, Seq<char>>,
    glossary: Seq<GlossaryEntryView>,
    engine: Seq<char>,
    now: Seq<char>,
)
    requires
        run_wf(s),
        accepts(s, ev),
        run_step(s, ev, keys, texts, glossary, engine, now).1 is Translate,
    ensures
        run_step(s, ev, keys, texts, glossary, engine, now).1->Translate_text == glossary_applied(
            glossary,
            s.entries[s.next].source_text,
            s.source_lang,
            s.target_lang,
        ),
{
}

/// An engine error ends the run with that error after the failure prefix.
pub proof fn lemma_engine_error_fails_run(
    s: RunView,
    err: Seq<char>,
    keys: Map<(Seq<char>, Seq<char>), Seq<char>>,
    texts: Map<Seq<char>, Seq<char>>,
    glossary: Seq<GlossaryEntryView>,
    engine: Seq<char>,
    now: Seq<char>,
)
    requires
        run_wf(s),
        s.stage == RunStage::AwaitingTranslation,
    ensures
        ({
            let (s2, a) = run_step(s, RunEventView::Translation(Err(err)), keys, texts, glossary, engine, now);
            &&& s2.stage == RunStage::Finished
            &&& a == RunActionView::Failed(failure_prefix() + err)
        }),
{
}

/// Every entry that is finished other than by keeping it saves a record of
/// its final translation, for reuse by later runs.
pub proof fn lemma_finished_entries_are_recorded(
    s: RunView,
    ev: RunEventView,
    keys: Map<(Seq<char>, Seq<char>), Seq<char>>,
    texts: Map<Seq<char>, Seq<char>>,
    glossary: Seq<GlossaryEntryView>,
    engine: Seq<char>,
    now: Seq<char>,
)
    requires
        run_wf(s),
        accepts(s, ev),
        run_step(s, ev, keys, texts, glossary, engine, now).1 matches RunActionView::EntryDone {
            record,
            ..
        } && record is Some,
    ensures
        ({
            let (s2, a) = run_step(s, ev, keys, texts, glossary, engine, now);
            let r = a->EntryDone_record->0;
            &&& r.translated_text == s2.results.last().translated_text
            &&& r.section == s.entries[s.next].section
            &&& r.key == s.entries[s.next].key
            &&& r.source_text == s.entries[s.next].source_text
            &&& r.mod_name == s.mod_name
            &&& r.target_lang == s.target_lang
            &&& r.engine == engine
            &&& s2.next == s.next + 1
        }),
{
}

/// When the game offers nothing for an entry, the history's answer is taken
/// as it is, without asking the engine, unless the run overwrites.
pub proof fn lemma_history_answer_used(
    s: RunView,
    t: Seq<char>,
    keys: Map<(Seq<char>, Seq<char>), Seq<char>>,
    texts: Map<Seq<char>, Seq<char>>,
    glossary: Seq<GlossaryEntryView>,
    engine: Seq<char>,
    now: Seq<char>,
)
    requires
        run_wf(s),
        s.stage == RunStage::AwaitingHistory,
        t.len() > 0,
        s.mode != TranslationMode::OverwriteUpdate,
    ensures
        ({
            let (s2, a) = run_step(s, RunEventView::History(Some(t)), keys, texts, glossary, engine, now);
            &&& a is EntryDone
            &&& s2.results.last().translated_text == t
            &&& s2.results.last().source == TranslationSource::History
        }),
{
}

/// An entry whose whole text is a glossary term of the run's languages, with
/// a non-empty target term, is given that term at once, as a glossary item,
/// without asking the history or the engine, unless it is kept in difference
/// mode or the run overwrites.
pub proof fn lemma_glossary_term_preferred(
    s: RunView,
    keys: Map<(Seq<char>, Seq<char>), Seq<char>>,
    texts: Map<Seq<char>, Seq<char>>,
    glossary: Seq<GlossaryEntryView>,
    engine: Seq<char>,
    now: Seq<char>,
)
    requires
        run_wf(s),
        s.stage == RunStage::Ready,
        s.next < s.entries.len(),
        exact_term(glossary, s.entries[s.next].source_text, s.source_lang, s.target_lang) is Some,
        exact_term(glossary, s.entries[s.next].source_text, s.source_lang, s.target_lang)->0.len()
            > 0,
        !skips_existing(s.entries[s.next], s.mode),
        s.mode != TranslationMode::OverwriteUpdate,
    ensures
        ({
            let t = exact_term(glossary, s.entries[s.next].source_text, s.source_lang, s.target_lang)->0;
            let (s2, a) = run_step(s, RunEventView::Proceed, keys, texts, glossary, engine, now);
            &&& a is EntryDone
            &&& s2.results.last().translated_text == t
            &&& s2.results.last().source == TranslationSource::Glossary
            &&& s2.next == s.next + 1
        }),
{
}

/// A manual-edit run never asks the engine: no step of it asks for a
/// translation.
pub proof fn lemma_manual_edit_never_asks_engine(
    s: RunView,
    ev: RunEventView,
    keys: Map<(Seq<char>, Seq<char>), Seq<char>>,
    texts: Map<Seq<char>, Seq<char>>,
    glossary: Seq<GlossaryEntryView>,
    engine: Seq<char>,
    now: Seq<char>,
)
    requires
        run_wf(s),
        accepts(s, ev),
        s.mode == TranslationMode::ManualEdit,
    ensures
        !(run_step(s, ev, keys, texts, glossary, engine, now).1 is Translate),
{
}

/// When a run overwrites, an entry is only ever done with the engine's
/// answer for it, taken as an engine translation, whatever the game, the
/// glossary or the history offered.
pub proof fn lemma_overwrite_takes_engine_answer(
    s: RunView,
    ev: RunEventView,
    keys: Map<(Seq<char>, Seq<char>), Seq<char>>,
    texts: Map<Seq<char>, Seq<char>>,
    glossary: Seq<GlossaryEntryView>,
    engine: Seq<char>,
    now: Seq<char>,
)
    requires
        run_wf(s),
        accepts(s, ev),
        s.mode == TranslationMode::OverwriteUpdate,
        run_step(s, ev, keys, texts, glossary, engine, now).1 is EntryDone,
    ensures
        ev matches RunEventView::Translation(Ok(t)) && ({
            let s2 = run_step(s, ev, keys, texts, glossary, engine, now).0;
            &&& s2.results.last().translated_text == t
            &&& s2.results.last().source == TranslationSource::API
            &&& s2.next == s.next + 1
        }),
{
}

/// The state after handing a run a list of events in turn, with the time of
/// each, and the actions that it asked for on the way.
pub open spec fn run_steps(
    s: RunView,
    evs: Seq<RunEventView>,
    keys: Map<(Seq<char>, Seq<char>), Seq<char>>,
    texts: Map<Seq<char>, Seq<char>>,
    glossary: Seq<GlossaryEntryView>,
    engine: Seq<char>,
    nows: Seq<Seq<char>>,
) -> (RunView, Seq<RunActionView>)
    decreases evs.len(),
{
    if evs.len() == 0 {
        (s, seq![])
    } else {
        let before = run_steps(s, evs.drop_last(), keys, texts, glossary, engine, nows);
        let after = run_step(before.0, evs.last(), keys, texts, glossary, engine, nows[evs.len() - 1]);
        (after.0, before.1.push(after.1))
    }
}

/// Each event of the list is one that the run takes at that point.
pub open spec fn all_accepted(
    s: RunView,
    evs: Seq<RunEventView>,
    keys: Map<(Seq<char>, Seq<char>), Seq<char>>,
    texts: Map<Seq<char>, Seq<char>>,
    glossary: Seq<GlossaryEntryView>,
    engine: Seq<char>,
    nows: Seq<Seq<char>>,
) -> bool {
    forall|i: int|
        0 <= i < evs.len() ==> accepts(
            #[trigger] run_steps(s, evs.take(i), keys, texts, glossary, engine, nows).0,
            evs[i],
        )
}

/// A whole manual-edit run, whatever the events handed to it, never asks
/// the engine for a translation.
pub proof fn lemma_manual_edit_run_never_asks_engine(
    s: RunView,
    evs: Seq<RunEventView>,
    keys: Map<(Seq<char>, Seq<char>), Seq<char>>,
    texts: Map<Seq<char>, Seq<char>>,
    glossary: Seq<GlossaryEntryView>,
    engine: Seq<char>,
    nows: Seq<Seq<char>>,
)
    requires
        run_wf(s),
        s.mode == TranslationMode::ManualEdit,
        all_accepted(s, evs, keys, texts, glossary, engine, nows),
    ensures
        ({
            let (s2, acts) = run_steps(s, evs, keys, texts, glossary, engine, nows);
            &&& run_wf(s2)
            &&& s2.mode == TranslationMode::ManualEdit
            &&& acts.len() == evs.len()
            &&& forall|k: int| 0 <= k < acts.len() ==> !(#[trigger] acts[k] is Translate)
        }),
    decreases evs.len(),
{
    if evs.len() > 0 {
        let t = evs.drop_last();
        assert forall|i: int| 0 <= i < t.len() implies accepts(
            #[trigger] run_steps(s, t.take(i), keys, texts, glossary, engine, nows).0,
            t[i],
        ) by {
            assert(t.take(i) =~= evs.take(i));
            assert(accepts(run_steps(s, evs.take(i), keys, texts, glossary, engine, nows).0, evs[i]));
        }
        lemma_manual_edit_run_never_asks_engine(s, t, keys, texts, glossary, engine, nows);
        let before = run_steps(s, t, keys, texts, glossary, engine, nows);
        let n = evs.len() - 1;
        assert(evs.take(n) =~= t);
        assert(accepts(run_steps(s, evs.take(n), keys, texts, glossary, engine, nows).0, evs[n]));
        lemma_step_keeps_wf(before.0, evs.last(), keys, texts, glossary, engine, nows[n]);
        lemma_manual_edit_never_asks_engine(before.0, evs.last(), keys, texts, glossary, engine, nows[n]);
        let acts = run_steps(s, evs, keys, texts, glossary, engine, nows).1;
        assert forall|k: int| 0 <= k < acts.len() implies !(#[trigger] acts[k] is Translate) by {
            if k < before.1.len() {
                assert(acts[k] == before.1[k]);
            }
        }
    }
}

/// In a whole overwriting run, whatever the events handed to it, every item
/// that it finishes with is an engine translation (where it started from
/// none or only such items).
pub proof fn lemma_overwrite_run_items_from_engine(
    s: RunView,
    evs: Seq<RunEventView>,
    keys: Map<(Seq<char>, Seq<char>), Seq<char>>,
    texts: Map<Seq<char>, Seq<char>>,
    glossary: Seq<GlossaryEntryView>,
    engine: Seq<char>,
    nows: Seq<Seq<char>>,
)
    requires
        run_wf(s),
        s.mode == TranslationMode::OverwriteUpdate,
        forall|k: int| 0 <= k < s.results.len() ==> (#[trigger] s.results[k]).source
            == TranslationSource::API,
        all_accepted(s, evs, keys, texts, glossary, engine, nows),
    ensures
        ({
            let (s2, acts) = run_steps(s, evs, keys, texts, glossary, engine, nows);
            &&& run_wf(s2)
            &&& s2.mode == TranslationMode::OverwriteUpdate
            &&& forall|k: int| 0 <= k < s2.results.len() ==> (#[trigger] s2.results[k]).source
                == TranslationSource::API
            &&& acts.len() == evs.len()
            &&& forall|k: int, j: int|
                0 <= k < acts.len() && (#[trigger] acts[k]) is Finished && 0 <= j
                    < acts[k]->Finished_0.len() ==> (#[trigger] acts[k]->Finished_0[j]).source
                    == TranslationSource::API
        }),
    decreases evs.len(),
{
    if evs.len() > 0 {
        let t = evs.drop_last();
        assert forall|i: int| 0 <= i < t.len() implies accepts(
            #[trigger] run_steps(s, t.take(i), keys, texts, glossary, engine, nows).0,
            t[i],
        ) by {
            assert(t.take(i) =~= evs.take(i));
            assert(accepts(run_steps(s, evs.take(i), keys, texts, glossary, engine, nows).0, evs[i]));
        }
        lemma_overwrite_run_items_from_engine(s, t, keys, texts, glossary, engine, nows);
        let before = run_steps(s, t, keys, texts, glossary, engine, nows);
        let n = evs.len() - 1;
        assert(evs.take(n) =~= t);
        assert(accepts(run_steps(s, evs.take(n), keys, texts, glossary, engine, nows).0, evs[n]));
        lemma_step_keeps_wf(before.0, evs.last(), keys, texts, glossary, engine, nows[n]);
        let (s2, a) = run_step(before.0, evs.last(), keys, texts, glossary, engine, nows[n]);
        if a is EntryDone {
            lemma_overwrite_takes_engine_answer(before.0, evs.last(), keys, texts, glossary, engine, nows[n]);
        }
        assert forall|k: int| 0 <= k < s2.results.len() implies (#[trigger] s2.results[k]).source
            == TranslationSource::API by {
            if k < before.0.results.len() {
                assert(s2.results[k] == before.0.results[k]);
            }
        }
        let acts = run_steps(s, evs, keys, texts, glossary, engine, nows).1;
        assert forall|k: int, j: int|
            0 <= k < acts.len() && (#[trigger] acts[k]) is Finished && 0 <= j
                < acts[k]->Finished_0.len() implies (#[trigger] acts[k]->Finished_0[j]).source
                == TranslationSource::API by {
            if k < before.1.len() {
                assert(acts[k] == before.1[k]);
            } else {
                assert(acts[k] == a);
                assert(acts[k]->Finished_0 == before.0.results);
                assert(before.0.results[j].source == TranslationSource::API);
            }
        }
    }
}

/// An item that a run gives: not edited, and not marked as a manual edit.
pub open spec fn run_made(i: TranslationItemView) -> bool {
    !i.is_edited && i.source != TranslationSource::Manual
}

/// The items of a run so far, and the one under way, are all run-made.
pub open spec fn all_run_made(s: RunView) -> bool {
    &&& forall|k: int| 0 <= k < s.results.len() ==> run_made(#[trigger] s.results[k])
    &&& s.current matches Some(i) ==> run_made(i)
}

/// A run never marks an item as edited or as a manual edit, in any mode and
/// whatever the events handed to it: those marks are left to the user.
pub proof fn lemma_run_items_not_manual(
    s: RunView,
    evs: Seq<RunEventView>,
    keys: Map<(Seq<char>, Seq<char>), Seq<char>>,
    texts: Map<Seq<char>, Seq<char>>,
    glossary: Seq<GlossaryEntryView>,
    engine: Seq<char>,
    nows: Seq<Seq<char>>,
)
    requires
        run_wf(s),
        all_run_made(s),
        all_accepted(s, evs, keys, texts, glossary, engine, nows),
    ensures
        ({
            let (s2, acts) = run_steps(s, evs, keys, texts, glossary, engine, nows);
            &&& run_wf(s2)
            &&& all_run_made(s2)
            &&& acts.len() == evs.len()
            &&& forall|k: int, j: int|
                0 <= k < acts.len() && (#[trigger] acts[k]) is Finished && 0 <= j
                    < acts[k]->Finished_0.len() ==> run_made(#[trigger] acts[k]->Finished_0[j])
        }),
    decreases evs.len(),
{
    if evs.len() > 0 {
        let t = evs.drop_last();
        assert forall|i: int| 0 <= i < t.len() implies accepts(
            #[trigger] run_steps(s, t.take(i), keys, texts, glossary, engine, nows).0,
            t[i],
        ) by {
            assert(t.take(i) =~= evs.take(i));
            assert(accepts(run_steps(s, evs.take(i), keys, texts, glossary, engine, nows).0, evs[i]));
        }
        lemma_run_items_not_manual(s, t, keys, texts, glossary, engine, nows);
        let before = run_steps(s, t, keys, texts, glossary, engine, nows);
        let n = evs.len() - 1;
        assert(evs.take(n) =~= t);
        assert(accepts(run_steps(s, evs.take(n), keys, texts, glossary, engine, nows).0, evs[n]));
        lemma_step_keeps_wf(before.0, evs.last(), keys, texts, glossary, engine, nows[n]);
        let b = before.0;
        let (s2, a) = run_step(b, evs.last(), keys, texts, glossary, engine, nows[n]);
        assert forall|k: int| 0 <= k < s2.results.len() implies run_made(#[trigger] s2.results[k]) by {
            if k < b.results.len() {
                assert(s2.results[k] == b.results[k]);
            }
        }
        let acts = run_steps(s, evs, keys, texts, glossary, engine, nows).1;
        assert forall|k: int, j: int|
            0 <= k < acts.len() && (#[trigger] acts[k]) is Finished && 0 <= j
                < acts[k]->Finished_0.len() implies run_made(#[trigger] acts[k]->Finished_0[j]) by {
            if k < before.1.len() {
                assert(acts[k] == before.1[k]);
            } else {
                assert(acts[k] == a);
                assert(acts[k]->Finished_0 == b.results);
                assert(run_made(b.results[j]));
            }
        }
    }
}

/// The texts that the actions ask the engine to translate, in order.
pub open spec fn requested_texts(acts: Seq<RunActionView>) -> Seq<Seq<char>>
    decreases acts.len(),
{
    if acts.len() == 0 {
        seq![]
    } else {
        requested_texts(acts.drop_last()) + match acts.last() {
            RunActionView::Translate { text, .. } => seq![text],
            _ => seq![],
        }
    }
}

/// The engine's answers among the events, in order.
pub open spec fn engine_answers(evs: Seq<RunEventView>) -> Seq<Seq<char>>
    decreases evs.len(),
{
    if evs.len() == 0 {
        seq![]
    } else {
        engine_answers(evs.drop_last()) + match evs.last() {
            RunEventView::Translation(Ok(t)) => seq![t],
            _ => seq![],
        }
    }
}

/// The glossary-applied texts of the first `n` entries of a run.
pub open spec fn entry_requests(s: RunView, glossary: Seq<GlossaryEntryView>, n: int) -> Seq<
    Seq<char>,
> {
    Seq::new(
        n as nat,
        |k: int| glossary_applied(glossary, s.entries[k].source_text, s.source_lang, s.target_lang),
    )
}

/// A run that has not started.
pub open spec fn is_fresh(s: RunView) -> bool {
    s.next == 0 && s.results.len() == 0 && s.current is None && s.stage == RunStage::Ready
}

/// The items an overwriting run finishes with: one per entry, the i-th the
/// engine's i-th answer, after exactly one request per entry, in order.
pub open spec fn overwrite_finish_ok(
    s0: RunView,
    glossary: Seq<GlossaryEntryView>,
    items: Seq<TranslationItemView>,
    acts: Seq<RunActionView>,
    evs: Seq<RunEventView>,
) -> bool {
    &&& items.len() == s0.entries.len()
    &&& requested_texts(acts) == entry_requests(s0, glossary, s0.entries.len() as int)
    &&& engine_answers(evs).len() == s0.entries.len()
    &&& forall|i: int|
        0 <= i < items.len() ==> (#[trigger] items[i]).translated_text == engine_answers(evs)[i]
            && items[i].source == TranslationSource::API
}

/// What holds along an overwriting run started fresh from `s0`.
pub open spec fn overwrite_inv(
    s0: RunView,
    glossary: Seq<GlossaryEntryView>,
    s: RunView,
    acts: Seq<RunActionView>,
    evs: Seq<RunEventView>,
) -> bool {
    &&& s.entries == s0.entries
    &&& s.source_lang == s0.source_lang
    &&& s.target_lang == s0.target_lang
    &&& s.mode == TranslationMode::OverwriteUpdate
    &&& s.stage != RunStage::Finished ==> {
        &&& engine_answers(evs).len() == s.next
        &&& requested_texts(acts) == entry_requests(
            s0,
            glossary,
            if s.stage == RunStage::AwaitingTranslation {
                s.next + 1
            } else {
                s.next
            },
        )
        &&& forall|k: int|
            0 <= k < s.next ==> (#[trigger] s.results[k]).translated_text == engine_answers(evs)[k]
                && s.results[k].source == TranslationSource::API
        &&& forall|k: int| 0 <= k < acts.len() ==> !((#[trigger] acts[k]) is Finished)
    }
    &&& forall|k: int|
        0 <= k < acts.len() && (#[trigger] acts[k]) is Finished ==> k == acts.len() - 1
            && overwrite_finish_ok(s0, glossary, acts[k]->Finished_0, acts, evs)
}

/// One step keeps what holds along an overwriting run.
proof fn lemma_overwrite_step(
    s0: RunView,
    b: RunView,
    acts: Seq<RunActionView>,
    evs: Seq<RunEventView>,
    ev: RunEventView,
    keys: Map<(Seq<char>, Seq<char>), Seq<char>>,
    texts: Map<Seq<char>, Seq<char>>,
    glossary: Seq<GlossaryEntryView>,
    engine: Seq<char>,
    now: Seq<char>,
)
    requires
        run_wf(b),
        accepts(b, ev),
        overwrite_inv(s0, glossary, b, acts, evs),
    ensures
        ({
            let (s2, a) = run_step(b, ev, keys, texts, glossary, engine, now);
            overwrite_inv(s0, glossary, s2, acts.push(a), evs.push(ev))
        }),
{
    let (s2, a) = run_step(b, ev, keys, texts, glossary, engine, now);
    let acts2 = acts.push(a);
    let evs2 = evs.push(ev);
    assert(acts2.drop_last() =~= acts);
    assert(evs2.drop_last() =~= evs);
    assert(acts2.last() == a);
    assert(evs2.last() == ev);
    let ans = engine_answers(evs);
    let ans2 = engine_answers(evs2);
    let n = b.next;
    assert(b.stage != RunStage::Finished);
    if !(a is Translate) {
        assert(requested_texts(acts2) =~= requested_texts(acts));
    }
    if !(ev matches RunEventView::Translation(Ok(_))) {
        assert(ans2 =~= ans);
    }
    match ev {
        RunEventView::Proceed => {
            if n >= b.entries.len() {
                assert(s2.stage == RunStage::Finished);
                assert(a == RunActionView::Finished(b.results));
                assert forall|k: int| 0 <= k < acts2.len() && (#[trigger] acts2[k]) is Finished implies k
                    == acts2.len() - 1 by {
                    if k < acts.len() {
                        assert(acts2[k] == acts[k]);
                    }
                }
                assert(acts2[acts2.len() - 1] == a);
                assert(overwrite_finish_ok(s0, glossary, b.results, acts2, evs2));
            } else {
                let e = b.entries[n];
                let i = local_item(e, glossary, b.source_lang, b.target_lang, keys, texts);
                if !asks_history(i) {
                    assert(asks_engine(i, b.mode));
                    assert(requested_texts(acts2) =~= requested_texts(acts).push(
                        glossary_applied(glossary, e.source_text, b.source_lang, b.target_lang),
                    ));
                    assert(entry_requests(s0, glossary, n + 1) =~= entry_requests(s0, glossary, n).push(
                        glossary_applied(glossary, e.source_text, b.source_lang, b.target_lang),
                    ));
                }
                assert forall|k: int| 0 <= k < acts2.len() implies !((#[trigger] acts2[k]) is Finished) by {
                    if k < acts.len() {
                        assert(acts2[k] == acts[k]);
                    }
                }
            }
        },
        RunEventView::History(h) => {
            let i = with_history(b.current->0, h);
            assert(asks_engine(i, b.mode));
            let e = b.entries[n];
            assert(requested_texts(acts2) =~= requested_texts(acts).push(
                glossary_applied(glossary, e.source_text, b.source_lang, b.target_lang),
            ));
            assert(entry_requests(s0, glossary, n + 1) =~= entry_requests(s0, glossary, n).push(
                glossary_applied(glossary, e.source_text, b.source_lang, b.target_lang),
            ));
            assert forall|k: int| 0 <= k < acts2.len() implies !((#[trigger] acts2[k]) is Finished) by {
                if k < acts.len() {
                    assert(acts2[k] == acts[k]);
                }
            }
        },
        RunEventView::Translation(Ok(t)) => {
            assert(ans2 =~= ans.push(t));
            assert(requested_texts(acts2) =~= requested_texts(acts));
            assert forall|k: int| 0 <= k < s2.next implies (#[trigger] s2.results[k]).translated_text
                == ans2[k] && s2.results[k].source == TranslationSource::API by {
                if k < n {
                    assert(s2.results[k] == b.results[k]);
                    assert(ans2[k] == ans[k]);
                }
            }
            assert forall|k: int| 0 <= k < acts2.len() implies !((#[trigger] acts2[k]) is Finished) by {
                if k < acts.len() {
                    assert(acts2[k] == acts[k]);
                }
            }
        },
        RunEventView::Translation(Err(_)) => {
            assert forall|k: int| 0 <= k < acts2.len() implies !((#[trigger] acts2[k]) is Finished) by {
                if k < acts.len() {
                    assert(acts2[k] == acts[k]);
                }
            }
        },
    }
}

/// A whole overwriting run, started fresh and handed any events it takes:
/// where it finishes with items, it asked the engine exactly once per entry,
/// in the order of the entries, each time for the entry's text with the
/// glossary applied, and the i-th item is the engine's i-th answer, as an
/// engine translation, whatever the game, the glossary or the history
/// offered.
pub proof fn lemma_overwrite_run_one_request_per_entry(
    s0: RunView,
    evs: Seq<RunEventView>,
    keys: Map<(Seq<char>, Seq<char>), Seq<char>>,
    texts: Map<Seq<char>, Seq<char>>,
    glossary: Seq<GlossaryEntryView>,
    engine: Seq<char>,
    nows: Seq<Seq<char>>,
)
    requires
        run_wf(s0),
        is_fresh(s0),
        s0.mode == TranslationMode::OverwriteUpdate,
        all_accepted(s0, evs, keys, texts, glossary, engine, nows),
    ensures
        ({
            let (s2, acts) = run_steps(s0, evs, keys, texts, glossary, engine, nows);
            &&& run_wf(s2)
            &&& overwrite_inv(s0, glossary, s2, acts, evs)
            &&& forall|k: int|
                0 <= k < acts.len() && (#[trigger] acts[k]) is Finished ==> overwrite_finish_ok(
                    s0,
                    glossary,
                    acts[k]->Finished_0,
                    acts,
                    evs,
                )
        }),
    decreases evs.len(),
{
    if evs.len() == 0 {
        assert(entry_requests(s0, glossary, 0) =~= Seq::<Seq<char>>::empty());
        assert(requested_texts(Seq::<RunActionView>::empty()) =~= Seq::<Seq<char>>::empty());
    } else {
        let t = evs.drop_last();
        assert forall|i: int| 0 <= i < t.len() implies accepts(
            #[trigger] run_steps(s0, t.take(i), keys, texts, glossary, engine, nows).0,
            t[i],
        ) by {
            assert(t.take(i) =~= evs.take(i));
            assert(accepts(run_steps(s0, evs.take(i), keys, texts, glossary, engine, nows).0, evs[i]));
        }
        lemma_overwrite_run_one_request_per_entry(s0, t, keys, texts, glossary, engine, nows);
        let before = run_steps(s0, t, keys, texts, glossary, engine, nows);
        let n = evs.len() - 1;
        assert(evs.take(n) =~= t);
        assert(accepts(run_steps(s0, evs.take(n), keys, texts, glossary, engine, nows).0, evs[n]));
        lemma_step_keeps_wf(before.0, evs.last(), keys, texts, glossary, engine, nows[n]);
        lemma_overwrite_step(
            s0,
            before.0,
            before.1,
            t,
            evs.last(),
            keys,
            texts,
            glossary,
            engine,
            nows[n],
        );
        assert(t.push(evs.last()) =~= evs);
    }
}

/// The search for an entry by section and key finds the first entry from
/// `i` on that has both, or reports that none has.
proof fn lemma_first_match_from(es: Seq<CfgEntryView>, section: Seq<char>, key: Seq<char>, i: int)
    requires
        0 <= i,
    ensures
        first_match_from(es, section, key, i) matches Some(m) ==> i <= m < es.len()
            && es[m].section == section && es[m].key == key && forall|j: int|
            i <= j < m ==> !(es[j].section == section && es[j].key == key),
        first_match_from(es, section, key, i) is None ==> forall|j: int|
            i <= j < es.len() ==> !(es[j].section == section && es[j].key == key),
    decreases es.len() - i,
{
    if i < es.len() && !(es[i].section == section && es[i].key == key) {
        lemma_first_match_from(es, section, key, i + 1);
    }
}

/// What a planned entry takes from the target-language file: the value of
/// the first entry of that file whose section and key are both the entry's,
/// and nothing when no entry of it has both (or there is no such file). Its
/// section, key and source text are the source entry's own.
pub proof fn lemma_planned_entry_existing(e: CfgEntryView, target: Option<CfgFileView>)
    ensures
        ({
            let p = planned_entry(e, target);
            &&& p.section == e.section && p.key == e.key && p.source_text == e.value
            &&& target is None ==> p.existing is None
            &&& target matches Some(t) ==> (p.existing matches Some(v) ==> exists|j: int|
                0 <= j < t.entries.len() && (#[trigger] t.entries[j]).section == e.section
                    && t.entries[j].key == e.key && t.entries[j].value == v && forall|k: int|
                    0 <= k < j ==> !((#[trigger] t.entries[k]).section == e.section
                        && t.entries[k].key == e.key))
            &&& target matches Some(t) ==> (p.existing is None <==> forall|j: int|
                0 <= j < t.entries.len() ==> !((#[trigger] t.entries[j]).section == e.section
                    && t.entries[j].key == e.key))
        }),
{
    if let Some(t) = target {
        lemma_first_match_from(t.entries, e.section, e.key, 0);
        if let Some(m) = first_match_from(t.entries, e.section, e.key, 0) {
            assert(t.entries[m].section == e.section && t.entries[m].key == e.key);
        }
    }
}

/// The file that `last_target` names has the language and the name asked
/// for.
proof fn lemma_last_target(fs: Seq<CfgFileView>, names: Seq<Seq<char>>, lang: Seq<char>, name: Seq<char>)
    requires
        names.len() == fs.len(),
    ensures
        last_target(fs, names, lang, name) matches Some(t) ==> 0 <= t < fs.len()
            && fs[t].language_code == lang && names[t] == name,
    decreases fs.len(),
{
    if fs.len() > 0 && !(fs.last().language_code == lang && names[fs.len() - 1] == name) {
        lemma_last_target(fs.drop_last(), names.drop_last(), lang, name);
        assert forall|t: int| 0 <= t < fs.len() - 1 implies names.drop_last()[t] == names[t] by {}
        assert(last_target(fs.drop_last(), names, lang, name) == last_target(
            fs.drop_last(),
            names.drop_last(),
            lang,
            name,
        )) by {
            lemma_last_target_prefix(fs.drop_last(), names, names.drop_last(), lang, name);
        }
    }
}

/// `last_target` reads only the names of the files it looks at.
proof fn lemma_last_target_prefix(
    fs: Seq<CfgFileView>,
    a: Seq<Seq<char>>,
    b: Seq<Seq<char>>,
    lang: Seq<char>,
    name: Seq<char>,
)
    requires
        fs.len() <= a.len(),
        fs.len() <= b.len(),
        forall|t: int| 0 <= t < fs.len() ==> a[t] == b[t],
    ensures
        last_target(fs, a, lang, name) == last_target(fs, b, lang, name),
    decreases fs.len(),
{
    if fs.len() > 0 {
        lemma_last_target_prefix(fs.drop_last(), a, b, lang, name);
    }
}

/// Every planned entry of a run comes from a source-language file; a value
/// it already has is that of an entry with the same section and the same
/// key in a target-language file of the same name.
pub proof fn lemma_planned_existing_from_target(
    fs: Seq<CfgFileView>,
    names: Seq<Seq<char>>,
    src: Seq<char>,
    tgt: Seq<char>,
    n: int,
)
    requires
        names.len() == fs.len(),
        0 <= n <= fs.len(),
    ensures
        forall|x: int|
            0 <= x < planned_upto(fs, names, src, tgt, n).len() && (#[trigger] planned_upto(
                fs,
                names,
                src,
                tgt,
                n,
            )[x]).existing is Some ==> exists|f: int, ti: int, j: int|
                #![trigger names[f], fs[ti].entries[j]]
                0 <= f < n && fs[f].language_code == src && 0 <= ti < fs.len()
                    && fs[ti].language_code == tgt && names[ti] == names[f] && 0 <= j
                    < fs[ti].entries.len() && fs[ti].entries[j].section
                    == planned_upto(fs, names, src, tgt, n)[x].section && fs[ti].entries[j].key
                    == planned_upto(fs, names, src, tgt, n)[x].key && fs[ti].entries[j].value
                    == planned_upto(fs, names, src, tgt, n)[x].existing->0,
    decreases n,
{
    if n > 0 {
        lemma_planned_existing_from_target(fs, names, src, tgt, n - 1);
        let before = planned_upto(fs, names, src, tgt, n - 1);
        let all = planned_upto(fs, names, src, tgt, n);
        let f = fs[n - 1];
        if f.language_code == src {
            let target = target_of(fs, names, tgt, n - 1);
            lemma_last_target(fs, names, tgt, names[n - 1]);
            assert forall|x: int| 0 <= x < all.len() && (#[trigger] all[x]).existing is Some implies exists|
                ff: int,
                ti: int,
                j: int,
            |
                #![trigger names[ff], fs[ti].entries[j]]
                0 <= ff < n && fs[ff].language_code == src && 0 <= ti < fs.len()
                    && fs[ti].language_code == tgt && names[ti] == names[ff] && 0 <= j
                    < fs[ti].entries.len() && fs[ti].entries[j].section == all[x].section
                    && fs[ti].entries[j].key == all[x].key && fs[ti].entries[j].value
                    == all[x].existing->0 by {
                if x < before.len() {
                    assert(all[x] == before[x]);
                } else {
                    let e = f.entries[x - before.len()];
                    assert(all[x] == planned_entry(e, target));
                    lemma_planned_entry_existing(e, target);
                    let ti = last_target(fs, names, tgt, names[n - 1])->0;
                    let t = fs[ti];
                    let j = choose|j: int|
                        0 <= j < t.entries.len() && (#[trigger] t.entries[j]).section == e.section
                            && t.entries[j].key == e.key && t.entries[j].value == all[x].existing->0
                            && forall|k: int|
                            0 <= k < j ==> !((#[trigger] t.entries[k]).section == e.section
                                && t.entries[k].key == e.key);
                    assert(fs[ti].entries[j].section == all[x].section);
                    assert(names[n - 1] == names[ti]);
                }
            }
        } else {
            assert(all == before);
        }
    }
}

} // verus!

//! The decisions behind the application's commands: which engine key a run
//! needs, and what saving translations writes, into a mod folder or into a
//! copy of a mod archive.
use vstd::prelude::*;
use crate::models::cfg::{CfgEntry, CfgEntryView, CfgFile, CfgFileView, copy_strings, entry_views};
use crate::models::enums::TranslationEngineType;
use crate::models::mod_info::ModInfo;
use crate::models::translation::{TranslationItem, TranslationItemView};
use crate::services::cfg_parser::{CfgParser, text_of_lines, write_lines};
use crate::services::mod_loader::{ModLoader, cfg_suffix, file_views, locale_dir, name_views, zip_root};
use crate::services::orchestrator::item_views;
use crate::services::glossary_service::opt_text;
use crate::text::{concat2, concat3, ends_with_text, has_prefix, has_suffix, owned, replace_all, replace_text, same_text, starts_with_text};

verus! {

broadcast use vstd::seq_lib::group_seq_properties;

/// The name under which an engine's API key is stored.
pub open spec fn engine_key_name(t: TranslationEngineType) -> Seq<char> {
    match t {
        TranslationEngineType::DeepL => "DeepL"@,
        TranslationEngineType::GoogleTranslate => "Google"@,
    }
}

/// The name under which an engine's API key is stored.
pub fn api_key_name(engine_type: TranslationEngineType) -> (r: String)
    ensures
        r@ == engine_key_name(engine_type),
{
    match engine_type {
        TranslationEngineType::DeepL => "DeepL".to_string(),
        TranslationEngineType::GoogleTranslate => "Google".to_string(),
    }
}

/// The error of a run whose engine has no stored API key.
pub fn missing_key_error(engine_type: TranslationEngineType) -> (r: String)
    ensures
        engine_type == TranslationEngineType::DeepL ==> r@ == "DeepL API key not found"@,
        engine_type == TranslationEngineType::GoogleTranslate ==> r@
            == "Google API key not found"@,
{
    match engine_type {
        TranslationEngineType::DeepL => "DeepL API key not found".to_string(),
        TranslationEngineType::GoogleTranslate => "Google API key not found".to_string(),
    }
}

/// The text a locale file is written as.
pub open spec fn written_text(f: CfgFileView) -> Seq<char> {
    text_of_lines(write_lines(f))
}

/// The position of the first item from `i` on for the given section and key.
pub open spec fn first_item_for(ts: Seq<TranslationItemView>, section: Seq<char>, key: Seq<char>, i: int) -> Option<int>
    decreases ts.len() - i,
{
    if i < 0 || i >= ts.len() {
        None
    } else if ts[i].section == section && ts[i].key == key {
        Some(i)
    } else {
        first_item_for(ts, section, key, i + 1)
    }
}

/// An entry takes the text of the first item for its section and key.
pub open spec fn folder_entry(e: CfgEntryView, ts: Seq<TranslationItemView>) -> CfgEntryView {
    match first_item_for(ts, e.section, e.key, 0) {
        Some(i) => CfgEntryView { value: ts[i].translated_text, ..e },
        None => e,
    }
}

/// Some item is for this entry.
pub open spec fn has_item(e: CfgEntryView, ts: Seq<TranslationItemView>) -> bool {
    first_item_for(ts, e.section, e.key, 0) is Some
}

/// Some entry of the file has an item.
pub open spec fn file_has_items(f: CfgFileView, ts: Seq<TranslationItemView>) -> bool {
    exists|k: int| 0 <= k < f.entries.len() && has_item(#[trigger] f.entries[k], ts)
}

/// A locale file with its translated entries, in the target language.
pub open spec fn translated_file(
    f: CfgFileView,
    path: Seq<char>,
    entries: Seq<CfgEntryView>,
    tgt: Seq<char>,
) -> CfgFileView {
    CfgFileView {
        file_path: path,
        language_code: tgt,
        entries,
        section_order: f.section_order,
        header_comments: f.header_comments,
    }
}

/// A file to be saved into a mod folder: which locale file it translates,
/// that file's path, and its text.
#[derive(Debug, Clone)]
pub struct PlannedFile {
    pub index: usize,
    pub file_path: String,
    pub content: String,
}

/// The position, path and text of planned files.
pub open spec fn planned_file_views(v: Seq<PlannedFile>) -> Seq<(int, Seq<char>, Seq<char>)> {
    v.map_values(|p: PlannedFile| (p.index as int, p.file_path@, p.content@))
}

/// The files of the first `n` locale files that some item translates, each
/// written in the target language with the first item of each entry.
pub open spec fn folder_plan(
    fs: Seq<CfgFileView>,
    ts: Seq<TranslationItemView>,
    tgt: Seq<char>,
    n: int,
) -> Seq<(int, Seq<char>, Seq<char>)>
    decreases n,
{
    if n <= 0 {
        Seq::empty()
    } else {
        let before = folder_plan(fs, ts, tgt, n - 1);
        let f = fs[n - 1];
        if file_has_items(f, ts) {
            before.push(
                (
                    n - 1,
                    f.file_path,
                    written_text(
                        translated_file(
                            f,
                            f.file_path,
                            f.entries.map_values(|e: CfgEntryView| folder_entry(e, ts)),
                            tgt,
                        ),
                    ),
                ),
            )
        } else {
            before
        }
    }
}

/// The position of the first item for a section and key.
fn find_item(ts: &Vec<TranslationItem>, section: &str, key: &str) -> (r: Option<usize>)
    ensures
        r matches Some(i) ==> i < ts@.len() && first_item_for(item_views(ts@), section@, key@, 0)
            == Some(i as int),
        r is None ==> first_item_for(item_views(ts@), section@, key@, 0) is None,
{
    let ghost tv = item_views(ts@);
    let mut i: usize = 0;
    while i < ts.len()
        invariant
            i <= ts@.len(),
            tv == item_views(ts@),
            first_item_for(tv, section@, key@, 0) == first_item_for(tv, section@, key@, i as int),
        decreases ts@.len() - i,
    {
        proof {
            assert(tv[i as int] == ts@[i as int]@);
        }
        if same_text(ts[i].section.as_str(), section) && same_text(ts[i].key.as_str(), key) {
            return Some(i);
        }
        i = i + 1;
    }
    None
}

/// The entries with the first item of each applied, and whether any entry
/// had one.
fn folder_entries(entries: &Vec<CfgEntry>, ts: &Vec<TranslationItem>) -> (r: (Vec<CfgEntry>, bool))
    ensures
        entry_views(r.0@) == entry_views(entries@).map_values(
            |e: CfgEntryView| folder_entry(e, item_views(ts@)),
        ),
        r.1 == exists|k: int|
            0 <= k < entries@.len() && has_item(#[trigger] entry_views(entries@)[k], item_views(ts@)),
{
    let ghost es = entry_views(entries@);
    let ghost tv = item_views(ts@);
    let mut out: Vec<CfgEntry> = Vec::new();
    let mut any = false;
    let mut k: usize = 0;
    while k < entries.len()
        invariant
            k <= entries@.len(),
            es == entry_views(entries@),
            tv == item_views(ts@),
            entry_views(out@) == es.take(k as int).map_values(|e: CfgEntryView| folder_entry(e, tv)),
            any == exists|j: int| 0 <= j < k && has_item(#[trigger] es[j], tv),
        decreases entries@.len() - k,
    {
        let e = &entries[k];
        proof {
            assert(es[k as int] == e@);
        }
        let mut updated = e.copied();
        match find_item(ts, e.section.as_str(), e.key.as_str()) {
            Some(i) => {
                proof {
                    assert(tv[i as int] == ts@[i as int]@);
                }
                updated.value = ts[i].translated_text.clone();
                any = true;
            },
            None => {},
        }
        let ghost before = out@;
        out.push(updated);
        proof {
            assert(entry_views(out@) =~= entry_views(before).push(folder_entry(e@, tv)));
            assert(es.take(k + 1).map_values(|e: CfgEntryView| folder_entry(e, tv)) =~= es.take(
                k as int,
            ).map_values(|e: CfgEntryView| folder_entry(e, tv)).push(folder_entry(e@, tv)));
        }
        k = k + 1;
    }
    proof {
        assert(es.take(k as int) =~= es);
    }
    (out, any)
}

/// A file with the same sections and header as `f` and the given path,
/// language and entries.
fn file_like(f: &CfgFile, path: String, lang: &str, entries: Vec<CfgEntry>) -> (r: CfgFile)
    ensures
        r@ == translated_file(f@, path@, entry_views(entries@), lang@),
{
    CfgFile {
        file_path: path,
        language_code: owned(lang),
        entries,
        section_order: copy_strings(&f.section_order),
        header_comments: copy_strings(&f.header_comments),
    }
}

/// What saving translations into a mod folder writes: for each locale file
/// that some item translates, in order, that file written in the target
/// language with the first item of each entry. Saving is refused when there
/// are locale files and no item translates any of them.
pub fn plan_folder_save(mod_info: &ModInfo, translations: &Vec<TranslationItem>, target_lang: &str) -> (r:
    Result<Vec<PlannedFile>, String>)
    ensures
        ({
            let fs = file_views(mod_info.locale_files@);
            let plan = folder_plan(fs, item_views(translations@), target_lang@, fs.len() as int);
            &&& r is Err <==> (fs.len() > 0 && plan.len() == 0)
            &&& r matches Ok(v) ==> planned_file_views(v@) == plan
            &&& r matches Err(e) ==> e@
                == "No translations were found to save in any of the locale files."@
        }),
{
    let files = &mod_info.locale_files;
    let ghost fs = file_views(files@);
    let ghost tv = item_views(translations@);
    let mut out: Vec<PlannedFile> = Vec::new();
    let mut i: usize = 0;
    while i < files.len()
        invariant
            i <= files@.len(),
            fs == file_views(files@),
            tv == item_views(translations@),
            planned_file_views(out@) == folder_plan(fs, tv, target_lang@, i as int),
        decreases files@.len() - i,
    {
        let f = &files[i];
        proof {
            assert(fs[i as int] == f@);
        }
        let (entries, any) = folder_entries(&f.entries, translations);
        if any {
            let cfg = file_like(f, f.file_path.clone(), target_lang, entries);
            let content = CfgParser::write(&cfg);
            let ghost before = out@;
            out.push(PlannedFile { index: i, file_path: f.file_path.clone(), content });
            proof {
                assert(planned_file_views(out@) =~= planned_file_views(before).push(
                    (i as int, f@.file_path, content@),
                ));
            }
        }
        i = i + 1;
    }
    if files.len() > 0 && out.len() == 0 {
        return Err("No translations were found to save in any of the locale files.".to_string());
    }
    Ok(out)
}

/// The name under which the items of a save are looked up: `section.key`.
pub open spec fn full_key(section: Seq<char>, key: Seq<char>) -> Seq<char> {
    section + seq!['.'] + key
}

/// The position of the last item whose full key is `k`: the one a map from
/// full keys to items, filled in order, keeps.
pub open spec fn last_item_keyed(ts: Seq<TranslationItemView>, k: Seq<char>) -> Option<int>
    decreases ts.len(),
{
    if ts.len() == 0 {
        None
    } else if full_key(ts.last().section, ts.last().key) == k {
        Some(ts.len() - 1)
    } else {
        last_item_keyed(ts.drop_last(), k)
    }
}

/// An entry takes the text of the last item with the same full key.
pub open spec fn zip_entry(e: CfgEntryView, ts: Seq<TranslationItemView>) -> CfgEntryView {
    match last_item_keyed(ts, full_key(e.section, e.key)) {
        Some(i) => CfgEntryView { value: ts[i].translated_text, ..e },
        None => e,
    }
}

/// The language of a mod's first locale file, or English.
pub open spec fn mod_source_lang(fs: Seq<CfgFileView>) -> Seq<char> {
    if fs.len() > 0 {
        fs[0].language_code
    } else {
        "en"@
    }
}

/// The folder of a language's locale files in an archive.
pub open spec fn lang_prefix(root: Seq<char>, lang: Seq<char>) -> Seq<char> {
    root + locale_dir() + lang + seq!['/']
}

/// The position of the first locale file with the given path.
pub open spec fn first_file_at(fs: Seq<CfgFileView>, path: Seq<char>, i: int) -> Option<int>
    decreases fs.len() - i,
{
    if i < 0 || i >= fs.len() {
        None
    } else if fs[i].file_path == path {
        Some(i)
    } else {
        first_file_at(fs, path, i + 1)
    }
}

/// One write into the saved archive.
#[derive(Debug, Clone)]
pub enum ZipSaveStep {
    /// Copy the entry at this position of the source archive, under its name.
    Copy { index: usize, name: String },
    /// Write this text under this name.
    Translated { name: String, content: String },
}

/// The texts of a [`ZipSaveStep`].
pub enum ZipSaveStepView {
    Copy { index: int, name: Seq<char> },
    Translated { name: Seq<char>, content: Seq<char> },
}

/// The texts of save steps.
pub open spec fn zip_step_views(v: Seq<ZipSaveStep>) -> Seq<ZipSaveStepView> {
    v.map_values(
        |s: ZipSaveStep|
            match s {
                ZipSaveStep::Copy { index, name } => ZipSaveStepView::Copy {
                    index: index as int,
                    name: name@,
                },
                ZipSaveStep::Translated { name, content } => ZipSaveStepView::Translated {
                    name: name@,
                    content: content@,
                },
            },
    )
}

/// The position in the mod's locale files of the file that an archive entry
/// holds, when the entry is a `.cfg` file in the source language's folder.
pub open spec fn source_cfg_file(name: Seq<char>, fs: Seq<CfgFileView>, root: Seq<char>) -> Option<
    int,
> {
    let sp = lang_prefix(root, mod_source_lang(fs));
    if has_prefix(name, sp) && has_suffix(name, cfg_suffix()) {
        first_file_at(fs, name, 0)
    } else {
        None
    }
}

/// The name under which an entry's translation is written: the same path in
/// the target language's folder.
pub open spec fn translation_target(
    name: Seq<char>,
    fs: Seq<CfgFileView>,
    tgt: Seq<char>,
    root: Seq<char>,
) -> Option<Seq<char>> {
    match source_cfg_file(name, fs, root) {
        Some(_) => Some(
            replace_all(name, lang_prefix(root, mod_source_lang(fs)), lang_prefix(root, tgt)),
        ),
        None => None,
    }
}

/// The translated file written for an entry that holds one of the mod's
/// source-language locale files: its entries with the translations applied,
/// in the target language, under the target name.
pub open spec fn translated_step(
    name: Seq<char>,
    fs: Seq<CfgFileView>,
    ts: Seq<TranslationItemView>,
    tgt: Seq<char>,
    root: Seq<char>,
) -> Option<ZipSaveStepView> {
    match source_cfg_file(name, fs, root) {
        Some(i) => {
            let f = fs[i];
            Some(
                ZipSaveStepView::Translated {
                    name: replace_all(
                        name,
                        lang_prefix(root, mod_source_lang(fs)),
                        lang_prefix(root, tgt),
                    ),
                    content: written_text(
                        translated_file(
                            f,
                            name,
                            f.entries.map_values(|e: CfgEntryView| zip_entry(e, ts)),
                            tgt,
                        ),
                    ),
                },
            )
        },
        None => None,
    }
}

/// Whether an entry's name is the name that a translation is written under,
/// so that the translation takes the entry's place.
pub open spec fn is_replaced(
    name: Seq<char>,
    names: Seq<Seq<char>>,
    fs: Seq<CfgFileView>,
    tgt: Seq<char>,
    root: Seq<char>,
) -> bool {
    exists|j: int| 0 <= j < names.len() && #[trigger] translation_target(names[j], fs, tgt, root) == Some(name)
}

/// What is written for one entry of the archive: a copy of it, unless a
/// translation takes its place, followed by its translation where it is a
/// source-language locale file.
pub open spec fn entry_steps(
    index: int,
    names: Seq<Seq<char>>,
    fs: Seq<CfgFileView>,
    ts: Seq<TranslationItemView>,
    tgt: Seq<char>,
    root: Seq<char>,
) -> Seq<ZipSaveStepView> {
    let name = names[index];
    let copy = if is_replaced(name, names, fs, tgt, root) {
        Seq::empty()
    } else {
        seq![ZipSaveStepView::Copy { index, name }]
    };
    match translated_step(name, fs, ts, tgt, root) {
        Some(s) => copy.push(s),
        None => copy,
    }
}

/// The steps for the first `i` entries of the archive, in order.
pub open spec fn zip_plan(
    names: Seq<Seq<char>>,
    fs: Seq<CfgFileView>,
    ts: Seq<TranslationItemView>,
    tgt: Seq<char>,
    root: Seq<char>,
    i: int,
) -> Seq<ZipSaveStepView>
    decreases i,
{
    if i <= 0 || i > names.len() {
        Seq::empty()
    } else {
        zip_plan(names, fs, ts, tgt, root, i - 1) + entry_steps(
            i - 1,
            names,
            fs,
            ts,
            tgt,
            root,
        )
    }
}

/// The position of the last item with a given full key.
fn find_last_keyed(ts: &Vec<TranslationItem>, k: &str) -> (r: Option<usize>)
    ensures
        r matches Some(i) ==> i < ts@.len() && last_item_keyed(item_views(ts@), k@) == Some(
            i as int,
        ),
        r is None ==> last_item_keyed(item_views(ts@), k@) is None,
{
    let ghost tv = item_views(ts@);
    let mut i: usize = ts.len();
    while i > 0
        invariant
            i <= ts@.len(),
            tv == item_views(ts@),
            last_item_keyed(tv, k@) == last_item_keyed(tv.take(i as int), k@),
        decreases i,
    {
        let j = i - 1;
        proof {
            reveal_strlit(".");
            assert("."@ =~= seq!['.']);
        }
        let fk = concat3(ts[j].section.as_str(), ".", ts[j].key.as_str());
        proof {
            let t = tv.take(i as int);
            assert(t.last() == ts@[j as int]@);
            assert(t.drop_last() =~= tv.take(j as int));
        }
        if same_text(fk.as_str(), k) {
            return Some(j);
        }
        i = j;
    }
    proof {
        assert(tv.take(0) =~= Seq::<TranslationItemView>::empty());
    }
    None
}

/// The entries with the last item of each full key applied.
fn zip_entries(entries: &Vec<CfgEntry>, ts: &Vec<TranslationItem>) -> (r: Vec<CfgEntry>)
    ensures
        entry_views(r@) == entry_views(entries@).map_values(
            |e: CfgEntryView| zip_entry(e, item_views(ts@)),
        ),
{
    let ghost es = entry_views(entries@);
    let ghost tv = item_views(ts@);
    let mut out: Vec<CfgEntry> = Vec::new();
    let mut k: usize = 0;
    while k < entries.len()
        invariant
            k <= entries@.len(),
            es == entry_views(entries@),
            tv == item_views(ts@),
            entry_views(out@) == es.take(k as int).map_values(|e: CfgEntryView| zip_entry(e, tv)),
        decreases entries@.len() - k,
    {
        let e = &entries[k];
        proof {
            assert(es[k as int] == e@);
            reveal_strlit(".");
            assert("."@ =~= seq!['.']);
        }
        let fk = concat3(e.section.as_str(), ".", e.key.as_str());
        let mut updated = e.copied();
        match find_last_keyed(ts, fk.as_str()) {
            Some(i) => {
                proof {
                    assert(tv[i as int] == ts@[i as int]@);
                }
                updated.value = ts[i].translated_text.clone();
            },
            None => {},
        }
        let ghost before = out@;
        out.push(updated);
        proof {
            assert(entry_views(out@) =~= entry_views(before).push(zip_entry(e@, tv)));
            assert(es.take(k + 1).map_values(|e: CfgEntryView| zip_entry(e, tv)) =~= es.take(
                k as int,
            ).map_values(|e: CfgEntryView| zip_entry(e, tv)).push(zip_entry(e@, tv)));
        }
        k = k + 1;
    }
    proof {
        assert(es.take(k as int) =~= es);
    }
    out
}

/// The position of the first locale file with the given path.
fn find_file_at(files: &Vec<CfgFile>, path: &str) -> (r: Option<usize>)
    ensures
        r matches Some(i) ==> i < files@.len() && first_file_at(file_views(files@), path@, 0)
            == Some(i as int),
        r is None ==> first_file_at(file_views(files@), path@, 0) is None,
{
    let ghost fs = file_views(files@);
    let mut i: usize = 0;
    while i < files.len()
        invariant
            i <= files@.len(),
            fs == file_views(files@),
            first_file_at(fs, path@, 0) == first_file_at(fs, path@, i as int),
        decreases files@.len() - i,
    {
        proof {
            assert(fs[i as int] == files@[i as int]@);
        }
        if same_text(files[i].file_path.as_str(), path) {
            return Some(i);
        }
        i = i + 1;
    }
    None
}

/// The folder of a language's locale files in an archive.
fn lang_prefix_text(root: &str, lang: &str) -> (r: String)
    ensures
        r@ == lang_prefix(root@, lang@),
{
    proof {
        reveal_strlit("locale/");
        assert("locale/"@ =~= locale_dir());
        reveal_strlit("/");
        assert("/"@ =~= seq!['/']);
    }
    let a = concat3(root, "locale/", lang);
    concat2(a.as_str(), "/")
}

/// A position held as an integer.
pub open spec fn opt_index(o: Option<usize>) -> Option<int> {
    match o {
        Some(k) => Some(k as int),
        None => None,
    }
}

/// What saving translations into a copy of the mod's archive writes (an
/// archive of at least one entry, whose first entry names the mod's folder):
/// for each entry in order, a copy of it unless a translation is written
/// under its name, then, where it is one of the mod's source-language locale
/// files, its translation in the target language's folder.
pub fn plan_zip_save(
    mod_info: &ModInfo,
    translations: &Vec<TranslationItem>,
    target_lang: &str,
    entry_names: &Vec<String>,
) -> (r: Vec<ZipSaveStep>)
    requires
        entry_names@.len() > 0,
    ensures
        zip_step_views(r@) == zip_plan(
            name_views(entry_names@),
            file_views(mod_info.locale_files@),
            item_views(translations@),
            target_lang@,
            zip_root(entry_names@[0]@),
            entry_names@.len() as int,
        ),
{
    let files = &mod_info.locale_files;
    let ghost fs = file_views(files@);
    let ghost tv = item_views(translations@);
    let root = ModLoader::zip_root_folder(entry_names[0].as_str());
    let source_lang = if files.len() > 0 {
        proof {
            assert(fs[0] == files@[0]@);
        }
        files[0].language_code.clone()
    } else {
        "en".to_string()
    };
    let sp = lang_prefix_text(root.as_str(), source_lang.as_str());
    let tp = lang_prefix_text(root.as_str(), target_lang);
    proof {
        reveal_strlit(".cfg");
        assert(".cfg"@ =~= cfg_suffix());
        lemma_lang_prefix_nonempty(root@, mod_source_lang(fs));
    }
    let ghost names = name_views(entry_names@);
    let n = entry_names.len();
    let mut sources: Vec<Option<usize>> = Vec::new();
    let mut targets: Vec<Option<String>> = Vec::new();
    let mut i: usize = 0;
    while i < n
        invariant
            n == entry_names@.len(),
            i <= n,
            fs == file_views(files@),
            names == name_views(entry_names@),
            sp@ == lang_prefix(root@, mod_source_lang(fs)),
            tp@ == lang_prefix(root@, target_lang@),
            sp@.len() > 0,
            ".cfg"@ == cfg_suffix(),
            sources@.len() == i,
            targets@.len() == i,
            forall|j: int|
                0 <= j < i ==> opt_index(#[trigger] sources@[j]) == source_cfg_file(
                    names[j],
                    fs,
                    root@,
                ),
            forall|j: int|
                0 <= j < i ==> opt_text(#[trigger] targets@[j]) == translation_target(
                    names[j],
                    fs,
                    target_lang@,
                    root@,
                ),
            forall|j: int| 0 <= j < i ==> ((#[trigger] sources@[j]) matches Some(k) ==> k < files@.len()),
        decreases n - i,
    {
        let name = &entry_names[i];
        proof {
            assert(names[i as int] == name@);
        }
        let is_source_cfg = starts_with_text(name.as_str(), sp.as_str()) && ends_with_text(
            name.as_str(),
            ".cfg",
        );
        let src = if is_source_cfg {
            find_file_at(files, name.as_str())
        } else {
            None
        };
        let target = match src {
            Some(_) => Some(replace_text(name.as_str(), sp.as_str(), tp.as_str())),
            None => None,
        };
        sources.push(src);
        targets.push(target);
        i = i + 1;
    }
    let mut out: Vec<ZipSaveStep> = Vec::new();
    let mut i: usize = 0;
    while i < n
        invariant
            n == entry_names@.len(),
            i <= n,
            fs == file_views(files@),
            tv == item_views(translations@),
            names == name_views(entry_names@),
            root@ == zip_root(entry_names@[0]@),
            sp@ == lang_prefix(root@, mod_source_lang(fs)),
            tp@ == lang_prefix(root@, target_lang@),
            sp@.len() > 0,
            sources@.len() == n,
            targets@.len() == n,
            forall|j: int|
                0 <= j < n ==> opt_index(#[trigger] sources@[j]) == source_cfg_file(
                    names[j],
                    fs,
                    root@,
                ),
            forall|j: int|
                0 <= j < n ==> opt_text(#[trigger] targets@[j]) == translation_target(
                    names[j],
                    fs,
                    target_lang@,
                    root@,
                ),
            forall|j: int| 0 <= j < n ==> ((#[trigger] sources@[j]) matches Some(k) ==> k < files@.len()),
            zip_step_views(out@) == zip_plan(names, fs, tv, target_lang@, root@, i as int),
        decreases n - i,
    {
        let name = &entry_names[i];
        proof {
            assert(names[i as int] == name@);
        }
        let mut replaced = false;
        let mut j: usize = 0;
        while j < n
            invariant
                n == entry_names@.len(),
                j <= n,
                targets@.len() == n,
                names == name_views(entry_names@),
                forall|k: int|
                    0 <= k < n ==> opt_text(#[trigger] targets@[k]) == translation_target(
                        names[k],
                        fs,
                        target_lang@,
                        root@,
                    ),
                replaced ==> is_replaced(name@, names, fs, target_lang@, root@),
                !replaced ==> forall|k: int|
                    0 <= k < j ==> translation_target(names[k], fs, target_lang@, root@) != Some(
                        name@,
                    ),
            decreases n - j,
        {
            match &targets[j] {
                Some(t) => {
                    if same_text(t.as_str(), name.as_str()) {
                        proof {
                            assert(opt_text(targets@[j as int]) == Some(name@));
                            assert(translation_target(names[j as int], fs, target_lang@, root@)
                                == Some(name@));
                        }
                        replaced = true;
                    }
                },
                None => {
                    proof {
                        assert(opt_text(targets@[j as int]) is None);
                    }
                },
            }
            j = j + 1;
        }
        let ghost before = out@;
        if !replaced {
            out.push(ZipSaveStep::Copy { index: i, name: name.clone() });
        }
        let ghost copied = out@;
        proof {
            assert(opt_index(sources@[i as int]) == source_cfg_file(names[i as int], fs, root@));
        }
        match sources[i] {
            Some(fi) => {
                let f = &files[fi];
                proof {
                    assert(fs[fi as int] == f@);
                }
                let entries = zip_entries(&f.entries, translations);
                let cfg = file_like(f, name.clone(), target_lang, entries);
                let content = CfgParser::write(&cfg);
                let target_name = replace_text(name.as_str(), sp.as_str(), tp.as_str());
                out.push(ZipSaveStep::Translated { name: target_name, content });
            },
            None => {},
        }
        proof {
            let es = entry_steps(i as int, names, fs, tv, target_lang@, root@);
            if !replaced {
                assert(!is_replaced(name@, names, fs, target_lang@, root@));
            }
            assert(zip_step_views(out@) =~= zip_step_views(before) + es);
            assert(zip_plan(names, fs, tv, target_lang@, root@, i + 1) == zip_plan(
                names,
                fs,
                tv,
                target_lang@,
                root@,
                i as int,
            ) + es);
        }
        i = i + 1;
    }
    out
}

/// A step of an entry stands in the steps of every longer prefix of the
/// archive.
proof fn lemma_zip_plan_holds_entry_steps(
    names: Seq<Seq<char>>,
    fs: Seq<CfgFileView>,
    ts: Seq<TranslationItemView>,
    tgt: Seq<char>,
    root: Seq<char>,
    i: int,
    k: int,
    x: ZipSaveStepView,
)
    requires
        0 <= i < k <= names.len(),
        entry_steps(i, names, fs, ts, tgt, root).contains(x),
    ensures
        zip_plan(names, fs, ts, tgt, root, k).contains(x),
    decreases k,
{
    let prev = zip_plan(names, fs, ts, tgt, root, k - 1);
    let es = entry_steps(k - 1, names, fs, ts, tgt, root);
    assert(zip_plan(names, fs, ts, tgt, root, k) == prev + es);
    if k == i + 1 {
        let m = choose|m: int| 0 <= m < es.len() && es[m] == x;
        assert((prev + es)[prev.len() + m] == x);
    } else {
        lemma_zip_plan_holds_entry_steps(names, fs, ts, tgt, root, i, k - 1, x);
        let m = choose|m: int| 0 <= m < prev.len() && prev[m] == x;
        assert((prev + es)[m] == x);
    }
}

/// Saving into an archive copies every entry of the source archive under its
/// own name, unless a translation is written under that name, and writes the
/// translation of every source-language locale file that it holds.
pub proof fn lemma_zip_save_keeps_every_entry(
    names: Seq<Seq<char>>,
    fs: Seq<CfgFileView>,
    ts: Seq<TranslationItemView>,
    tgt: Seq<char>,
    root: Seq<char>,
    i: int,
)
    requires
        0 <= i < names.len(),
    ensures
        !is_replaced(names[i], names, fs, tgt, root) ==> zip_plan(
            names,
            fs,
            ts,
            tgt,
            root,
            names.len() as int,
        ).contains(ZipSaveStepView::Copy { index: i, name: names[i] }),
        translated_step(names[i], fs, ts, tgt, root) matches Some(s) ==> zip_plan(
            names,
            fs,
            ts,
            tgt,
            root,
            names.len() as int,
        ).contains(s),
{
    let es = entry_steps(i, names, fs, ts, tgt, root);
    let c = ZipSaveStepView::Copy { index: i, name: names[i] };
    if !is_replaced(names[i], names, fs, tgt, root) {
        assert(es[0] == c);
        lemma_zip_plan_holds_entry_steps(names, fs, ts, tgt, root, i, names.len() as int, c);
    }
    if let Some(s) = translated_step(names[i], fs, ts, tgt, root) {
        assert(es[es.len() - 1] == s);
        lemma_zip_plan_holds_entry_steps(names, fs, ts, tgt, root, i, names.len() as int, s);
    }
}

/// The search for an item by section and key finds the first item from `i`
/// on that has both, or reports that none has.
proof fn lemma_first_item_for(ts: Seq<TranslationItemView>, section: Seq<char>, key: Seq<char>, i: int)
    requires
        0 <= i,
    ensures
        first_item_for(ts, section, key, i) matches Some(m) ==> i <= m < ts.len()
            && ts[m].section == section && ts[m].key == key && forall|j: int|
            i <= j < m ==> !(ts[j].section == section && ts[j].key == key),
        first_item_for(ts, section, key, i) is None ==> forall|j: int|
            i <= j < ts.len() ==> !(ts[j].section == section && ts[j].key == key),
    decreases ts.len() - i,
{
    if i < ts.len() && !(ts[i].section == section && ts[i].key == key) {
        lemma_first_item_for(ts, section, key, i + 1);
    }
}

/// Saving into a folder writes each entry with the translated text of the
/// first item whose section and key are both the entry's, or with its own
/// value when no item has both; its section, key and comment stay.
pub proof fn lemma_folder_entry_value(e: CfgEntryView, ts: Seq<TranslationItemView>)
    ensures
        ({
            let w = folder_entry(e, ts);
            &&& w.section == e.section && w.key == e.key && w.comment == e.comment
            &&& has_item(e, ts) <==> exists|j: int|
                0 <= j < ts.len() && (#[trigger] ts[j]).section == e.section && ts[j].key == e.key
            &&& has_item(e, ts) ==> exists|j: int|
                0 <= j < ts.len() && (#[trigger] ts[j]).section == e.section && ts[j].key == e.key
                    && w.value == ts[j].translated_text && forall|k: int|
                    0 <= k < j ==> !((#[trigger] ts[k]).section == e.section && ts[k].key
                        == e.key)
            &&& !has_item(e, ts) ==> w.value == e.value
        }),
{
    lemma_first_item_for(ts, e.section, e.key, 0);
    if let Some(m) = first_item_for(ts, e.section, e.key, 0) {
        assert(ts[m].section == e.section && ts[m].key == e.key);
    }
}

/// A language folder's prefix is never empty.
proof fn lemma_lang_prefix_nonempty(root: Seq<char>, lang: Seq<char>)
    ensures
        lang_prefix(root, lang).len() > 0,
{
}

} // verus!

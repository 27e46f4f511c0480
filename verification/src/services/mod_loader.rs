//! Loading a mod: which entries of its archive hold metadata and locale files,
//! which files of its folder are locale files, and how the metadata of
//! `info.json` fills in the mod's description.
use vstd::prelude::*;
use crate::models::cfg::{CfgFile, CfgFileView};
use crate::models::enums::ModSourceType;
use crate::models::mod_info::ModInfo;
use crate::services::cfg_parser::{CfgParser, lemma_split_nonempty, parse_spec};
use crate::text::{concat2, ends_with_text, has_prefix, has_suffix, split_on, split_text, starts_with_text};

verus! {

/// The fields of a mod's `info.json` that the translator reads; each is absent
/// when the file does not give it.
#[derive(Debug, Clone)]
pub struct InfoJson {
    pub name: Option<String>,
    pub version: Option<String>,
    pub title: Option<String>,
    pub author: Option<String>,
    pub factorio_version: Option<String>,
}

/// An entry of a mod archive that holds a locale file, with the language of
/// the folder it lies in.
#[derive(Debug, Clone)]
pub struct ZipLocaleEntry {
    pub entry_name: String,
    pub lang_code: String,
}

/// Which entries of a mod archive to read: the folder that holds the mod, its
/// `info.json`, and its locale files in archive order; and whether the mod
/// has a locale folder at all.
#[derive(Debug, Clone)]
pub struct ZipLoadPlan {
    pub root_folder: String,
    pub info_name: String,
    pub locale_entries: Vec<ZipLocaleEntry>,
    pub has_locale_folder: bool,
}

/// The characters of `.cfg`.
pub open spec fn cfg_suffix() -> Seq<char> {
    seq!['.', 'c', 'f', 'g']
}

/// The characters of `locale/`.
pub open spec fn locale_dir() -> Seq<char> {
    seq!['l', 'o', 'c', 'a', 'l', 'e', '/']
}

/// The characters of `info.json`.
pub open spec fn info_file() -> Seq<char> {
    seq!['i', 'n', 'f', 'o', '.', 'j', 's', 'o', 'n']
}

/// A file name whose extension, as `Path::extension` reads it, is `cfg`: it
/// ends in `.cfg` and that dot does not begin the name.
pub open spec fn is_cfg_name(name: Seq<char>) -> bool {
    has_suffix(name, cfg_suffix()) && name.len() > cfg_suffix().len()
}

/// The folder that holds a mod in its archive: the first path piece of the
/// first entry, with a slash after it.
pub open spec fn zip_root(first_entry: Seq<char>) -> Seq<char> {
    split_on(first_entry, '/')[0] + seq!['/']
}

/// An archive entry that is a `.cfg` file under the mod's locale folder.
pub open spec fn is_locale_cfg(name: Seq<char>, root: Seq<char>) -> bool {
    has_prefix(name, root + locale_dir()) && has_suffix(name, cfg_suffix())
}

/// The language of a locale entry: the next-to-last piece of a path of at
/// least four pieces.
pub open spec fn entry_lang(name: Seq<char>) -> Option<Seq<char>> {
    let parts = split_on(name, '/');
    if parts.len() >= 4 {
        Some(parts[parts.len() - 2])
    } else {
        None
    }
}

/// The locale entries among `names`, each with its language, in order.
pub open spec fn planned_locale_entries(names: Seq<Seq<char>>, root: Seq<char>) -> Seq<
    (Seq<char>, Seq<char>),
>
    decreases names.len(),
{
    if names.len() == 0 {
        Seq::empty()
    } else {
        let rest = planned_locale_entries(names.drop_last(), root);
        let n = names.last();
        if is_locale_cfg(n, root) && entry_lang(n) is Some {
            rest.push((n, entry_lang(n)->0))
        } else {
            rest
        }
    }
}

/// The names and languages of planned locale entries.
pub open spec fn locale_entry_views(es: Seq<ZipLocaleEntry>) -> Seq<(Seq<char>, Seq<char>)> {
    es.map_values(|e: ZipLocaleEntry| (e.entry_name@, e.lang_code@))
}

/// The texts of a sequence of strings.
pub open spec fn name_views(v: Seq<String>) -> Seq<Seq<char>> {
    v.map_values(|s: String| s@)
}

/// The text of an optional field, or `current` where it is absent.
pub open spec fn field_or(field: Option<String>, current: Seq<char>) -> Seq<char> {
    match field {
        Some(v) => v@,
        None => current,
    }
}

/// The text of an optional string.
pub open spec fn opt_view(o: Option<String>) -> Option<Seq<char>> {
    match o {
        Some(v) => Some(v@),
        None => None,
    }
}

/// What was found of a mod's `info.json`.
#[derive(Debug, Clone)]
pub enum InfoFile {
    /// There is no such file.
    Missing,
    /// The file is there but cannot be read or understood.
    Unreadable,
    /// The fields the file gives.
    Read(InfoJson),
}

/// The metadata that an `info.json` gives, where it was read.
pub open spec fn info_of(f: InfoFile) -> Option<InfoJson> {
    match f {
        InfoFile::Read(i) => Some(i),
        _ => None,
    }
}

/// A mod with the given metadata, origin and parsed locale files.
pub open spec fn mod_of(
    m: ModInfo,
    source_path: Seq<char>,
    source_type: ModSourceType,
    info: Option<InfoJson>,
    sources: Seq<LocaleSource>,
) -> bool {
    &&& m.name@ == (match info {
        Some(i) => field_or(i.name, Seq::empty()),
        None => Seq::empty(),
    })
    &&& m.version@ == (match info {
        Some(i) => field_or(i.version, Seq::empty()),
        None => Seq::empty(),
    })
    &&& m.title@ == (match info {
        Some(i) => field_or(i.title, Seq::empty()),
        None => Seq::empty(),
    })
    &&& m.author@ == (match info {
        Some(i) => field_or(i.author, Seq::empty()),
        None => Seq::empty(),
    })
    &&& opt_view(m.factorio_version) == (match info {
        Some(i) => opt_view(i.factorio_version),
        None => None,
    })
    &&& m.source_path@ == source_path
    &&& m.source_type == source_type
    &&& file_views(m.locale_files@) == parsed_sources(sources)
}

/// A locale file to be read into a mod: its path, its language and its bytes.
#[derive(Debug, Clone)]
pub struct LocaleSource {
    pub file_path: String,
    pub lang_code: String,
    pub content: Vec<u8>,
}

/// The parsed locale files of the given sources, in order.
pub open spec fn parsed_sources(srcs: Seq<LocaleSource>) -> Seq<CfgFileView> {
    srcs.map_values(|s: LocaleSource| parse_spec(s.content@, s.file_path@, s.lang_code@))
}

/// The views of a sequence of locale files.
pub open spec fn file_views(fs: Seq<CfgFile>) -> Seq<CfgFileView> {
    fs.map_values(|f: CfgFile| f@)
}

/// Reads mods from folders and archives.
pub struct ModLoader;

impl ModLoader {
    /// Whether a file of a language folder is a locale file.
    pub fn is_cfg_file(file_name: &str) -> (r: bool)
        ensures
            r == is_cfg_name(file_name@),
    {
        proof {
            reveal_strlit(".cfg");
            assert(".cfg"@ =~= cfg_suffix());
        }
        let n = file_name.unicode_len();
        ends_with_text(file_name, ".cfg") && n > 4
    }

    /// A mod with no metadata and no locale file yet.
    pub fn empty_mod_info(source_path: &str, source_type: ModSourceType) -> (r: ModInfo)
        ensures
            r.name@.len() == 0,
            r.version@.len() == 0,
            r.title@.len() == 0,
            r.author@.len() == 0,
            r.source_path@ == source_path@,
            r.source_type == source_type,
            r.factorio_version is None,
            r.locale_files@.len() == 0,
    {
        ModInfo {
            name: String::new(),
            version: String::new(),
            title: String::new(),
            author: String::new(),
            source_path: source_path.to_owned(),
            source_type,
            factorio_version: None,
            locale_files: Vec::new(),
        }
    }

    /// Fills in the metadata of a mod from its `info.json`: each field that
    /// the file gives replaces the current one, and the game version is taken
    /// as the file gives it, absent or not.
    pub fn populate_metadata(mod_info: &mut ModInfo, info: InfoJson)
        ensures
            final(mod_info).name@ == field_or(info.name, old(mod_info).name@),
            final(mod_info).version@ == field_or(info.version, old(mod_info).version@),
            final(mod_info).title@ == field_or(info.title, old(mod_info).title@),
            final(mod_info).author@ == field_or(info.author, old(mod_info).author@),
            opt_view(final(mod_info).factorio_version) == opt_view(info.factorio_version),
            final(mod_info).source_path@ == old(mod_info).source_path@,
            final(mod_info).source_type == old(mod_info).source_type,
            final(mod_info).locale_files@ == old(mod_info).locale_files@,
    {
        if let Some(n) = info.name {
            mod_info.name = n;
        }
        if let Some(v) = info.version {
            mod_info.version = v;
        }
        if let Some(t) = info.title {
            mod_info.title = t;
        }
        if let Some(a) = info.author {
            mod_info.author = a;
        }
        mod_info.factorio_version = info.factorio_version;
    }

    /// Parses a locale file and adds it to the mod.
    pub fn add_locale_file(mod_info: &mut ModInfo, source: &LocaleSource)
        ensures
            file_views(final(mod_info).locale_files@) == file_views(old(mod_info).locale_files@).push(
                parse_spec(source.content@, source.file_path@, source.lang_code@),
            ),
            final(mod_info).name == old(mod_info).name,
            final(mod_info).version == old(mod_info).version,
            final(mod_info).title == old(mod_info).title,
            final(mod_info).author == old(mod_info).author,
            final(mod_info).factorio_version == old(mod_info).factorio_version,
            final(mod_info).source_path == old(mod_info).source_path,
            final(mod_info).source_type == old(mod_info).source_type,
    {
        let cfg = CfgParser::parse(
            source.content.as_slice(),
            source.file_path.clone(),
            source.lang_code.clone(),
        );
        let ghost before = mod_info.locale_files@;
        mod_info.locale_files.push(cfg);
        assert(file_views(mod_info.locale_files@) =~= file_views(before).push(
            parse_spec(source.content@, source.file_path@, source.lang_code@),
        ));
    }

    /// A mod loaded from what was read of it. A mod without `info.json`, or
    /// without a locale folder, is refused. Otherwise it has the metadata of
    /// its `info.json`, where that file was read and understood, and its
    /// locale files in the order given.
    pub fn assemble_mod_info(
        source_path: &str,
        source_type: ModSourceType,
        info_file: InfoFile,
        has_locale_folder: bool,
        sources: &Vec<LocaleSource>,
    ) -> (r: Result<ModInfo, String>)
        ensures
            info_file is Missing ==> (r matches Err(e) && e@ == "info.json not found: "@
                + source_path@),
            !(info_file is Missing) && !has_locale_folder ==> (r matches Err(e) && e@
                == "locale folder not found: "@ + source_path@),
            r is Ok <==> !(info_file is Missing) && has_locale_folder,
            r matches Ok(m) ==> mod_of(m, source_path@, source_type, info_of(info_file), sources@),
    {
        match info_file {
            InfoFile::Missing => Err(concat2("info.json not found: ", source_path)),
            InfoFile::Unreadable => {
                if !has_locale_folder {
                    return Err(concat2("locale folder not found: ", source_path));
                }
                Ok(Self::assemble(source_path, source_type, None, sources))
            },
            InfoFile::Read(i) => {
                if !has_locale_folder {
                    return Err(concat2("locale folder not found: ", source_path));
                }
                Ok(Self::assemble(source_path, source_type, Some(i), sources))
            },
        }
    }

    /// A mod assembled from what was read of it: the metadata of its
    /// `info.json`, where that file was read and understood, and its locale
    /// files in the order given.
    fn assemble(
        source_path: &str,
        source_type: ModSourceType,
        info: Option<InfoJson>,
        sources: &Vec<LocaleSource>,
    ) -> (r: ModInfo)
        ensures
            mod_of(r, source_path@, source_type, info, sources@),
    {
        let mut m = Self::empty_mod_info(source_path, source_type);
        if let Some(i) = info {
            Self::populate_metadata(&mut m, i);
        }
        let ghost name = m.name@;
        let ghost version = m.version@;
        let ghost title = m.title@;
        let ghost author = m.author@;
        let ghost fv = opt_view(m.factorio_version);
        let mut k: usize = 0;
        while k < sources.len()
            invariant
                k <= sources@.len(),
                file_views(m.locale_files@) == parsed_sources(sources@.take(k as int)),
                m.name@ == name,
                m.version@ == version,
                m.title@ == title,
                m.author@ == author,
                opt_view(m.factorio_version) == fv,
                m.source_path@ == source_path@,
                m.source_type == source_type,
            decreases sources@.len() - k,
        {
            Self::add_locale_file(&mut m, &sources[k]);
            assert(parsed_sources(sources@.take(k + 1)) =~= parsed_sources(sources@.take(k as int)).push(
                parse_spec(sources@[k as int].content@, sources@[k as int].file_path@, sources@[k as int].lang_code@),
            ));
            k = k + 1;
        }
        assert(sources@.take(k as int) =~= sources@);
        assert(file_views(m.locale_files@) == parsed_sources(sources@));
        assert(m.version@ == (match info {
            Some(i) => field_or(i.version, Seq::empty()),
            None => Seq::<char>::empty(),
        }));
        assert(m.title@ == (match info {
            Some(i) => field_or(i.title, Seq::empty()),
            None => Seq::<char>::empty(),
        }));
        assert(m.author@ == (match info {
            Some(i) => field_or(i.author, Seq::empty()),
            None => Seq::<char>::empty(),
        }));
        assert(opt_view(m.factorio_version) == (match info {
            Some(i) => opt_view(i.factorio_version),
            None => None,
        }));
        assert(m.source_path@ == source_path@);
        assert(m.source_type == source_type);
        assert(m.name@ == (match info {
            Some(i) => field_or(i.name, Seq::empty()),
            None => Seq::<char>::empty(),
        }));
        assert(mod_of(m, source_path@, source_type, info, sources@));
        m
    }

    /// The folder that holds a mod in its archive, from the archive's first
    /// entry.
    pub fn zip_root_folder(first_entry_name: &str) -> (r: String)
        ensures
            r@ == zip_root(first_entry_name@),
    {
        let parts = split_text(first_entry_name, '/');
        proof {
            lemma_split_nonempty(first_entry_name@, '/');
            assert(parts@.map_values(|p: String| p@)[0] == parts@[0]@);
        }
        proof {
            reveal_strlit("/");
            assert("/"@ =~= seq!['/']);
        }
        concat2(parts[0].as_str(), "/")
    }

    /// The language of an archive entry under a locale folder, if its path
    /// has at least four pieces.
    pub fn zip_entry_lang(entry_name: &str) -> (r: Option<String>)
        ensures
            opt_view(r) == entry_lang(entry_name@),
    {
        let parts = split_text(entry_name, '/');
        let n = parts.len();
        proof {
            assert(n == split_on(entry_name@, '/').len());
        }
        if n >= 4 {
            proof {
                assert(parts@.map_values(|p: String| p@)[n - 2] == parts@[n - 2]@);
            }
            Some(parts[n - 2].clone())
        } else {
            None
        }
    }

    /// Which entries of a mod archive to read, from the names of all its
    /// entries in archive order; an archive with no entry is refused.
    pub fn plan_zip_load(entry_names: &Vec<String>) -> (r: Result<ZipLoadPlan, String>)
        ensures
            entry_names@.len() == 0 <==> r is Err,
            r matches Err(e) ==> e@ == "Zip is empty"@,
            r matches Ok(p) ==> {
                &&& p.root_folder@ == zip_root(entry_names@[0]@)
                &&& p.info_name@ == p.root_folder@ + info_file()
                &&& locale_entry_views(p.locale_entries@) == planned_locale_entries(
                    name_views(entry_names@),
                    p.root_folder@,
                )
                &&& p.has_locale_folder == exists|k: int|
                    0 <= k < entry_names@.len() && has_prefix(
                        #[trigger] entry_names@[k]@,
                        p.root_folder@ + locale_dir(),
                    )
            },
    {
        if entry_names.len() == 0 {
            return Err("Zip is empty".to_string());
        }
        let root = Self::zip_root_folder(entry_names[0].as_str());
        proof {
            reveal_strlit("info.json");
            assert("info.json"@ =~= info_file());
            reveal_strlit("locale/");
            assert("locale/"@ =~= locale_dir());
            reveal_strlit(".cfg");
            assert(".cfg"@ =~= cfg_suffix());
        }
        let info_name = concat2(root.as_str(), "info.json");
        let prefix = concat2(root.as_str(), "locale/");
        let mut entries: Vec<ZipLocaleEntry> = Vec::new();
        let mut any_locale = false;
        let mut i: usize = 0;
        while i < entry_names.len()
            invariant
                i <= entry_names@.len(),
                prefix@ == root@ + locale_dir(),
                any_locale == exists|k: int|
                    0 <= k < i && has_prefix(#[trigger] entry_names@[k]@, root@ + locale_dir()),
                ".cfg"@ == cfg_suffix(),
                locale_entry_views(entries@) == planned_locale_entries(
                    name_views(entry_names@).take(i as int),
                    root@,
                ),
            decreases entry_names@.len() - i,
        {
            let name = &entry_names[i];
            let ghost before = entries@;
            proof {
                let t = name_views(entry_names@).take(i + 1);
                assert(t.drop_last() =~= name_views(entry_names@).take(i as int));
                assert(t.last() == name@);
            }
            let in_locale = starts_with_text(name.as_str(), prefix.as_str());
            any_locale = any_locale || in_locale;
            if in_locale && ends_with_text(name.as_str(), ".cfg") {
                match Self::zip_entry_lang(name.as_str()) {
                    Some(lang) => {
                        entries.push(ZipLocaleEntry { entry_name: name.clone(), lang_code: lang });
                        assert(locale_entry_views(entries@) =~= locale_entry_views(before).push(
                            (name@, entry_lang(name@)->0),
                        ));
                    },
                    None => {},
                }
            }
            i = i + 1;
        }
        assert(name_views(entry_names@).take(i as int) =~= name_views(entry_names@));
        Ok(
            ZipLoadPlan {
                root_folder: root,
                info_name,
                locale_entries: entries,
                has_locale_folder: any_locale,
            },
        )
    }
}

} // verus!

use vstd::prelude::*;

verus! {

/// One `key=value` line of a locale file, with the section it belongs to and
/// the comment lines that stood right above it.
#[derive(Debug, Clone)]
pub struct CfgEntry {
    pub section: String,
    pub key: String,
    pub value: String,
    pub comment: Option<String>,
}

/// The characters of a [`CfgEntry`].
#[verifier::ext_equal]
pub struct CfgEntryView {
    pub section: Seq<char>,
    pub key: Seq<char>,
    pub value: Seq<char>,
    pub comment: Option<Seq<char>>,
}

impl View for CfgEntry {
    type V = CfgEntryView;

    open spec fn view(&self) -> CfgEntryView {
        CfgEntryView {
            section: self.section@,
            key: self.key@,
            value: self.value@,
            comment: match self.comment {
                Some(c) => Some(c@),
                None => None,
            },
        }
    }
}

/// A parsed locale file: its entries, its sections in the order they first
/// appear, and the comments above the first section.
#[derive(Debug, Clone)]
pub struct CfgFile {
    pub file_path: String,
    pub language_code: String,
    pub entries: Vec<CfgEntry>,
    pub section_order: Vec<String>,
    pub header_comments: Vec<String>,
}

/// The characters of a [`CfgFile`].
#[verifier::ext_equal]
pub struct CfgFileView {
    pub file_path: Seq<char>,
    pub language_code: Seq<char>,
    pub entries: Seq<CfgEntryView>,
    pub section_order: Seq<Seq<char>>,
    pub header_comments: Seq<Seq<char>>,
}

/// The views of a sequence of strings.
pub open spec fn string_views(v: Seq<String>) -> Seq<Seq<char>> {
    v.map_values(|s: String| s@)
}

/// The views of a sequence of entries.
pub open spec fn entry_views(v: Seq<CfgEntry>) -> Seq<CfgEntryView> {
    v.map_values(|e: CfgEntry| e@)
}

impl View for CfgFile {
    type V = CfgFileView;

    open spec fn view(&self) -> CfgFileView {
        CfgFileView {
            file_path: self.file_path@,
            language_code: self.language_code@,
            entries: entry_views(self.entries@),
            section_order: string_views(self.section_order@),
            header_comments: string_views(self.header_comments@),
        }
    }
}

/// A copy of an optional string.
pub fn copy_opt_string(s: &Option<String>) -> (r: Option<String>)
    ensures
        r == *s,
{
    match s {
        Some(c) => Some(c.clone()),
        None => None,
    }
}

impl CfgEntry {
    /// A copy of this entry.
    pub fn copied(&self) -> (r: CfgEntry)
        ensures
            r@ == self@,
    {
        CfgEntry {
            section: self.section.clone(),
            key: self.key.clone(),
            value: self.value.clone(),
            comment: copy_opt_string(&self.comment),
        }
    }
}

/// A copy of a list of strings.
pub fn copy_strings(v: &Vec<String>) -> (r: Vec<String>)
    ensures
        r@ == v@,
{
    let mut r: Vec<String> = Vec::new();
    let mut i: usize = 0;
    while i < v.len()
        invariant
            i <= v@.len(),
            r@ == v@.take(i as int),
        decreases v@.len() - i,
    {
        r.push(v[i].clone());
        i = i + 1;
    }
    assert(v@.take(v@.len() as int) =~= v@);
    r
}

/// A copy of a list of entries.
pub fn copy_entries(v: &Vec<CfgEntry>) -> (r: Vec<CfgEntry>)
    ensures
        entry_views(r@) == entry_views(v@),
        r@.len() == v@.len(),
{
    let mut r: Vec<CfgEntry> = Vec::new();
    let mut i: usize = 0;
    while i < v.len()
        invariant
            i <= v@.len(),
            r@.len() == i,
            forall|k: int| 0 <= k < i ==> (#[trigger] r@[k])@ == v@[k]@,
        decreases v@.len() - i,
    {
        r.push(v[i].copied());
        i = i + 1;
    }
    assert(entry_views(r@) =~= entry_views(v@));
    r
}

} // verus!

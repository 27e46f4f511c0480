//! The glossary: terms that are replaced before a text goes to a
//! translation engine.
use vstd::prelude::*;
use crate::models::glossary::{GlossaryEntry, GlossaryEntryView};
use crate::services::formatter::{regex_replace_all, regex_replaced};
use crate::text::{replace_all, replace_text, same_text};

verus! {

/// The characters that `regex::escape` escapes (`regex_syntax::is_meta_character`).
pub open spec fn is_regex_meta(c: char) -> bool {
    c == '\\' || c == '.' || c == '+' || c == '*' || c == '?' || c == '(' || c == ')' || c == '|'
        || c == '[' || c == ']' || c == '{' || c == '}' || c == '^' || c == '$' || c == '#' || c
        == '&' || c == '-' || c == '~'
}

/// The text with a backslash put before each meta character.
pub open spec fn regex_escaped(s: Seq<char>) -> Seq<char>
    decreases s.len(),
{
    if s.len() == 0 {
        seq![]
    } else {
        (if is_regex_meta(s[0]) {
            seq!['\\', s[0]]
        } else {
            seq![s[0]]
        }) + regex_escaped(s.drop_first())
    }
}

/// `regex::escape` puts a backslash before each of the characters
/// `\ . + * ? ( ) | [ ] { } ^ $ # & - ~` and keeps every other character.
#[verifier::external_body]
fn regex_escape(text: &str) -> (r: String)
    ensures
        r@ == regex_escaped(text@),
{
    regex::escape(text)
}

/// The text of an optional string.
pub open spec fn opt_text(o: Option<String>) -> Option<Seq<char>> {
    match o {
        Some(v) => Some(v@),
        None => None,
    }
}

/// The views of a list of glossary entries.
pub open spec fn glossary_views(v: Seq<GlossaryEntry>) -> Seq<GlossaryEntryView> {
    v.map_values(|e: GlossaryEntry| e@)
}

/// Two entries are about the same term between the same languages.
pub open spec fn same_term(a: GlossaryEntryView, b: GlossaryEntryView) -> bool {
    a.source_term == b.source_term && a.source_lang == b.source_lang && a.target_lang
        == b.target_lang
}

/// The entries that are not about the same term as `e`, in order.
pub open spec fn without_term_of(es: Seq<GlossaryEntryView>, e: GlossaryEntryView) -> Seq<
    GlossaryEntryView,
>
    decreases es.len(),
{
    if es.len() == 0 {
        seq![]
    } else {
        without_term_of(es.drop_last(), e) + if same_term(es.last(), e) {
            seq![]
        } else {
            seq![es.last()]
        }
    }
}

/// The entries whose source term is not `term`, in order.
pub open spec fn without_source_term(es: Seq<GlossaryEntryView>, term: Seq<char>) -> Seq<
    GlossaryEntryView,
>
    decreases es.len(),
{
    if es.len() == 0 {
        seq![]
    } else {
        without_source_term(es.drop_last(), term) + if es.last().source_term == term {
            seq![]
        } else {
            seq![es.last()]
        }
    }
}

/// A replacement text in which every `$` is doubled, so that the regular
/// expression inserts it as it is, without expanding group references.
pub open spec fn literal_replacement(t: Seq<char>) -> Seq<char> {
    replace_all(t, seq!['$'], seq!['$', '$'])
}

/// The position of the first entry from `i` on whose term is exactly `text`
/// for the language pair.
pub open spec fn exact_term_from(
    es: Seq<GlossaryEntryView>,
    text: Seq<char>,
    src: Seq<char>,
    tgt: Seq<char>,
    i: int,
) -> Option<int>
    decreases es.len() - i,
{
    if i < 0 || i >= es.len() {
        None
    } else if es[i].source_term == text && es[i].source_lang == src && es[i].target_lang == tgt {
        Some(i)
    } else {
        exact_term_from(es, text, src, tgt, i + 1)
    }
}

/// The target term of the first entry whose term is exactly `text` for the
/// language pair, if there is one.
pub open spec fn exact_term(
    es: Seq<GlossaryEntryView>,
    text: Seq<char>,
    src: Seq<char>,
    tgt: Seq<char>,
) -> Option<Seq<char>> {
    match exact_term_from(es, text, src, tgt, 0) {
        Some(i) => Some(es[i].target_term),
        None => None,
    }
}

/// One entry applied to a text: a non-empty term of the given language pair
/// is replaced, ignoring case, wherever it occurs.
pub open spec fn apply_entry(
    e: GlossaryEntryView,
    text: Seq<char>,
    src: Seq<char>,
    tgt: Seq<char>,
) -> Seq<char> {
    if e.source_lang == src && e.target_lang == tgt && e.source_term.len() > 0 {
        match regex_replaced(regex_escaped(e.source_term), true, text, literal_replacement(e.target_term)) {
            Some(r) => r,
            None => text,
        }
    } else {
        text
    }
}

/// The entries applied to a text one after the other.
pub open spec fn glossary_applied(
    es: Seq<GlossaryEntryView>,
    text: Seq<char>,
    src: Seq<char>,
    tgt: Seq<char>,
) -> Seq<char>
    decreases es.len(),
{
    if es.len() == 0 {
        text
    } else {
        apply_entry(es.last(), glossary_applied(es.drop_last(), text, src, tgt), src, tgt)
    }
}

/// No two entries are about the same term between the same languages.
pub open spec fn terms_unique(es: Seq<GlossaryEntryView>) -> bool {
    forall|i: int, j: int| 0 <= i < j < es.len() ==> !same_term(#[trigger] es[i], #[trigger] es[j])
}

/// The glossary and the file it is kept in.
pub struct GlossaryService {
    file_path: String,
    entries: Vec<GlossaryEntry>,
}

impl GlossaryService {
    /// The entries, in order.
    pub closed spec fn entries_view(&self) -> Seq<GlossaryEntryView> {
        glossary_views(self.entries@)
    }

    /// The file the glossary is kept in.
    pub closed spec fn path_view(&self) -> Seq<char> {
        self.file_path@
    }

    /// An empty glossary kept in `file_path`.
    pub fn new(file_path: String) -> (r: Self)
        ensures
            r.entries_view() == Seq::<GlossaryEntryView>::empty(),
            r.path_view() == file_path@,
    {
        let r = GlossaryService { file_path, entries: Vec::new() };
        assert(r.entries_view() =~= Seq::<GlossaryEntryView>::empty());
        r
    }

    /// The file the glossary is kept in.
    pub fn file_path(&self) -> (r: &str)
        ensures
            r@ == self.path_view(),
    {
        self.file_path.as_str()
    }

    /// Replaces the entries by those read from the glossary file.
    pub fn set_entries(&mut self, entries: Vec<GlossaryEntry>)
        ensures
            final(self).entries_view() == glossary_views(entries@),
            final(self).path_view() == old(self).path_view(),
    {
        self.entries = entries;
    }

    /// The entries, for writing them to the glossary file.
    pub fn entries(&self) -> (r: &Vec<GlossaryEntry>)
        ensures
            glossary_views(r@) == self.entries_view(),
    {
        &self.entries
    }

    /// Adds an entry; an earlier entry about the same term between the same
    /// languages is dropped, so the new one takes its place at the end.
    pub fn add_entry(&mut self, entry: GlossaryEntry)
        ensures
            final(self).entries_view() == without_term_of(old(self).entries_view(), entry@).push(
                entry@,
            ),
            final(self).path_view() == old(self).path_view(),
    {
        let ghost old_es = glossary_views(self.entries@);
        let mut kept: Vec<GlossaryEntry> = Vec::new();
        let mut i: usize = 0;
        while i < self.entries.len()
            invariant
                i <= self.entries@.len(),
                old_es == glossary_views(self.entries@),
                glossary_views(kept@) == without_term_of(old_es.take(i as int), entry@),
            decreases self.entries@.len() - i,
        {
            let e = &self.entries[i];
            let same = same_text(e.source_term.as_str(), entry.source_term.as_str())
                && same_text(e.source_lang.as_str(), entry.source_lang.as_str())
                && same_text(e.target_lang.as_str(), entry.target_lang.as_str());
            let ghost before = kept@;
            proof {
                assert(old_es.take(i + 1).drop_last() =~= old_es.take(i as int));
                assert(old_es.take(i + 1).last() == e@);
            }
            if !same {
                kept.push(e.copied());
                assert(glossary_views(kept@) =~= glossary_views(before).push(e@));
            }
            i = i + 1;
        }
        assert(old_es.take(self.entries@.len() as int) =~= old_es);
        let ghost k = kept@;
        kept.push(entry);
        assert(glossary_views(kept@) =~= glossary_views(k).push(kept@.last()@));
        self.entries = kept;
    }

    /// Removes every entry whose source term is `source_term`.
    pub fn remove_entry(&mut self, source_term: &str)
        ensures
            final(self).entries_view() == without_source_term(old(self).entries_view(), source_term@),
            final(self).path_view() == old(self).path_view(),
    {
        let ghost old_es = glossary_views(self.entries@);
        let mut kept: Vec<GlossaryEntry> = Vec::new();
        let mut i: usize = 0;
        while i < self.entries.len()
            invariant
                i <= self.entries@.len(),
                old_es == glossary_views(self.entries@),
                glossary_views(kept@) == without_source_term(old_es.take(i as int), source_term@),
            decreases self.entries@.len() - i,
        {
            let e = &self.entries[i];
            let ghost before = kept@;
            proof {
                assert(old_es.take(i + 1).drop_last() =~= old_es.take(i as int));
                assert(old_es.take(i + 1).last() == e@);
            }
            if !same_text(e.source_term.as_str(), source_term) {
                kept.push(e.copied());
                assert(glossary_views(kept@) =~= glossary_views(before).push(e@));
            }
            i = i + 1;
        }
        assert(old_es.take(self.entries@.len() as int) =~= old_es);
        self.entries = kept;
    }

    /// A copy of all entries, in order.
    pub fn get_all_entries(&self) -> (r: Vec<GlossaryEntry>)
        ensures
            glossary_views(r@) == self.entries_view(),
    {
        let mut r: Vec<GlossaryEntry> = Vec::new();
        let mut i: usize = 0;
        while i < self.entries.len()
            invariant
                i <= self.entries@.len(),
                glossary_views(r@) == glossary_views(self.entries@).take(i as int),
            decreases self.entries@.len() - i,
        {
            let ghost before = r@;
            r.push(self.entries[i].copied());
            assert(glossary_views(r@) =~= glossary_views(before).push(self.entries@[i as int]@));
            assert(glossary_views(self.entries@).take(i + 1) =~= glossary_views(self.entries@).take(
                i as int,
            ).push(self.entries@[i as int]@));
            i = i + 1;
        }
        assert(glossary_views(self.entries@).take(self.entries@.len() as int) =~= glossary_views(
            self.entries@,
        ));
        r
    }

    /// The target term of the first entry whose term is exactly the text,
    /// for the language pair.
    pub fn exact_term(&self, text: &str, src_lang: &str, tgt_lang: &str) -> (r: Option<String>)
        ensures
            opt_text(r) == exact_term(self.entries_view(), text@, src_lang@, tgt_lang@),
    {
        let ghost es = self.entries_view();
        let mut i: usize = 0;
        while i < self.entries.len()
            invariant
                i <= self.entries@.len(),
                es == glossary_views(self.entries@),
                exact_term_from(es, text@, src_lang@, tgt_lang@, 0) == exact_term_from(
                    es,
                    text@,
                    src_lang@,
                    tgt_lang@,
                    i as int,
                ),
            decreases self.entries@.len() - i,
        {
            let e = &self.entries[i];
            proof {
                assert(es[i as int] == e@);
            }
            if same_text(e.source_term.as_str(), text) && same_text(e.source_lang.as_str(), src_lang)
                && same_text(e.target_lang.as_str(), tgt_lang) {
                return Some(e.target_term.clone());
            }
            i = i + 1;
        }
        None
    }

    /// The text with the glossary applied: each entry of the language pair
    /// with a non-empty term, in order, replaces its term (ignoring case) by
    /// its target term, inserted as it is.
    pub fn apply_glossary(&self, text: &str, src_lang: &str, tgt_lang: &str) -> (r: String)
        ensures
            r@ == glossary_applied(self.entries_view(), text@, src_lang@, tgt_lang@),
    {
        let ghost es = self.entries_view();
        let mut result = text.to_owned();
        let mut i: usize = 0;
        while i < self.entries.len()
            invariant
                i <= self.entries@.len(),
                es == glossary_views(self.entries@),
                result@ == glossary_applied(es.take(i as int), text@, src_lang@, tgt_lang@),
            decreases self.entries@.len() - i,
        {
            let e = &self.entries[i];
            proof {
                assert(es.take(i + 1).drop_last() =~= es.take(i as int));
                assert(es.take(i + 1).last() == e@);
            }
            if same_text(e.source_lang.as_str(), src_lang) && same_text(
                e.target_lang.as_str(),
                tgt_lang,
            ) && !e.source_term.as_str().is_empty() {
                let pattern = regex_escape(e.source_term.as_str());
                proof {
                    reveal_strlit("$");
                    reveal_strlit("$$");
                    assert("$"@ =~= seq!['$']);
                    assert("$$"@ =~= seq!['$', '$']);
                }
                let replacement = replace_text(e.target_term.as_str(), "$", "$$");
                match regex_replace_all(
                    pattern.as_str(),
                    true,
                    result.as_str(),
                    replacement.as_str(),
                ) {
                    Some(replaced) => {
                        result = replaced;
                    },
                    None => {},
                }
            }
            i = i + 1;
        }
        assert(es.take(self.entries@.len() as int) =~= es);
        result
    }
}

/// The kept entries come from the list and none is about the term of `e`.
proof fn lemma_without_term_props(es: Seq<GlossaryEntryView>, e: GlossaryEntryView)
    ensures
        forall|i: int|
            0 <= i < without_term_of(es, e).len() ==> !same_term(
                #[trigger] without_term_of(es, e)[i],
                e,
            ),
        forall|i: int|
            0 <= i < without_term_of(es, e).len() ==> exists|a: int|
                0 <= a < es.len() && es[a] == #[trigger] without_term_of(es, e)[i],
    decreases es.len(),
{
    if es.len() > 0 {
        let t = es.drop_last();
        lemma_without_term_props(t, e);
        let w = without_term_of(es, e);
        let wt = without_term_of(t, e);
        assert forall|i: int| 0 <= i < w.len() implies !same_term(#[trigger] w[i], e) && exists|
            a: int,
        | 0 <= a < es.len() && es[a] == w[i] by {
            if i < wt.len() {
                assert(w[i] == wt[i]);
                let a = choose|a: int| 0 <= a < t.len() && t[a] == wt[i];
                assert(es[a] == t[a]);
            } else {
                assert(w[i] == es.last());
                assert(es[es.len() - 1] == es.last());
            }
        }
    }
}

/// Dropping the entries about one term keeps the terms unique.
proof fn lemma_without_term_unique(es: Seq<GlossaryEntryView>, e: GlossaryEntryView)
    requires
        terms_unique(es),
    ensures
        terms_unique(without_term_of(es, e)),
    decreases es.len(),
{
    if es.len() > 0 {
        let t = es.drop_last();
        assert(terms_unique(t)) by {
            assert forall|i: int, j: int| 0 <= i < j < t.len() implies !same_term(
                #[trigger] t[i],
                #[trigger] t[j],
            ) by {
                assert(t[i] == es[i] && t[j] == es[j]);
            }
        }
        lemma_without_term_unique(t, e);
        lemma_without_term_props(t, e);
        let w = without_term_of(es, e);
        let wt = without_term_of(t, e);
        assert forall|i: int, j: int| 0 <= i < j < w.len() implies !same_term(
            #[trigger] w[i],
            #[trigger] w[j],
        ) by {
            if j < wt.len() {
                assert(w[i] == wt[i] && w[j] == wt[j]);
            } else {
                assert(w[i] == wt[i]);
                assert(w[j] == es.last());
                let a = choose|a: int| 0 <= a < t.len() && t[a] == wt[i];
                assert(es[a] == t[a]);
                assert(es[es.len() - 1] == es.last());
            }
        }
    }
}

/// Adding an entry keeps the terms of a glossary unique: afterwards the new
/// entry is the only one about its term and language pair.
pub proof fn lemma_add_keeps_terms_unique(es: Seq<GlossaryEntryView>, e: GlossaryEntryView)
    requires
        terms_unique(es),
    ensures
        terms_unique(without_term_of(es, e).push(e)),
        forall|i: int|
            0 <= i < without_term_of(es, e).len() ==> !same_term(
                #[trigger] without_term_of(es, e)[i],
                e,
            ),
{
    lemma_without_term_unique(es, e);
    lemma_without_term_props(es, e);
    let w = without_term_of(es, e);
    assert forall|i: int, j: int| 0 <= i < j < w.push(e).len() implies !same_term(
        #[trigger] w.push(e)[i],
        #[trigger] w.push(e)[j],
    ) by {
        assert(w.push(e)[i] == w[i]);
        if j < w.len() {
            assert(w.push(e)[j] == w[j]);
        }
    }
}

/// Removing a term leaves no entry with that source term, and keeps every
/// other entry, in order.
pub proof fn lemma_remove_clears_term(es: Seq<GlossaryEntryView>, term: Seq<char>)
    ensures
        forall|i: int|
            0 <= i < without_source_term(es, term).len() ==> (#[trigger] without_source_term(
                es,
                term,
            )[i]).source_term != term,
        forall|i: int|
            0 <= i < es.len() && es[i].source_term != term ==> without_source_term(
                es,
                term,
            ).contains(#[trigger] es[i]),
        without_source_term(es, term).len() <= es.len(),
    decreases es.len(),
{
    if es.len() > 0 {
        let t = es.drop_last();
        lemma_remove_clears_term(t, term);
        let w = without_source_term(t, term);
        let tail = if es.last().source_term == term {
            Seq::<GlossaryEntryView>::empty()
        } else {
            seq![es.last()]
        };
        assert(without_source_term(es, term) == w + tail);
        assert forall|i: int| 0 <= i < es.len() && es[i].source_term != term implies (w
            + tail).contains(#[trigger] es[i]) by {
            if i < es.len() - 1 {
                assert(es[i] == t[i]);
                let k = choose|k: int| 0 <= k < w.len() && w[k] == t[i];
                assert((w + tail)[k] == w[k]);
            } else {
                assert((w + tail)[w.len() as int] == es.last());
            }
        }
        assert forall|i: int| 0 <= i < (w + tail).len() implies (#[trigger] (w + tail)[i]).source_term
            != term by {
            if i < w.len() {
                assert((w + tail)[i] == w[i]);
            }
        }
    }
}

} // verus!

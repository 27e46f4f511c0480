//! Matching against the game's own translations: entries are found by their
//! section and key or by their English text.
use vstd::prelude::*;
use crate::models::cfg::{CfgEntry, CfgEntryView, CfgFile, entry_views};
use crate::services::cfg_parser::{CfgParser, parse_spec};
use crate::string_map::{StringMap, distinct_keys, map_of};
use crate::text::{concat3, contains_text, has_infix, lowercase, lowercased, same_text};

verus! {

broadcast use vstd::seq_lib::group_seq_properties, vstd::map::group_map_axioms;

/// The translations that a list of (section, key, value) triples denotes,
/// later triples winning over earlier ones.
pub open spec fn triple_map(v: Seq<(String, String, String)>) -> Map<(Seq<char>, Seq<char>), Seq<char>>
    decreases v.len(),
{
    if v.len() == 0 {
        Map::empty()
    } else {
        triple_map(v.drop_last()).insert((v.last().0@, v.last().1@), v.last().2@)
    }
}

/// The entries of a locale file read with an empty path and language.
pub open spec fn file_entries(content: Seq<u8>) -> Seq<CfgEntryView> {
    parse_spec(content, Seq::empty(), Seq::empty()).entries
}

/// The bytes of each file.
pub open spec fn byte_views(files: Seq<Vec<u8>>) -> Seq<Seq<u8>> {
    files.map_values(|f: Vec<u8>| f@)
}

/// `m` after storing the value of each entry under its section and key, in
/// order.
pub open spec fn with_target_entries(
    m: Map<(Seq<char>, Seq<char>), Seq<char>>,
    es: Seq<CfgEntryView>,
) -> Map<(Seq<char>, Seq<char>), Seq<char>>
    decreases es.len(),
{
    if es.len() == 0 {
        m
    } else {
        let e = es.last();
        with_target_entries(m, es.drop_last()).insert((e.section, e.key), e.value)
    }
}

/// `texts` after mapping the English text of each entry whose section and
/// key have a translation in `keys` to that translation, in order.
pub open spec fn with_english_entries(
    keys: Map<(Seq<char>, Seq<char>), Seq<char>>,
    texts: Map<Seq<char>, Seq<char>>,
    es: Seq<CfgEntryView>,
) -> Map<Seq<char>, Seq<char>>
    decreases es.len(),
{
    if es.len() == 0 {
        texts
    } else {
        let e = es.last();
        let t = with_english_entries(keys, texts, es.drop_last());
        let fk = (e.section, e.key);
        if keys.contains_key(fk) {
            t.insert(e.value, keys[fk])
        } else {
            t
        }
    }
}

/// `with_target_entries` over the entries of each file in turn.
pub open spec fn with_target_files(
    m: Map<(Seq<char>, Seq<char>), Seq<char>>,
    files: Seq<Seq<u8>>,
) -> Map<(Seq<char>, Seq<char>), Seq<char>>
    decreases files.len(),
{
    if files.len() == 0 {
        m
    } else {
        with_target_entries(with_target_files(m, files.drop_last()), file_entries(files.last()))
    }
}

/// `with_english_entries` over the entries of each file in turn.
pub open spec fn with_english_files(
    keys: Map<(Seq<char>, Seq<char>), Seq<char>>,
    texts: Map<Seq<char>, Seq<char>>,
    files: Seq<Seq<u8>>,
) -> Map<Seq<char>, Seq<char>>
    decreases files.len(),
{
    if files.len() == 0 {
        texts
    } else {
        with_english_entries(
            keys,
            with_english_files(keys, texts, files.drop_last()),
            file_entries(files.last()),
        )
    }
}

/// The separator between a text and its translation in a hint.
pub open spec fn hint_arrow() -> Seq<char> {
    seq![' ', '\u{2192}', ' ']
}

/// A hint line: the English text, an arrow and the translation.
pub open spec fn hint_line(text: Seq<char>, translation: Seq<char>) -> Seq<char> {
    text + hint_arrow() + translation
}

/// A known English text is a hint for `source` when, both lowercased, the
/// source occurs in it.
pub open spec fn is_hint_for(text: Seq<char>, source: Seq<char>) -> bool {
    has_infix(lowercased(text), lowercased(source))
}

/// `line` is the hint line of a known text that is a hint for `source`.
pub open spec fn is_known_hint(
    texts: Map<Seq<char>, Seq<char>>,
    source: Seq<char>,
    line: Seq<char>,
) -> bool {
    exists|t: Seq<char>|
        texts.contains_key(t) && is_hint_for(t, source) && line == hint_line(t, #[trigger] texts[t])
}

/// The hint lines of the pairs whose text is a hint for `source`, in order.
pub open spec fn matching_hints(ps: Seq<(String, String)>, source: Seq<char>) -> Seq<Seq<char>>
    decreases ps.len(),
{
    if ps.len() == 0 {
        Seq::empty()
    } else {
        let rest = matching_hints(ps.drop_last(), source);
        let p = ps.last();
        if is_hint_for(p.0@, source) {
            rest.push(hint_line(p.0@, p.1@))
        } else {
            rest
        }
    }
}

/// At most the first three matching hint lines.
pub open spec fn context_hints(ps: Seq<(String, String)>, source: Seq<char>) -> Seq<Seq<char>> {
    let all = matching_hints(ps, source);
    if all.len() <= 3 {
        all
    } else {
        all.take(3)
    }
}

/// The hints of a prefix of the pairs are a prefix of the hints of all of
/// them.
proof fn lemma_matching_prefix(ps: Seq<(String, String)>, source: Seq<char>, i: int)
    requires
        0 <= i <= ps.len(),
    ensures
        matching_hints(ps.take(i), source).len() <= matching_hints(ps, source).len(),
        matching_hints(ps, source).take(matching_hints(ps.take(i), source).len() as int)
            == matching_hints(ps.take(i), source),
    decreases ps.len() - i,
{
    if i < ps.len() {
        lemma_matching_prefix(ps, source, i + 1);
        let t = ps.take(i + 1);
        assert(t.drop_last() =~= ps.take(i));
        let a = matching_hints(ps.take(i), source);
        let b = matching_hints(t, source);
        let c = matching_hints(ps, source);
        assert(c.take(a.len() as int) =~= b.take(a.len() as int).take(a.len() as int));
        assert(b.take(a.len() as int) =~= a);
    } else {
        assert(ps.take(i) =~= ps);
        let c = matching_hints(ps, source);
        assert(c.take(c.len() as int) =~= c);
    }
}

/// Each hint line comes from a pair whose text is a hint for the source.
proof fn lemma_matching_origin(ps: Seq<(String, String)>, source: Seq<char>, k: int)
    requires
        0 <= k < matching_hints(ps, source).len(),
    ensures
        exists|j: int|
            0 <= j < ps.len() && is_hint_for((#[trigger] ps[j]).0@, source) && matching_hints(
                ps,
                source,
            )[k] == hint_line(ps[j].0@, ps[j].1@),
    decreases ps.len(),
{
    let rest = matching_hints(ps.drop_last(), source);
    if k < rest.len() {
        lemma_matching_origin(ps.drop_last(), source, k);
        let j = choose|j: int|
            0 <= j < ps.drop_last().len() && is_hint_for((#[trigger] ps.drop_last()[j]).0@, source)
                && rest[k] == hint_line(ps.drop_last()[j].0@, ps.drop_last()[j].1@);
        assert(ps[j] == ps.drop_last()[j]);
    } else {
        assert(ps[ps.len() - 1] == ps.last());
    }
}

/// The game's own translations: target-language values by section and key, and by
/// the English text of the same key.
pub struct VanillaTranslationService {
    key_to_value: Vec<(String, String, String)>,
    text_to_value: StringMap,
}

impl VanillaTranslationService {
    /// Translations by section and key.
    pub closed spec fn keys(&self) -> Map<(Seq<char>, Seq<char>), Seq<char>> {
        triple_map(self.key_to_value@)
    }

    /// Translations by English text.
    pub closed spec fn texts(&self) -> Map<Seq<char>, Seq<char>> {
        self.text_to_value@
    }

    /// The English texts and their translations, in the order they are kept.
    pub closed spec fn text_pairs(&self) -> Seq<(String, String)> {
        self.text_to_value.pair_list()
    }

    /// A service that knows no translation.
    pub fn new() -> (r: Self)
        ensures
            r.keys() == Map::<(Seq<char>, Seq<char>), Seq<char>>::empty(),
            r.texts() == Map::<Seq<char>, Seq<char>>::empty(),
            r.text_pairs().len() == 0,
    {
        VanillaTranslationService { key_to_value: Vec::new(), text_to_value: StringMap::new() }
    }

    /// Forgets every translation.
    pub fn clear(&mut self)
        ensures
            final(self).keys() == Map::<(Seq<char>, Seq<char>), Seq<char>>::empty(),
            final(self).texts() == Map::<Seq<char>, Seq<char>>::empty(),
            final(self).text_pairs().len() == 0,
    {
        self.key_to_value = Vec::new();
        self.text_to_value = StringMap::new();
    }

    /// Stores the values of the target-language entries under their section and key.
    fn load_target_entries(&mut self, parsed: &CfgFile)
        ensures
            final(self).keys() == with_target_entries(old(self).keys(), parsed@.entries),
            final(self).texts() == old(self).texts(),
            final(self).text_pairs() == old(self).text_pairs(),
    {
        let mut i: usize = 0;
        while i < parsed.entries.len()
            invariant
                i <= parsed.entries@.len(),
                self.keys() == with_target_entries(
                    old(self).keys(),
                    entry_views(parsed.entries@).take(i as int),
                ),
                self.texts() == old(self).texts(),
                self.text_pairs() == old(self).text_pairs(),
            decreases parsed.entries@.len() - i,
        {
            let e: &CfgEntry = &parsed.entries[i];
            let ghost before = self.key_to_value@;
            self.key_to_value.push((e.section.clone(), e.key.clone(), e.value.clone()));
            proof {
                assert(self.key_to_value@.drop_last() =~= before);
                let es = entry_views(parsed.entries@);
                assert(es.take(i + 1).drop_last() =~= es.take(i as int));
                assert(es.take(i + 1).last() == e@);
            }
            i = i + 1;
        }
        assert(entry_views(parsed.entries@).take(i as int) =~= entry_views(parsed.entries@));
    }

    /// Maps the English text of each entry whose section and key have a translation
    /// to that translation.
    fn load_english_entries(&mut self, parsed: &CfgFile)
        ensures
            final(self).keys() == old(self).keys(),
            final(self).texts() == with_english_entries(
                old(self).keys(),
                old(self).texts(),
                parsed@.entries,
            ),
    {
        let mut i: usize = 0;
        while i < parsed.entries.len()
            invariant
                i <= parsed.entries@.len(),
                self.keys() == old(self).keys(),
                self.texts() == with_english_entries(
                    old(self).keys(),
                    old(self).texts(),
                    entry_views(parsed.entries@).take(i as int),
                ),
            decreases parsed.entries@.len() - i,
        {
            let e: &CfgEntry = &parsed.entries[i];
            match self.lookup(e.section.as_str(), e.key.as_str()) {
                Some(target) => {
                    let t = target.clone();
                    self.text_to_value.insert(e.value.clone(), t);
                },
                None => {},
            }
            proof {
                let es = entry_views(parsed.entries@);
                assert(es.take(i + 1).drop_last() =~= es.take(i as int));
                assert(es.take(i + 1).last() == e@);
            }
            i = i + 1;
        }
        assert(entry_views(parsed.entries@).take(i as int) =~= entry_views(parsed.entries@));
    }

    /// Reads the given locale files, of the target language or of English,
    /// in order.
    pub fn load_locale_files(&mut self, files: &Vec<Vec<u8>>, is_target_lang: bool)
        ensures
            is_target_lang ==> final(self).keys() == with_target_files(
                old(self).keys(),
                byte_views(files@),
            ) && final(self).texts() == old(self).texts(),
            !is_target_lang ==> final(self).keys() == old(self).keys() && final(self).texts()
                == with_english_files(old(self).keys(), old(self).texts(), byte_views(files@)),
    {
        let mut i: usize = 0;
        while i < files.len()
            invariant
                i <= files@.len(),
                is_target_lang ==> self.keys() == with_target_files(
                    old(self).keys(),
                    byte_views(files@).take(i as int),
                ) && self.texts() == old(self).texts(),
                !is_target_lang ==> self.keys() == old(self).keys() && self.texts()
                    == with_english_files(
                    old(self).keys(),
                    old(self).texts(),
                    byte_views(files@).take(i as int),
                ),
            decreases files@.len() - i,
        {
            let no_path = String::new();
            let no_lang = String::new();
            let parsed = CfgParser::parse(files[i].as_slice(), no_path, no_lang);
            proof {
                let fs = byte_views(files@);
                assert(fs.take(i + 1).drop_last() =~= fs.take(i as int));
                assert(fs.take(i + 1).last() == files@[i as int]@);
            }
            if is_target_lang {
                self.load_target_entries(&parsed);
            } else {
                self.load_english_entries(&parsed);
            }
            i = i + 1;
        }
        assert(byte_views(files@).take(i as int) =~= byte_views(files@));
    }

    /// Replaces what the service knows by the given files: first the files of
    /// the target language, then the English ones, whose texts are matched to
    /// the translations of the same keys.
    pub fn load_vanilla_contents(&mut self, target_files: &Vec<Vec<u8>>, english_files: &Vec<Vec<u8>>)
        ensures
            final(self).keys() == with_target_files(
                Map::<(Seq<char>, Seq<char>), Seq<char>>::empty(),
                byte_views(target_files@),
            ),
            final(self).texts() == with_english_files(
                final(self).keys(),
                Map::<Seq<char>, Seq<char>>::empty(),
                byte_views(english_files@),
            ),
    {
        self.clear();
        self.load_locale_files(target_files, true);
        self.load_locale_files(english_files, false);
    }

    /// The stored translation of the entry `key` of `section`: the last one
    /// stored.
    fn lookup(&self, section: &str, key: &str) -> (r: Option<&String>)
        ensures
            r matches Some(v) ==> self.keys().contains_key((section@, key@)) && v@
                == self.keys()[(section@, key@)],
            r is None ==> !self.keys().contains_key((section@, key@)),
    {
        let ghost v = self.key_to_value@;
        let ghost k = (section@, key@);
        let mut i: usize = self.key_to_value.len();
        while i > 0
            invariant
                i <= v.len(),
                v == self.key_to_value@,
                k == (section@, key@),
                triple_map(v).contains_key(k) == triple_map(v.take(i as int)).contains_key(k),
                triple_map(v).contains_key(k) ==> triple_map(v)[k] == triple_map(v.take(i as int))[k],
            decreases i,
        {
            let j = i - 1;
            proof {
                let t = v.take(i as int);
                assert(t.drop_last() =~= v.take(j as int));
                assert(t.last() == v[j as int]);
                assert(triple_map(t) == triple_map(v.take(j as int)).insert(
                    (v[j as int].0@, v[j as int].1@),
                    v[j as int].2@,
                ));
            }
            let item = &self.key_to_value[j];
            assert(*item == v[j as int]);
            if same_text(item.0.as_str(), section) && same_text(item.1.as_str(), key) {
                return Some(&item.2);
            }
            i = j;
        }
        assert(v.take(0) =~= Seq::<(String, String, String)>::empty());
        None
    }

    /// The translation of the entry `key` of `section`, if the game has one.
    pub fn match_by_key(&self, section: &str, key: &str) -> (r: Option<String>)
        ensures
            r matches Some(v) ==> self.keys().contains_key((section@, key@)) && v@
                == self.keys()[(section@, key@)],
            r is None ==> !self.keys().contains_key((section@, key@)),
    {
        match self.lookup(section, key) {
            Some(v) => Some(v.clone()),
            None => None,
        }
    }

    /// The translation of an English text, if the game has one.
    pub fn match_by_text(&self, source_text: &str) -> (r: Option<String>)
        ensures
            r matches Some(v) ==> self.texts().contains_key(source_text@) && v@
                == self.texts()[source_text@],
            r is None ==> !self.texts().contains_key(source_text@),
    {
        match self.text_to_value.get(source_text) {
            Some(v) => Some(v.clone()),
            None => None,
        }
    }

    /// Up to three known translations whose English text contains the source
    /// text, ignoring case, each as `text → translation`.
    pub fn get_context_hints(&self, source_text: &str) -> (r: Vec<String>)
        ensures
            r@.map_values(|s: String| s@) == context_hints(self.text_pairs(), source_text@),
            r@.len() <= 3,
            distinct_keys(self.text_pairs()),
            map_of(self.text_pairs()) == self.texts(),
            forall|k: int|
                0 <= k < r@.len() ==> is_known_hint(self.texts(), source_text@, (#[trigger] r@[k])@),
    {
        let pairs = self.text_to_value.pairs();
        let needle = lowercase(source_text);
        let mut out: Vec<String> = Vec::new();
        let mut i: usize = 0;
        while i < pairs.len()
            invariant_except_break
                out@.len() < 3,
            invariant
                pairs@ == self.text_pairs(),
                needle@ == lowercased(source_text@),
                i <= pairs@.len(),
                out@.len() <= 3,
                out@.map_values(|s: String| s@) == matching_hints(pairs@.take(i as int), source_text@),
            ensures
                i == pairs@.len() || out@.len() == 3,
            decreases pairs@.len() - i,
        {
            let ghost before = out@;
            let lk = lowercase(pairs[i].0.as_str());
            if contains_text(lk.as_str(), needle.as_str()) {
                proof {
                    reveal_strlit(" \u{2192} ");
                    assert(" \u{2192} "@ =~= hint_arrow());
                }
                let line = concat3(pairs[i].0.as_str(), " \u{2192} ", pairs[i].1.as_str());
                let ghost lv = line@;
                out.push(line);
                proof {
                    assert(out@.map_values(|s: String| s@) =~= before.map_values(|s: String| s@).push(
                        lv,
                    ));
                }
            } else {
                assert(out@ == before);
            }
            proof {
                let t = pairs@.take(i + 1);
                assert(t.drop_last() =~= pairs@.take(i as int));
                assert(t.last() == pairs@[i as int]);
                assert(out@.map_values(|s: String| s@) =~= matching_hints(t, source_text@));
            }
            i = i + 1;
            if out.len() == 3 {
                break;
            }
        }
        proof {
            lemma_matching_prefix(pairs@, source_text@, i as int);
            if i == pairs@.len() {
                assert(pairs@.take(i as int) =~= pairs@);
            }
            let all = matching_hints(pairs@, source_text@);
            assert(all.len() == 3 ==> all.take(3) =~= all);
            let hs = out@.map_values(|s: String| s@);
            assert forall|k: int| 0 <= k < out@.len() implies is_known_hint(
                self.texts(),
                source_text@,
                (#[trigger] out@[k])@,
            ) by {
                let all = matching_hints(pairs@, source_text@);
                assert(hs[k] == out@[k]@);
                assert(hs[k] == all[k]);
                lemma_matching_origin(pairs@, source_text@, k);
                let j = choose|j: int|
                    0 <= j < pairs@.len() && is_hint_for((#[trigger] pairs@[j]).0@, source_text@)
                        && all[k] == hint_line(pairs@[j].0@, pairs@[j].1@);
                assert(self.texts()[pairs@[j].0@] == pairs@[j].1@);
            }
        }
        out
    }
}

/// The entries of the files, one file after the other.
pub open spec fn all_entries(files: Seq<Seq<u8>>) -> Seq<CfgEntryView>
    decreases files.len(),
{
    if files.len() == 0 {
        seq![]
    } else {
        all_entries(files.drop_last()) + file_entries(files.last())
    }
}

/// The position of the last entry with this section and key.
pub open spec fn last_keyed_entry(es: Seq<CfgEntryView>, section: Seq<char>, key: Seq<char>) -> Option<
    int,
>
    decreases es.len(),
{
    if es.len() == 0 {
        None
    } else if es.last().section == section && es.last().key == key {
        Some(es.len() - 1)
    } else {
        last_keyed_entry(es.drop_last(), section, key)
    }
}

/// The position of the last entry with this English text whose section and
/// key have a translation.
pub open spec fn last_known_text(
    keys: Map<(Seq<char>, Seq<char>), Seq<char>>,
    es: Seq<CfgEntryView>,
    text: Seq<char>,
) -> Option<int>
    decreases es.len(),
{
    if es.len() == 0 {
        None
    } else if es.last().value == text && keys.contains_key((es.last().section, es.last().key)) {
        Some(es.len() - 1)
    } else {
        last_known_text(keys, es.drop_last(), text)
    }
}

proof fn lemma_target_entries_concat(
    m: Map<(Seq<char>, Seq<char>), Seq<char>>,
    a: Seq<CfgEntryView>,
    b: Seq<CfgEntryView>,
)
    ensures
        with_target_entries(m, a + b) == with_target_entries(with_target_entries(m, a), b),
    decreases b.len(),
{
    if b.len() == 0 {
        assert(a + b =~= a);
    } else {
        lemma_target_entries_concat(m, a, b.drop_last());
        assert((a + b).drop_last() =~= a + b.drop_last());
        assert((a + b).last() == b.last());
    }
}

proof fn lemma_english_entries_concat(
    keys: Map<(Seq<char>, Seq<char>), Seq<char>>,
    m: Map<Seq<char>, Seq<char>>,
    a: Seq<CfgEntryView>,
    b: Seq<CfgEntryView>,
)
    ensures
        with_english_entries(keys, m, a + b) == with_english_entries(
            keys,
            with_english_entries(keys, m, a),
            b,
        ),
    decreases b.len(),
{
    if b.len() == 0 {
        assert(a + b =~= a);
    } else {
        lemma_english_entries_concat(keys, m, a, b.drop_last());
        assert((a + b).drop_last() =~= a + b.drop_last());
        assert((a + b).last() == b.last());
    }
}

proof fn lemma_target_files_flat(files: Seq<Seq<u8>>)
    ensures
        with_target_files(Map::empty(), files) == with_target_entries(
            Map::empty(),
            all_entries(files),
        ),
    decreases files.len(),
{
    if files.len() > 0 {
        lemma_target_files_flat(files.drop_last());
        lemma_target_entries_concat(
            Map::empty(),
            all_entries(files.drop_last()),
            file_entries(files.last()),
        );
    }
}

proof fn lemma_english_files_flat(keys: Map<(Seq<char>, Seq<char>), Seq<char>>, files: Seq<Seq<u8>>)
    ensures
        with_english_files(keys, Map::empty(), files) == with_english_entries(
            keys,
            Map::empty(),
            all_entries(files),
        ),
    decreases files.len(),
{
    if files.len() > 0 {
        lemma_english_files_flat(keys, files.drop_last());
        lemma_english_entries_concat(
            keys,
            Map::empty(),
            all_entries(files.drop_last()),
            file_entries(files.last()),
        );
    }
}

proof fn lemma_target_entries_lookup(es: Seq<CfgEntryView>, section: Seq<char>, key: Seq<char>)
    ensures
        ({
            let m = with_target_entries(Map::empty(), es);
            &&& m.contains_key((section, key)) <==> last_keyed_entry(es, section, key) is Some
            &&& last_keyed_entry(es, section, key) matches Some(j) ==> 0 <= j < es.len()
                && es[j].section == section && es[j].key == key && m[(section, key)] == es[j].value
                && forall|i: int|
                0 <= i < es.len() && j < i ==> !(es[i].section == section && es[i].key == key)
            &&& last_keyed_entry(es, section, key) is None ==> forall|i: int|
                0 <= i < es.len() ==> !(es[i].section == section && es[i].key == key)
        }),
    decreases es.len(),
{
    if es.len() > 0 {
        let t = es.drop_last();
        lemma_target_entries_lookup(t, section, key);
        assert forall|i: int| 0 <= i < t.len() implies es[i] == t[i] by {}
        assert(es[es.len() - 1] == es.last());
    }
}

proof fn lemma_english_entries_lookup(
    keys: Map<(Seq<char>, Seq<char>), Seq<char>>,
    es: Seq<CfgEntryView>,
    text: Seq<char>,
)
    ensures
        ({
            let m = with_english_entries(keys, Map::empty(), es);
            &&& m.contains_key(text) <==> last_known_text(keys, es, text) is Some
            &&& last_known_text(keys, es, text) matches Some(j) ==> 0 <= j < es.len()
                && es[j].value == text && keys.contains_key((es[j].section, es[j].key))
                && m[text] == keys[(es[j].section, es[j].key)] && forall|i: int|
                0 <= i < es.len() && j < i ==> !((#[trigger] es[i]).value == text
                    && keys.contains_key((es[i].section, es[i].key)))
            &&& last_known_text(keys, es, text) is None ==> forall|i: int|
                0 <= i < es.len() ==> !((#[trigger] es[i]).value == text && keys.contains_key(
                    (es[i].section, es[i].key),
                ))
        }),
    decreases es.len(),
{
    if es.len() > 0 {
        let t = es.drop_last();
        lemma_english_entries_lookup(keys, t, text);
        assert forall|i: int| 0 <= i < t.len() implies es[i] == t[i] by {}
        assert(es[es.len() - 1] == es.last());
    }
}

/// The game's translation of a section and key, once the target-language
/// files are loaded in order, is there exactly when some loaded entry has
/// that section and key, and it is the value of the last such entry.
pub proof fn lemma_key_table(target_files: Seq<Seq<u8>>, section: Seq<char>, key: Seq<char>)
    ensures
        ({
            let es = all_entries(target_files);
            let m = with_target_files(Map::empty(), target_files);
            &&& m.contains_key((section, key)) <==> exists|i: int|
                0 <= i < es.len() && es[i].section == section && es[i].key == key
            &&& m.contains_key((section, key)) ==> exists|j: int|
                0 <= j < es.len() && es[j].section == section && es[j].key == key && m[(
                    section,
                    key,
                )] == es[j].value && forall|i: int|
                    0 <= i < es.len() && j < i ==> !(es[i].section == section && es[i].key
                        == key)
        }),
{
    lemma_target_files_flat(target_files);
    lemma_target_entries_lookup(all_entries(target_files), section, key);
}

/// The game's translation of an English text, once the English files are
/// loaded in order against a key table, is there exactly when some loaded
/// English entry has exactly that text and a section and key that the table
/// translates, and it is the table's translation of the last such entry.
pub proof fn lemma_text_table(
    keys: Map<(Seq<char>, Seq<char>), Seq<char>>,
    english_files: Seq<Seq<u8>>,
    text: Seq<char>,
)
    ensures
        ({
            let es = all_entries(english_files);
            let m = with_english_files(keys, Map::empty(), english_files);
            &&& m.contains_key(text) <==> exists|i: int|
                0 <= i < es.len() && es[i].value == text && keys.contains_key(
                    (es[i].section, es[i].key),
                )
            &&& m.contains_key(text) ==> exists|j: int|
                0 <= j < es.len() && es[j].value == text && keys.contains_key(
                    (es[j].section, es[j].key),
                ) && m[text] == keys[(es[j].section, es[j].key)] && forall|i: int|
                    0 <= i < es.len() && j < i ==> !(es[i].value == text && keys.contains_key(
                        (es[i].section, es[i].key),
                    ))
        }),
{
    lemma_english_files_flat(keys, english_files);
    lemma_english_entries_lookup(keys, all_entries(english_files), text);
}

} // verus!

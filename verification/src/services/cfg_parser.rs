//! Reading and writing Factorio locale files (`.cfg`).
//!
//! A file is read line by line: comment lines (`;` or `#`) gather until the
//! next `key=value` line, which takes them as its comment; so do blank lines
//! inside a section, which keeps them where they stand; `[section]` lines
//! open a section; comments above the first section become the file's
//! header comments. Writing produces the header comments and a blank line,
//! then each section of `section_order` with its entries, one blank line
//! between two sections. Blank lines above the first section, just above a
//! section header and at the end of the file are those the writer puts.
use vstd::prelude::*;
use vstd::utf8::*;
use crate::models::cfg::{CfgEntry, CfgEntryView, CfgFile, CfgFileView, entry_views, string_views};
use crate::text::{
    chars_of, find_char, first_index_of, join_with, lemma_first_index_found,
    lemma_first_index_scan, same_text, split_on, string_of, string_of_range, trim, trim_bounds,
};

verus! {

broadcast use vstd::seq_lib::group_seq_properties;

#[verifier::external_type_specification]
#[verifier::external_body]
pub struct ExUtf8Error(core::str::Utf8Error);

/// `str::from_utf8` accepts exactly the valid UTF-8 byte sequences and
/// decodes them.
pub assume_specification[ core::str::from_utf8 ](v: &[u8]) -> (r: Result<&str, core::str::Utf8Error>)
    ensures
        r is Ok <==> valid_utf8(v@),
        r matches Ok(s) ==> s@ == decode_utf8(v@),
;

/// The lines of a byte stream as `BufRead::lines` cuts them: the pieces
/// between newline bytes, where a final newline opens no further line.
pub open spec fn byte_lines(b: Seq<u8>) -> Seq<Seq<u8>>
    decreases b.len(),
{
    if b.len() == 0 {
        seq![]
    } else {
        match first_index_of(b, 10u8) {
            Some(i) => if 0 <= i < b.len() {
                seq![b.take(i)] + byte_lines(b.skip(i + 1))
            } else {
                seq![b]
            },
            None => seq![b],
        }
    }
}

/// A line as the parser sees it: trimmed text, or nothing when the bytes are
/// not valid UTF-8 (such lines are skipped).
pub open spec fn read_line(seg: Seq<u8>) -> Option<Seq<char>> {
    if valid_utf8(seg) {
        Some(trim(decode_utf8(seg)))
    } else {
        None
    }
}

/// What the parser knows after some lines.
#[verifier::ext_equal]
pub struct ParseState {
    pub entries: Seq<CfgEntryView>,
    pub section_order: Seq<Seq<char>>,
    pub header_comments: Seq<Seq<char>>,
    pub current_section: Option<Seq<char>>,
    pub current_comments: Seq<Seq<char>>,
    pub is_header: bool,
}

/// The state before the first line.
pub open spec fn initial_state() -> ParseState {
    ParseState {
        entries: seq![],
        section_order: seq![],
        header_comments: seq![],
        current_section: None,
        current_comments: seq![],
        is_header: true,
    }
}

/// A line that starts with `;` or `#`.
pub open spec fn is_comment_start(l: Seq<char>) -> bool {
    l.len() > 0 && (l[0] == ';' || l[0] == '#')
}

/// A line of the form `[...]`.
pub open spec fn is_section_line(l: Seq<char>) -> bool {
    l.len() > 0 && l[0] == '[' && l.last() == ']'
}

/// The newline character as a one-character sequence.
pub open spec fn newline() -> Seq<char> {
    seq!['\n']
}

/// The entry that a `key=value` line with `=` at `pos` makes.
pub open spec fn entry_of_line(
    section: Seq<char>,
    l: Seq<char>,
    pos: int,
    comments: Seq<Seq<char>>,
) -> CfgEntryView {
    CfgEntryView {
        section: section,
        key: trim(l.take(pos)),
        value: trim(l.skip(pos + 1)),
        comment: if comments.len() > 0 {
            Some(join_with(comments, newline()))
        } else {
            None
        },
    }
}

/// The lines that are not blank, in order.
pub open spec fn non_blank(cs: Seq<Seq<char>>) -> Seq<Seq<char>>
    decreases cs.len(),
{
    if cs.len() == 0 {
        seq![]
    } else {
        non_blank(cs.drop_last()) + if cs.last().len() > 0 {
            seq![cs.last()]
        } else {
            seq![]
        }
    }
}

/// The effect of one trimmed line on the parser's state.
pub open spec fn parse_step(st: ParseState, l: Seq<char>) -> ParseState {
    if l.len() == 0 {
        if st.current_section is Some {
            ParseState { current_comments: st.current_comments.push(l), ..st }
        } else {
            st
        }
    } else if is_comment_start(l) {
        ParseState { current_comments: st.current_comments.push(l), ..st }
    } else if is_section_line(l) {
        let s = l.subrange(1, l.len() - 1);
        let drain = st.is_header && st.current_comments.len() > 0;
        ParseState {
            section_order: if st.section_order.contains(s) {
                st.section_order
            } else {
                st.section_order.push(s)
            },
            current_section: Some(s),
            header_comments: if drain {
                st.header_comments + st.current_comments
            } else {
                st.header_comments
            },
            current_comments: if drain {
                seq![]
            } else {
                non_blank(st.current_comments)
            },
            is_header: false,
            ..st
        }
    } else {
        match st.current_section {
            Some(sec) => match first_index_of(l, '=') {
                Some(pos) => ParseState {
                    entries: st.entries.push(entry_of_line(sec, l, pos, st.current_comments)),
                    current_comments: seq![],
                    is_header: false,
                    ..st
                },
                None => st,
            },
            None => if st.is_header {
                ParseState {
                    header_comments: st.header_comments + st.current_comments,
                    current_comments: seq![],
                    ..st
                }
            } else {
                st
            },
        }
    }
}

/// The state after a sequence of read lines, skipping the unreadable ones.
pub open spec fn parse_from(st: ParseState, ls: Seq<Option<Seq<char>>>) -> ParseState
    decreases ls.len(),
{
    if ls.len() == 0 {
        st
    } else {
        let prev = parse_from(st, ls.drop_last());
        match ls.last() {
            Some(l) => parse_step(prev, l),
            None => prev,
        }
    }
}

/// The lines of a byte stream as the parser reads them.
pub open spec fn read_lines(b: Seq<u8>) -> Seq<Option<Seq<char>>> {
    byte_lines(b).map_values(|seg: Seq<u8>| read_line(seg))
}

/// The file that parsing the bytes `content` gives.
pub open spec fn parse_spec(content: Seq<u8>, file_path: Seq<char>, lang: Seq<char>) -> CfgFileView {
    let st = parse_from(initial_state(), read_lines(content));
    CfgFileView {
        file_path: file_path,
        language_code: lang,
        entries: st.entries,
        section_order: st.section_order,
        header_comments: st.header_comments,
    }
}

/// The mutable state of a parse in progress.
struct Parsing {
    entries: Vec<CfgEntry>,
    section_order: Vec<String>,
    header_comments: Vec<String>,
    current_section: Option<String>,
    current_comments: Vec<String>,
    is_header: bool,
}

impl Parsing {
    spec fn state(&self) -> ParseState {
        ParseState {
            entries: entry_views(self.entries@),
            section_order: string_views(self.section_order@),
            header_comments: string_views(self.header_comments@),
            current_section: match self.current_section {
                Some(s) => Some(s@),
                None => None,
            },
            current_comments: string_views(self.current_comments@),
            is_header: self.is_header,
        }
    }

    /// Moves the gathered comments to the header comments.
    fn drain_comments_to_header(&mut self)
        ensures
            final(self).state() == (ParseState {
                header_comments: old(self).state().header_comments + old(
                    self,
                ).state().current_comments,
                current_comments: seq![],
                ..old(self).state()
            }),
    {
        let ghost hc = string_views(self.header_comments@);
        let ghost cc = string_views(self.current_comments@);
        let mut taken: Vec<String> = Vec::new();
        std::mem::swap(&mut taken, &mut self.current_comments);
        let mut header: Vec<String> = Vec::new();
        std::mem::swap(&mut header, &mut self.header_comments);
        let mut i: usize = 0;
        while i < taken.len()
            invariant
                i <= taken@.len(),
                string_views(taken@) == cc,
                string_views(header@) == hc + cc.take(i as int),
            decreases taken@.len() - i,
        {
            let ghost before = header@;
            header.push(taken[i].clone());
            proof {
                assert(cc[i as int] == taken@[i as int]@);
                assert(header@ == before.push(taken@[i as int]));
                assert(cc.take(i + 1) =~= cc.take(i as int).push(cc[i as int]));
                assert(string_views(header@) =~= string_views(before).push(taken@[i as int]@));
                assert(string_views(header@) =~= hc + cc.take(i + 1));
            }
            i = i + 1;
        }
        assert(cc.take(cc.len() as int) =~= cc);
        self.header_comments = header;
        self.current_comments = Vec::new();
        assert(string_views(self.current_comments@) =~= Seq::<Seq<char>>::empty());
    }

    /// Drops the blank lines from the gathered comments.
    fn drop_blank_comments(&mut self)
        ensures
            final(self).state() == (ParseState {
                current_comments: non_blank(old(self).state().current_comments),
                ..old(self).state()
            }),
    {
        let ghost cc = string_views(self.current_comments@);
        let mut taken: Vec<String> = Vec::new();
        std::mem::swap(&mut taken, &mut self.current_comments);
        let mut kept: Vec<String> = Vec::new();
        let mut i: usize = 0;
        while i < taken.len()
            invariant
                i <= taken@.len(),
                string_views(taken@) == cc,
                string_views(kept@) == non_blank(cc.take(i as int)),
            decreases taken@.len() - i,
        {
            let ghost before = kept@;
            proof {
                assert(cc[i as int] == taken@[i as int]@);
                assert(cc.take(i + 1).drop_last() =~= cc.take(i as int));
                assert(cc.take(i + 1).last() == cc[i as int]);
            }
            if !taken[i].as_str().is_empty() {
                kept.push(taken[i].clone());
                proof {
                    assert(string_views(kept@) =~= string_views(before).push(taken@[i as int]@));
                }
            } else {
                proof {
                    assert(non_blank(cc.take(i + 1)) =~= non_blank(cc.take(i as int)));
                }
            }
            i = i + 1;
        }
        assert(cc.take(cc.len() as int) =~= cc);
        self.current_comments = kept;
    }

    /// Applies one trimmed line.
    fn apply(&mut self, line: &Vec<char>)
        ensures
            final(self).state() == parse_step(old(self).state(), line@),
    {
        let n = line.len();
        if n == 0 {
            if self.current_section.is_some() {
                self.current_comments.push(String::new());
                assert(string_views(self.current_comments@) =~= old(
                    self,
                ).state().current_comments.push(line@));
            }
            return ;
        }
        if line[0] == ';' || line[0] == '#' {
            let l = string_of(line.as_slice());
            self.current_comments.push(l);
            assert(string_views(self.current_comments@) =~= old(self).state().current_comments.push(
                line@,
            ));
            return ;
        }
        if line[0] == '[' && line[n - 1] == ']' {
            let section = string_of_range(line.as_slice(), 1, n - 1);
            if !contains_string(&self.section_order, &section) {
                self.section_order.push(section.clone());
                assert(string_views(self.section_order@) =~= old(self).state().section_order.push(
                    section@,
                ));
            }
            self.current_section = Some(section);
            if self.is_header && self.current_comments.len() > 0 {
                self.drain_comments_to_header();
            } else {
                self.drop_blank_comments();
            }
            self.is_header = false;
            return ;
        }
        let ghost st = self.state();
        match &self.current_section {
            Some(sec) => {
                match find_char(line.as_slice(), '=') {
                    Some(pos) => {
                        proof {
                            lemma_first_index_found(line@, '=');
                        }
                        let (a, b) = trim_bounds(vstd::slice::slice_subrange(line.as_slice(), 0, pos));
                        assert(line@.subrange(0, pos as int) =~= line@.take(pos as int));
                        let key = string_of_range(line.as_slice(), a, b);
                        assert(line@.subrange(0, pos as int).subrange(a as int, b as int)
                            =~= line@.subrange(a as int, b as int));
                        let rest = vstd::slice::slice_subrange(line.as_slice(), pos + 1, n);
                        assert(rest@ =~= line@.skip(pos + 1));
                        let (c, d) = trim_bounds(rest);
                        let value = string_of_range(rest, c, d);
                        let comment = if self.current_comments.len() > 0 {
                            Some(join_lines(&self.current_comments))
                        } else {
                            None
                        };
                        let entry = CfgEntry { section: sec.clone(), key, value, comment };
                        self.entries.push(entry);
                        self.current_comments = Vec::new();
                        self.is_header = false;
                        assert(entry_views(self.entries@) =~= st.entries.push(
                            entry_of_line(st.current_section->0, line@, pos as int, st.current_comments),
                        ));
                        assert(string_views(self.current_comments@) =~= Seq::<Seq<char>>::empty());
                    },
                    None => {},
                }
            },
            None => {
                if self.is_header {
                    self.drain_comments_to_header();
                }
            },
        }
    }
}

/// A line that starts with `;` or with `#` is a comment: it is gathered as it
/// is, above the next entry or the first section, and changes nothing else.
pub proof fn lemma_comment_lines_gathered(st: ParseState, l: Seq<char>)
    requires
        l.len() > 0,
        l[0] == ';' || l[0] == '#',
    ensures
        parse_step(st, l) == (ParseState { current_comments: st.current_comments.push(l), ..st }),
{
}

/// A comment line inside a section, then a `key=value` line, gives an entry
/// whose comment is that line, whichever of `;` and `#` starts it.
pub proof fn lemma_comment_line_becomes_entry_comment(st: ParseState, c: Seq<char>, kv: Seq<char>)
    requires
        st.current_section is Some,
        st.current_comments.len() == 0,
        c.len() > 0,
        c[0] == ';' || c[0] == '#',
        kv.len() > 0,
        kv[0] != ';' && kv[0] != '#' && kv[0] != '[',
        first_index_of(kv, '=') is Some,
    ensures
        parse_step(parse_step(st, c), kv).entries.last().comment == Some(c),
        parse_step(parse_step(st, c), kv).entries.len() == st.entries.len() + 1,
{
    let st1 = parse_step(st, c);
    assert(st1.current_comments =~= seq![c]);
    assert(join_with(seq![c], newline()) == c);
}

/// Comment lines above the first section, starting with `;` or `#`, become
/// the header comments when the first section opens.
pub proof fn lemma_header_comment_lines(c: Seq<char>, h: Seq<char>)
    requires
        c.len() > 0,
        c[0] == ';' || c[0] == '#',
        is_section_line(h),
    ensures
        parse_step(parse_step(initial_state(), c), h).header_comments == seq![c],
{
    assert(parse_step(initial_state(), c).current_comments =~= seq![c]);
    assert(Seq::<Seq<char>>::empty() + seq![c] =~= seq![c]);
}

/// Whether `s` is one of the strings of `v`.
pub fn contains_string(v: &Vec<String>, s: &String) -> (r: bool)
    ensures
        r == string_views(v@).contains(s@),
{
    let mut i: usize = 0;
    while i < v.len()
        invariant
            i <= v@.len(),
            forall|k: int| 0 <= k < i ==> v@[k]@ != s@,
        decreases v@.len() - i,
    {
        if same_text(v[i].as_str(), s.as_str()) {
            assert(string_views(v@)[i as int] == s@);
            return true;
        }
        i = i + 1;
    }
    assert(!string_views(v@).contains(s@)) by {
        if string_views(v@).contains(s@) {
            let k = choose|k: int| 0 <= k < string_views(v@).len() && string_views(v@)[k] == s@;
            assert(v@[k]@ == s@);
        }
    }
    false
}

/// The strings joined with a newline between consecutive ones.
pub fn join_lines(v: &Vec<String>) -> (r: String)
    ensures
        r@ == join_with(string_views(v@), newline()),
{
    let n = v.len();
    if n == 0 {
        return String::new();
    }
    let mut r = v[n - 1].clone();
    let mut i: usize = n - 1;
    while i > 0
        invariant
            n == v@.len(),
            i < n,
            r@ == join_with(string_views(v@).skip(i as int), newline()),
        decreases i,
    {
        let mut next = v[i - 1].clone();
        proof {
            reveal_strlit("\n");
        }
        next.append("\n");
        next.append(r.as_str());
        proof {
            let t = string_views(v@).skip(i - 1);
            assert(t.drop_first() =~= string_views(v@).skip(i as int));
            assert(t[0] == v@[i - 1]@);
        }
        r = next;
        i = i - 1;
    }
    assert(string_views(v@).skip(0) =~= string_views(v@));
    r
}

/// The start of the next line and the end of the current one, scanning the
/// bytes from `start`.
fn line_end(b: &[u8], start: usize) -> (r: usize)
    requires
        start <= b@.len(),
    ensures
        start <= r <= b@.len(),
        forall|k: int| start <= k < r ==> b@[k] != 10u8,
        r < b@.len() ==> b@[r as int] == 10u8,
{
    let mut j = start;
    while j < b.len() && b[j] != 10u8
        invariant
            start <= j <= b@.len(),
            forall|k: int| start <= k < j ==> b@[k] != 10u8,
        decreases b@.len() - j,
    {
        j = j + 1;
    }
    j
}

/// `byte_lines` as it peels off one line.
proof fn lemma_byte_lines_step(b: Seq<u8>, start: int, end: int)
    requires
        0 <= start < b.len(),
        start <= end <= b.len(),
        forall|k: int| start <= k < end ==> b[k] != 10u8,
        end < b.len() ==> b[end] == 10u8,
    ensures
        end < b.len() ==> byte_lines(b.skip(start)) == seq![b.subrange(start, end)] + byte_lines(
            b.skip(end + 1),
        ),
        end == b.len() ==> byte_lines(b.skip(start)) == seq![b.skip(start)],
{
    let t = b.skip(start);
    assert forall|k: int| 0 <= k < end - start implies #[trigger] t[k] != 10u8 by {
        assert(t[k] == b[k + start]);
    }
    lemma_first_index_scan(t, 10u8, end - start);
    if end < b.len() {
        assert(t.take(end - start) =~= b.subrange(start, end));
        assert(t.skip(end - start + 1) =~= b.skip(end + 1));
    }
}

impl CfgParser {
    /// Parses the bytes of a locale file.
    pub fn parse(content: &[u8], file_path: String, lang_code: String) -> (r: CfgFile)
        ensures
            r@ == parse_spec(content@, file_path@, lang_code@),
    {
        let mut p = Parsing {
            entries: Vec::new(),
            section_order: Vec::new(),
            header_comments: Vec::new(),
            current_section: None,
            current_comments: Vec::new(),
            is_header: true,
        };
        assert(p.state() =~= initial_state());
        let n = content.len();
        let mut start: usize = 0;
        let ghost mut done: Seq<Seq<u8>> = seq![];
        assert(content@.skip(0) =~= content@);
        while start < n
            invariant
                n == content@.len(),
                start <= n,
                byte_lines(content@) == done + byte_lines(content@.skip(start as int)),
                p.state() == parse_from(
                    initial_state(),
                    done.map_values(|seg: Seq<u8>| read_line(seg)),
                ),
            decreases n - start,
        {
            let end = line_end(content, start);
            proof {
                lemma_byte_lines_step(content@, start as int, end as int);
            }
            let seg = vstd::slice::slice_subrange(content, start, end);
            let ghost before = done;
            match core::str::from_utf8(seg) {
                Ok(text) => {
                    let chars = chars_of(text);
                    let (a, b) = trim_bounds(chars.as_slice());
                    let line = vstd::slice::slice_to_vec(
                        vstd::slice::slice_subrange(chars.as_slice(), a, b),
                    );
                    p.apply(&line);
                },
                Err(_) => {},
            }
            proof {
                done = done.push(seg@);
                let m = done.map_values(|s: Seq<u8>| read_line(s));
                assert(m.drop_last() =~= before.map_values(|s: Seq<u8>| read_line(s)));
                if end < n {
                    assert(byte_lines(content@) =~= done + byte_lines(content@.skip(end + 1)));
                } else {
                    assert(content@.skip(start as int) =~= seg@);
                    assert(content@.skip(n as int) =~= Seq::<u8>::empty());
                    assert(byte_lines(content@) =~= done + byte_lines(content@.skip(n as int)));
                }
            }
            start = if end < n { end + 1 } else { end };
        }
        assert(content@.skip(n as int) =~= Seq::<u8>::empty());
        assert(done =~= byte_lines(content@));
        CfgFile {
            file_path,
            language_code: lang_code,
            entries: p.entries,
            section_order: p.section_order,
            header_comments: p.header_comments,
        }
    }
}

/// The parser and writer of locale files.
pub struct CfgParser;

/// The entries of `es` that belong to section `s`, in order.
pub open spec fn entries_in(es: Seq<CfgEntryView>, s: Seq<char>) -> Seq<CfgEntryView>
    decreases es.len(),
{
    if es.len() == 0 {
        seq![]
    } else {
        entries_in(es.drop_last(), s) + if es.last().section == s {
            seq![es.last()]
        } else {
            seq![]
        }
    }
}

/// The lines that one entry is written as: its comment, then `key=value`.
pub open spec fn entry_lines(e: CfgEntryView) -> Seq<Seq<char>> {
    (match e.comment {
        Some(c) => split_on(c, '\n'),
        None => seq![],
    }) + seq![e.key + seq!['='] + e.value]
}

/// The lines of a list of entries.
pub open spec fn entries_lines(es: Seq<CfgEntryView>) -> Seq<Seq<char>>
    decreases es.len(),
{
    if es.len() == 0 {
        seq![]
    } else {
        entries_lines(es.drop_last()) + entry_lines(es.last())
    }
}

/// The lines of one section: its header, then its entries.
pub open spec fn section_lines(s: Seq<char>, es: Seq<CfgEntryView>) -> Seq<Seq<char>> {
    seq![seq!['['] + s + seq![']']] + entries_lines(entries_in(es, s))
}

/// The blank line that stands above a section, unless it is the first.
pub open spec fn separator(k: int) -> Seq<Seq<char>> {
    if k > 0 {
        seq![seq![]]
    } else {
        seq![]
    }
}

/// The lines of the sections of `order`, in that order, a blank line
/// between two sections.
pub open spec fn sections_lines(order: Seq<Seq<char>>, es: Seq<CfgEntryView>) -> Seq<Seq<char>>
    decreases order.len(),
{
    if order.len() == 0 {
        seq![]
    } else {
        sections_lines(order.drop_last(), es) + separator(order.len() - 1) + section_lines(
            order.last(),
            es,
        )
    }
}

/// The header comments, followed by a blank line when there are any.
pub open spec fn header_lines(hc: Seq<Seq<char>>) -> Seq<Seq<char>> {
    hc + if hc.len() > 0 {
        seq![seq![]]
    } else {
        seq![]
    }
}

/// The lines that writing a file produces.
pub open spec fn write_lines(f: CfgFileView) -> Seq<Seq<char>> {
    header_lines(f.header_comments) + sections_lines(f.section_order, f.entries)
}

/// Lines as text, each followed by a newline.
pub open spec fn text_of_lines(ls: Seq<Seq<char>>) -> Seq<char>
    decreases ls.len(),
{
    if ls.len() == 0 {
        seq![]
    } else {
        text_of_lines(ls.drop_last()) + ls.last() + newline()
    }
}

/// The text of concatenated lines is the concatenated texts.
pub proof fn lemma_text_of_concat(a: Seq<Seq<char>>, b: Seq<Seq<char>>)
    ensures
        text_of_lines(a + b) == text_of_lines(a) + text_of_lines(b),
    decreases b.len(),
{
    if b.len() == 0 {
        assert(a + b =~= a);
    } else {
        lemma_text_of_concat(a, b.drop_last());
        assert((a + b).drop_last() =~= a + b.drop_last());
    }
}

/// The text of a single line.
pub proof fn lemma_text_of_single(x: Seq<char>)
    ensures
        text_of_lines(seq![x]) == x + newline(),
{
    assert(seq![x].drop_last() =~= Seq::<Seq<char>>::empty());
    assert(seq![x].last() == x);
    assert(text_of_lines(Seq::<Seq<char>>::empty()) == Seq::<char>::empty());
    assert(Seq::<char>::empty() + x + newline() =~= x + newline());
}

/// Splitting at newlines and writing each piece as a line gives the text
/// back, followed by one newline.
pub proof fn lemma_text_of_split(c: Seq<char>)
    ensures
        text_of_lines(split_on(c, '\n')) == c + newline(),
    decreases c.len(),
{
    lemma_first_index_found(c, '\n');
    match first_index_of(c, '\n') {
        Some(i) => {
            let rest = c.skip(i + 1);
            lemma_text_of_split(rest);
            lemma_text_of_concat(seq![c.take(i)], split_on(rest, '\n'));
            lemma_text_of_single(c.take(i));
            assert(split_on(c, '\n') == seq![c.take(i)] + split_on(rest, '\n'));
            assert(c + newline() =~= (c.take(i) + newline()) + (rest + newline()));
        },
        None => {
            lemma_text_of_single(c);
        },
    }
}

/// Splitting never gives an empty list of pieces.
pub proof fn lemma_split_nonempty(c: Seq<char>, sep: char)
    ensures
        split_on(c, sep).len() >= 1,
    decreases c.len(),
{
    lemma_first_index_found(c, sep);
    match first_index_of(c, sep) {
        Some(i) => {
            lemma_split_nonempty(c.skip(i + 1), sep);
        },
        None => {},
    }
}

/// Joining the pieces of a split with the separator gives the text back.
pub proof fn lemma_join_split(c: Seq<char>)
    ensures
        join_with(split_on(c, '\n'), newline()) == c,
    decreases c.len(),
{
    lemma_first_index_found(c, '\n');
    match first_index_of(c, '\n') {
        Some(i) => {
            let rest = c.skip(i + 1);
            lemma_join_split(rest);
            lemma_split_nonempty(rest, '\n');
            let ps = split_on(c, '\n');
            assert(ps.drop_first() =~= split_on(rest, '\n'));
            assert(c =~= c.take(i) + newline() + rest);
        },
        None => {},
    }
}

/// Appends `s` and a newline.
fn push_line(out: &mut String, s: &str)
    ensures
        final(out)@ == old(out)@ + s@ + newline(),
{
    out.append(s);
    proof {
        reveal_strlit("\n");
    }
    out.append("\n");
}

impl CfgParser {
    /// The text of a locale file: the header comments and a blank line when
    /// there are any, then, for each section of `section_order`, its header
    /// and the entries of that section (each with its comment), with a blank
    /// line between two sections.
    pub fn write(cfg_file: &CfgFile) -> (r: String)
        ensures
            r@ == text_of_lines(write_lines(cfg_file@)),
    {
        let ghost f = cfg_file@;
        let mut out = String::new();
        let hc = &cfg_file.header_comments;
        let mut i: usize = 0;
        while i < hc.len()
            invariant
                i <= hc@.len(),
                f.header_comments == string_views(hc@),
                out@ == text_of_lines(f.header_comments.take(i as int)),
            decreases hc@.len() - i,
        {
            let ghost before = out@;
            push_line(&mut out, hc[i].as_str());
            proof {
                let t = f.header_comments.take(i + 1);
                assert(t.drop_last() =~= f.header_comments.take(i as int));
            }
            i = i + 1;
        }
        assert(f.header_comments.take(hc@.len() as int) =~= f.header_comments);
        if hc.len() > 0 {
            push_line(&mut out, "");
            proof {
                reveal_strlit("");
                lemma_text_of_concat(f.header_comments, seq![seq![]]);
                assert(seq![Seq::<char>::empty()].drop_last() =~= Seq::<Seq<char>>::empty());
            }
        } else {
            assert(f.header_comments + Seq::<Seq<char>>::empty() =~= f.header_comments);
        }
        assert(out@ == text_of_lines(header_lines(f.header_comments)));
        let order = &cfg_file.section_order;
        let mut k: usize = 0;
        while k < order.len()
            invariant
                k <= order@.len(),
                f.section_order == string_views(order@),
                f.entries == entry_views(cfg_file.entries@),
                out@ == text_of_lines(header_lines(f.header_comments)) + text_of_lines(
                    sections_lines(f.section_order.take(k as int), f.entries),
                ),
            decreases order@.len() - k,
        {
            let ghost before = out@;
            let ghost prev = sections_lines(f.section_order.take(k as int), f.entries);
            if k > 0 {
                push_line(&mut out, "");
                proof {
                    reveal_strlit("");
                    lemma_text_of_single(seq![]);
                    lemma_text_of_concat(prev, separator(k as int));
                }
            } else {
                assert(prev + separator(k as int) =~= prev);
            }
            let section = &order[k];
            let block = write_section(section, &cfg_file.entries);
            out.append(block.as_str());
            proof {
                let t = f.section_order.take(k + 1);
                assert(t.drop_last() =~= f.section_order.take(k as int));
                assert(t.last() == section@);
                lemma_text_of_concat(prev + separator(k as int), section_lines(section@, f.entries));
            }
            k = k + 1;
        }
        assert(f.section_order.take(order@.len() as int) =~= f.section_order);
        proof {
            lemma_text_of_concat(header_lines(f.header_comments), sections_lines(f.section_order, f.entries));
        }
        out
    }
}

/// The text of one section.
fn write_section(section: &String, entries: &Vec<CfgEntry>) -> (r: String)
    ensures
        r@ == text_of_lines(section_lines(section@, entry_views(entries@))),
{
    let ghost es = entry_views(entries@);
    let mut out = String::new();
    proof {
        reveal_strlit("[");
        reveal_strlit("]");
    }
    out.append("[");
    out.append(section.as_str());
    out.append("]");
    push_line(&mut out, "");
    proof {
        reveal_strlit("");
        let first = seq!['['] + section@ + seq![']'];
        assert(out@ =~= first + newline());
        lemma_text_of_single(first);
    }
    let ghost head = out@;
    let mut i: usize = 0;
    while i < entries.len()
        invariant
            i <= entries@.len(),
            es == entry_views(entries@),
            out@ == head + text_of_lines(entries_lines(entries_in(es.take(i as int), section@))),
        decreases entries@.len() - i,
    {
        let e = &entries[i];
        let ghost before = out@;
        let ghost prev = entries_in(es.take(i as int), section@);
        proof {
            let t = es.take(i + 1);
            assert(t.drop_last() =~= es.take(i as int));
        }
        if same_text(e.section.as_str(), section.as_str()) {
            let piece = write_entry(e);
            out.append(piece.as_str());
            proof {
                assert(entries_in(es.take(i + 1), section@) =~= prev.push(e@));
                assert(prev.push(e@).drop_last() =~= prev);
                lemma_text_of_concat(entries_lines(prev), entry_lines(e@));
            }
        } else {
            assert(entries_in(es.take(i + 1), section@) =~= prev);
        }
        i = i + 1;
    }
    assert(es.take(entries@.len() as int) =~= es);
    proof {
        let first = seq![seq!['['] + section@ + seq![']']];
        let mid = entries_lines(entries_in(es, section@));
        lemma_text_of_concat(first, mid);
    }
    out
}

/// The text of one entry.
fn write_entry(e: &CfgEntry) -> (r: String)
    ensures
        r@ == text_of_lines(entry_lines(e@)),
{
    let mut out = String::new();
    match &e.comment {
        Some(c) => {
            push_line(&mut out, c.as_str());
            proof {
                lemma_text_of_split(c@);
            }
        },
        None => {},
    }
    let ghost before = out@;
    out.append(e.key.as_str());
    proof {
        reveal_strlit("=");
    }
    out.append("=");
    push_line(&mut out, e.value.as_str());
    proof {
        let comment_lines = match e@.comment {
            Some(c) => split_on(c, '\n'),
            None => seq![],
        };
        let kv = e.key@ + seq!['='] + e.value@;
        assert(before == text_of_lines(comment_lines));
        lemma_text_of_concat(comment_lines, seq![kv]);
        assert(seq![kv].drop_last() =~= Seq::<Seq<char>>::empty());
        assert(out@ =~= before + kv + newline());
    }
    out
}

} // verus!

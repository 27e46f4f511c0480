//! What reading gives back of a written locale file.
use vstd::prelude::*;
use vstd::utf8::*;
use crate::models::cfg::{CfgEntryView, CfgFileView};
use crate::services::cfg_parser::{
    byte_lines, entries_in, entries_lines, entry_lines, entry_of_line, header_lines, is_section_line,
    section_lines, sections_lines, write_lines, initial_state, is_comment_start, lemma_join_split, lemma_split_nonempty,
    lemma_text_of_concat, lemma_text_of_single, newline, parse_from, parse_spec, parse_step,
    read_line, read_lines, text_of_lines, ParseState, non_blank, separator,
};
use crate::text::{first_index_of, is_space, trim_end, trim_start, is_trimmed, lemma_first_index_found, lemma_first_index_scan, trim, split_on};

verus! {

broadcast use vstd::seq_lib::group_seq_properties;

/// No character of `l` is a newline.
pub open spec fn has_no_newline(l: Seq<char>) -> bool {
    forall|i: int| 0 <= i < l.len() ==> l[i] != '\n'
}

/// A line that can stand alone in a file: no newline in it and no
/// whitespace at its ends.
pub open spec fn line_ok(l: Seq<char>) -> bool {
    has_no_newline(l) && is_trimmed(l)
}

/// The UTF-8 encoding of a concatenation is the concatenation of the
/// encodings.
pub proof fn lemma_encode_concat(a: Seq<char>, b: Seq<char>)
    ensures
        encode_utf8(a + b) == encode_utf8(a) + encode_utf8(b),
    decreases a.len(),
{
    if a.len() == 0 {
        assert(a + b =~= b);
    } else {
        lemma_encode_concat(a.drop_first(), b);
        assert((a + b).drop_first() =~= a.drop_first() + b);
        assert((a + b)[0] == a[0]);
    }
}

/// A character other than the newline never encodes to the newline byte.
proof fn lemma_scalar_no_newline_byte(c: char)
    requires
        c != '\n',
    ensures
        forall|k: int| 0 <= k < encode_scalar(c as u32).len() ==> #[trigger] encode_scalar(c as u32)[k] != 10u8,
{
    let v = c as u32;
    assert(v != 10u32);
    assert(v <= 0x7f ==> ((v & 0x7f) as u8) != 10u8) by (bit_vector)
        requires
            v != 10u32,
    ;
    assert((0xc0u8 | ((v >> 6u32) & 0x1fu32) as u8) != 10u8) by (bit_vector);
    assert((0xe0u8 | ((v >> 12u32) & 0x0fu32) as u8) != 10u8) by (bit_vector);
    assert((0xf0u8 | ((v >> 18u32) & 0x7u32) as u8) != 10u8) by (bit_vector);
    assert((0x80u8 | (v & 0x3fu32) as u8) != 10u8) by (bit_vector);
    assert((0x80u8 | ((v >> 6u32) & 0x3fu32) as u8) != 10u8) by (bit_vector);
    assert((0x80u8 | ((v >> 12u32) & 0x3fu32) as u8) != 10u8) by (bit_vector);
}

/// The encoding of text without newlines holds no newline byte.
proof fn lemma_encode_no_newline(a: Seq<char>)
    requires
        has_no_newline(a),
    ensures
        forall|k: int| 0 <= k < encode_utf8(a).len() ==> encode_utf8(a)[k] != 10u8,
    decreases a.len(),
{
    if a.len() > 0 {
        let t = a.drop_first();
        assert forall|i: int| 0 <= i < t.len() implies t[i] != '\n' by {
            assert(t[i] == a[i + 1]);
        }
        lemma_encode_no_newline(t);
        lemma_scalar_no_newline_byte(a[0]);
        let h = encode_scalar(a[0] as u32);
        let e = encode_utf8(a);
        assert(e == h + encode_utf8(t));
        assert forall|k: int| 0 <= k < e.len() implies #[trigger] e[k] != 10u8 by {
            if k < h.len() {
                assert(e[k] == h[k]);
            } else {
                assert(e[k] == encode_utf8(t)[k - h.len()]);
            }
        }
    }
}

/// The newline encodes to the single newline byte.
proof fn lemma_encode_newline()
    ensures
        encode_utf8(newline()) == seq![10u8],
{
    let v = '\n' as u32;
    assert(v == 10u32);
    assert(((10u32 & 0x7fu32) as u8) == 10u8) by (bit_vector);
    assert(newline().drop_first() =~= Seq::<char>::empty());
    assert(newline()[0] == '\n');
    assert(has_width_1_encoding(v));
    assert(encode_scalar(v) == seq![leading_byte_width_1(v)]);
    assert(leading_byte_width_1(v) == 10u8);
    assert(encode_utf8(Seq::<char>::empty()) == Seq::<u8>::empty());
    assert(encode_utf8(newline()) == encode_scalar(v) + encode_utf8(Seq::<char>::empty()));
    assert(encode_utf8(newline()) =~= seq![10u8]);
}

/// The text of lines, peeled from the front.
proof fn lemma_text_front(ls: Seq<Seq<char>>)
    requires
        ls.len() > 0,
    ensures
        text_of_lines(ls) == ls[0] + newline() + text_of_lines(ls.drop_first()),
{
    lemma_text_of_concat(seq![ls[0]], ls.drop_first());
    lemma_text_of_single(ls[0]);
    assert(seq![ls[0]] + ls.drop_first() =~= ls);
}

/// Reading the encoding of written lines gives the trimmed lines back.
pub proof fn lemma_read_written_lines(ls: Seq<Seq<char>>)
    requires
        forall|i: int| 0 <= i < ls.len() ==> has_no_newline(#[trigger] ls[i]),
    ensures
        read_lines(encode_utf8(text_of_lines(ls))) == ls.map_values(
            |l: Seq<char>| Some(trim(l)),
        ),
    decreases ls.len(),
{
    let b = encode_utf8(text_of_lines(ls));
    if ls.len() == 0 {
        assert(b =~= Seq::<u8>::empty());
        assert(read_lines(b) =~= ls.map_values(|l: Seq<char>| Some(trim(l))));
    } else {
        let x = ls[0];
        let rest = ls.drop_first();
        assert forall|i: int| 0 <= i < rest.len() implies has_no_newline(#[trigger] rest[i]) by {
            assert(rest[i] == ls[i + 1]);
        }
        lemma_read_written_lines(rest);
        lemma_text_front(ls);
        let ex = encode_utf8(x);
        let er = encode_utf8(text_of_lines(rest));
        lemma_encode_concat(x + newline(), text_of_lines(rest));
        lemma_encode_concat(x, newline());
        lemma_encode_newline();
        assert(b =~= ex + seq![10u8] + er);
        lemma_encode_no_newline(x);
        assert forall|k: int| 0 <= k < ex.len() implies #[trigger] b[k] != 10u8 by {
            assert(b[k] == ex[k]);
        }
        lemma_first_index_scan(b, 10u8, ex.len() as int);
        assert(b.take(ex.len() as int) =~= ex);
        assert(b.skip(ex.len() as int + 1) =~= er);
        assert(byte_lines(b) == seq![ex] + byte_lines(er));
        encode_utf8_valid_utf8(x);
        encode_utf8_decode_utf8(x);
        assert(read_line(ex) == Some(trim(x)));
        let m = ls.map_values(|l: Seq<char>| Some(trim(l)));
        assert(read_lines(b) =~= m) by {
            assert(read_lines(b) =~= seq![read_line(ex)] + read_lines(er));
            assert(m =~= seq![Some(trim(x))] + rest.map_values(|l: Seq<char>| Some(trim(l))));
        }
    }
}

/// The state after plain lines (all readable).
pub open spec fn fold_lines(st: ParseState, ls: Seq<Seq<char>>) -> ParseState
    decreases ls.len(),
{
    if ls.len() == 0 {
        st
    } else {
        parse_step(fold_lines(st, ls.drop_last()), ls.last())
    }
}

/// Reading trimmed lines is folding them.
proof fn lemma_parse_from_lines(st: ParseState, ls: Seq<Seq<char>>)
    requires
        forall|i: int| 0 <= i < ls.len() ==> is_trimmed(#[trigger] ls[i]),
    ensures
        parse_from(st, ls.map_values(|l: Seq<char>| Some(trim(l)))) == fold_lines(st, ls),
    decreases ls.len(),
{
    if ls.len() > 0 {
        let t = ls.drop_last();
        assert forall|i: int| 0 <= i < t.len() implies is_trimmed(#[trigger] t[i]) by {
            assert(t[i] == ls[i]);
        }
        lemma_parse_from_lines(st, t);
        let m = ls.map_values(|l: Seq<char>| Some(trim(l)));
        assert(m.drop_last() =~= t.map_values(|l: Seq<char>| Some(trim(l))));
        let l = ls.last();
        assert(is_trimmed(ls[ls.len() - 1]));
        assert(trim(l) == l);
    }
}

/// Folding concatenated lines folds the first part, then the second.
pub proof fn lemma_fold_concat(st: ParseState, a: Seq<Seq<char>>, b: Seq<Seq<char>>)
    ensures
        fold_lines(st, a + b) == fold_lines(fold_lines(st, a), b),
    decreases b.len(),
{
    if b.len() == 0 {
        assert(a + b =~= a);
    } else {
        lemma_fold_concat(st, a, b.drop_last());
        assert((a + b).drop_last() =~= a + b.drop_last());
    }
}


/// A comment line that reads back as itself.
pub open spec fn is_comment_text_line(l: Seq<char>) -> bool {
    is_comment_start(l) && line_ok(l)
}

/// A line of a comment: a comment line, or a blank line.
pub open spec fn is_comment_piece(l: Seq<char>) -> bool {
    l.len() == 0 || is_comment_text_line(l)
}

/// Each line of the comment text reads back as a comment line or a blank
/// line.
pub open spec fn comment_ok(c: Seq<char>) -> bool {
    forall|i: int|
        0 <= i < split_on(c, '\n').len() ==> is_comment_piece(#[trigger] split_on(c, '\n')[i])
}

/// An entry whose lines read back as that entry: key and value without
/// newlines or surrounding whitespace, no `=` in the key, a key line that
/// looks neither like a comment nor like a section header, and a comment of
/// comment lines and blank lines.
pub open spec fn entry_ok(e: CfgEntryView) -> bool {
    &&& line_ok(e.key)
    &&& line_ok(e.value)
    &&& first_index_of(e.key, '=') is None
    &&& !is_comment_start(e.key)
    &&& !(e.key.len() > 0 && e.key[0] == '[' && e.value.len() > 0 && e.value.last() == ']')
    &&& (e.comment matches Some(c) ==> comment_ok(c))
}

/// A file that reads back as itself once written: header comments that are
/// comment lines and stand above some section, distinct section names
/// without newlines, and written entries that read back.
pub open spec fn writable(f: CfgFileView) -> bool {
    &&& forall|i: int|
        0 <= i < f.header_comments.len() ==> is_comment_text_line(#[trigger] f.header_comments[i])
    &&& f.header_comments.len() > 0 ==> f.section_order.len() > 0
    &&& forall|i: int, j: int|
        0 <= i < j < f.section_order.len() ==> #[trigger] f.section_order[i]
            != #[trigger] f.section_order[j]
    &&& forall|i: int| 0 <= i < f.section_order.len() ==> has_no_newline(#[trigger] f.section_order[i])
    &&& forall|i: int|
        0 <= i < f.entries.len() && f.section_order.contains(#[trigger] f.entries[i].section)
            ==> entry_ok(f.entries[i])
}

/// The entries grouped by section, following `order`.
pub open spec fn grouped(es: Seq<CfgEntryView>, order: Seq<Seq<char>>) -> Seq<CfgEntryView>
    decreases order.len(),
{
    if order.len() == 0 {
        seq![]
    } else {
        grouped(es, order.drop_last()) + entries_in(es, order.last())
    }
}

/// The entries of a section belong to it and come from the list.
proof fn lemma_entries_in(es: Seq<CfgEntryView>, s: Seq<char>)
    ensures
        forall|j: int|
            0 <= j < entries_in(es, s).len() ==> (#[trigger] entries_in(es, s)[j]).section == s
                && exists|i: int| 0 <= i < es.len() && es[i] == entries_in(es, s)[j],
    decreases es.len(),
{
    if es.len() > 0 {
        let t = es.drop_last();
        lemma_entries_in(t, s);
        let r = entries_in(es, s);
        assert forall|j: int| 0 <= j < r.len() implies (#[trigger] r[j]).section == s && exists|
            i: int,
        | 0 <= i < es.len() && es[i] == r[j] by {
            if j < entries_in(t, s).len() {
                assert(r[j] == entries_in(t, s)[j]);
                let i = choose|i: int| 0 <= i < t.len() && t[i] == entries_in(t, s)[j];
                assert(es[i] == t[i]);
            } else {
                assert(r[j] == es.last());
                assert(es[es.len() - 1] == es.last());
            }
        }
    }
}

/// Folding comment lines, and blank lines inside a section, gathers them.
proof fn lemma_fold_comments(st: ParseState, ps: Seq<Seq<char>>)
    requires
        forall|i: int|
            0 <= i < ps.len() ==> is_comment_start(#[trigger] ps[i]) || (ps[i].len() == 0
                && st.current_section is Some),
    ensures
        fold_lines(st, ps) == (ParseState { current_comments: st.current_comments + ps, ..st }),
    decreases ps.len(),
{
    if ps.len() == 0 {
        assert(st.current_comments + ps =~= st.current_comments);
    } else {
        let t = ps.drop_last();
        assert forall|i: int| 0 <= i < t.len() implies is_comment_start(#[trigger] t[i]) || (
        t[i].len() == 0 && st.current_section is Some) by {
            assert(t[i] == ps[i]);
        }
        lemma_fold_comments(st, t);
        assert(is_comment_start(ps[ps.len() - 1]) || ps[ps.len() - 1].len() == 0);
        assert((st.current_comments + t).push(ps.last()) =~= st.current_comments + ps);
    }
}

/// The `key=value` line of an entry reads back as the entry.
proof fn lemma_step_key_line(st: ParseState, e: CfgEntryView, comments: Seq<Seq<char>>)
    requires
        st.current_section == Some(e.section),
        st.current_comments == comments,
        entry_ok(e),
        comments.len() == 0 ==> e.comment is None,
        comments.len() > 0 ==> e.comment == Some(join_with_newline(comments)),
    ensures
        parse_step(st, e.key + seq!['='] + e.value) == (ParseState {
            entries: st.entries.push(e),
            current_comments: seq![],
            is_header: false,
            ..st
        }),
{
    let l = e.key + seq!['='] + e.value;
    let n = e.key.len();
    assert(l[n as int] == '=');
    lemma_first_index_found(e.key, '=');
    assert forall|k: int| 0 <= k < n implies #[trigger] l[k] != '=' by {
        assert(l[k] == e.key[k]);
    }
    lemma_first_index_scan(l, '=', n as int);
    if n > 0 {
        assert(l[0] == e.key[0]);
    }
    if e.value.len() > 0 {
        assert(l.last() == e.value.last());
    }
    assert(!is_comment_start(l));
    assert(!is_section_line(l));
    assert(l.take(n as int) =~= e.key);
    assert(l.skip(n as int + 1) =~= e.value);
    crate::text::lemma_trim_of_trimmed(e.key);
    crate::text::lemma_trim_of_trimmed(e.value);
    let made = entry_of_line(e.section, l, n as int, comments);
    assert(made == e);
}

/// Comments joined with newlines.
pub open spec fn join_with_newline(ls: Seq<Seq<char>>) -> Seq<char> {
    crate::text::join_with(ls, newline())
}

/// Folding the lines of one entry adds the entry.
proof fn lemma_fold_entry(st: ParseState, e: CfgEntryView)
    requires
        st.current_section == Some(e.section),
        st.current_comments == Seq::<Seq<char>>::empty(),
        !st.is_header,
        entry_ok(e),
    ensures
        fold_lines(st, entry_lines(e)) == (ParseState { entries: st.entries.push(e), ..st }),
{
    let kv = e.key + seq!['='] + e.value;
    let ps: Seq<Seq<char>> = match e.comment {
        Some(c) => split_on(c, '\n'),
        None => seq![],
    };
    assert(entry_lines(e) == ps + seq![kv]);
    lemma_fold_concat(st, ps, seq![kv]);
    assert forall|i: int| 0 <= i < ps.len() implies is_comment_start(#[trigger] ps[i]) || (
    ps[i].len() == 0 && st.current_section is Some) by {
        if let Some(c) = e.comment {
            assert(is_comment_piece(split_on(c, '\n')[i]));
        }
    }
    lemma_fold_comments(st, ps);
    let mid = ParseState { current_comments: st.current_comments + ps, ..st };
    assert(st.current_comments + ps =~= ps);
    if let Some(c) = e.comment {
        lemma_split_nonempty(c, '\n');
        lemma_join_split(c);
    }
    lemma_step_key_line(mid, e, ps);
    assert(seq![kv].drop_last() =~= Seq::<Seq<char>>::empty());
    assert(fold_lines(mid, seq![kv]) == parse_step(mid, kv));
    assert(fold_lines(st, entry_lines(e)) =~= (ParseState { entries: st.entries.push(e), ..st }));
}

/// Folding the lines of entries of the current section adds them.
proof fn lemma_fold_entries(st: ParseState, es: Seq<CfgEntryView>, s: Seq<char>)
    requires
        st.current_section == Some(s),
        st.current_comments == Seq::<Seq<char>>::empty(),
        !st.is_header,
        forall|i: int| 0 <= i < es.len() ==> (#[trigger] es[i]).section == s && entry_ok(es[i]),
    ensures
        fold_lines(st, entries_lines(es)) == (ParseState { entries: st.entries + es, ..st }),
    decreases es.len(),
{
    if es.len() == 0 {
        assert(st.entries + es =~= st.entries);
        assert(fold_lines(st, entries_lines(es)) =~= (ParseState { entries: st.entries + es, ..st }));
    } else {
        let t = es.drop_last();
        assert forall|i: int| 0 <= i < t.len() implies (#[trigger] t[i]).section == s && entry_ok(
            t[i],
        ) by {
            assert(t[i] == es[i]);
        }
        lemma_fold_entries(st, t, s);
        lemma_fold_concat(st, entries_lines(t), entry_lines(es.last()));
        let mid = ParseState { entries: st.entries + t, ..st };
        assert(es[es.len() - 1] == es.last());
        lemma_fold_entry(mid, es.last());
        assert((st.entries + t).push(es.last()) =~= st.entries + es);
        assert(fold_lines(st, entries_lines(es)) =~= (ParseState { entries: st.entries + es, ..st }));
    }
}

/// What a section's lines do to the state.
pub open spec fn after_section(st: ParseState, s: Seq<char>, es: Seq<CfgEntryView>) -> ParseState {
    ParseState {
        entries: st.entries + entries_in(es, s),
        section_order: st.section_order.push(s),
        header_comments: st.header_comments + if st.is_header {
            st.current_comments
        } else {
            seq![]
        },
        current_section: Some(s),
        current_comments: seq![],
        is_header: false,
    }
}

/// Only blank lines are dropped from blank lines.
proof fn lemma_non_blank_of_blanks(cs: Seq<Seq<char>>)
    requires
        forall|i: int| 0 <= i < cs.len() ==> (#[trigger] cs[i]).len() == 0,
    ensures
        non_blank(cs) == Seq::<Seq<char>>::empty(),
    decreases cs.len(),
{
    if cs.len() > 0 {
        let t = cs.drop_last();
        assert forall|i: int| 0 <= i < t.len() implies (#[trigger] t[i]).len() == 0 by {
            assert(t[i] == cs[i]);
        }
        lemma_non_blank_of_blanks(t);
        assert(cs[cs.len() - 1].len() == 0);
        assert(non_blank(cs) =~= Seq::<Seq<char>>::empty());
    }
}

/// Folding the lines of a new section opens it and adds its entries; blank
/// lines gathered before its header are dropped.
proof fn lemma_fold_section(st: ParseState, s: Seq<char>, es: Seq<CfgEntryView>)
    requires
        !st.section_order.contains(s),
        !st.is_header ==> forall|i: int|
            0 <= i < st.current_comments.len() ==> (#[trigger] st.current_comments[i]).len() == 0,
        forall|i: int| 0 <= i < es.len() && (#[trigger] es[i]).section == s ==> entry_ok(es[i]),
    ensures
        fold_lines(st, section_lines(s, es)) == after_section(st, s, es),
{
    let head = seq!['['] + s + seq![']'];
    let body = entries_lines(entries_in(es, s));
    assert(section_lines(s, es) == seq![head] + body);
    lemma_fold_concat(st, seq![head], body);
    assert(seq![head].drop_last() =~= Seq::<Seq<char>>::empty());
    assert(head[0] == '[');
    assert(head.last() == ']');
    assert(head.subrange(1, head.len() - 1) =~= s);
    let st1 = parse_step(st, head);
    assert(seq![head].last() == head);
    assert(fold_lines(st, Seq::<Seq<char>>::empty()) == st);
    assert(fold_lines(st, seq![head]) == st1);
    if !(st.is_header && st.current_comments.len() > 0) {
        if st.is_header {
            assert(st.current_comments =~= Seq::<Seq<char>>::empty());
        }
        lemma_non_blank_of_blanks(st.current_comments);
    }
    assert(st1 =~= ParseState {
        section_order: st.section_order.push(s),
        current_section: Some(s),
        header_comments: st.header_comments + if st.is_header {
            st.current_comments
        } else {
            seq![]
        },
        current_comments: seq![],
        is_header: false,
        entries: st.entries,
    });
    lemma_entries_in(es, s);
    let ein = entries_in(es, s);
    assert forall|i: int| 0 <= i < ein.len() implies (#[trigger] ein[i]).section == s && entry_ok(
        ein[i],
    ) by {
        let k = choose|k: int| 0 <= k < es.len() && es[k] == ein[i];
        assert(es[k].section == s);
    }
    lemma_fold_entries(st1, ein, s);
    let st2 = ParseState { entries: st1.entries + ein, ..st1 };
    assert(st2 =~= after_section(st, s, es));
}

/// The state after the header comments of a written file.
pub open spec fn after_header(hc: Seq<Seq<char>>) -> ParseState {
    ParseState { current_comments: hc, ..initial_state() }
}

/// The state after the header and the sections of `order`.
pub open spec fn after_sections(
    hc: Seq<Seq<char>>,
    order: Seq<Seq<char>>,
    es: Seq<CfgEntryView>,
) -> ParseState {
    if order.len() == 0 {
        after_header(hc)
    } else {
        ParseState {
            entries: grouped(es, order),
            section_order: order,
            header_comments: hc,
            current_section: Some(order.last()),
            current_comments: seq![],
            is_header: false,
        }
    }
}

/// Folding the written sections, one after the other.
proof fn lemma_fold_sections(hc: Seq<Seq<char>>, order: Seq<Seq<char>>, es: Seq<CfgEntryView>)
    requires
        forall|i: int, j: int| 0 <= i < j < order.len() ==> #[trigger] order[i] != #[trigger] order[j],
        forall|i: int|
            0 <= i < es.len() && order.contains(#[trigger] es[i].section) ==> entry_ok(es[i]),
    ensures
        fold_lines(after_header(hc), sections_lines(order, es)) == after_sections(hc, order, es),
    decreases order.len(),
{
    if order.len() > 0 {
        let o2 = order.drop_last();
        let s = order.last();
        assert forall|i: int, j: int| 0 <= i < j < o2.len() implies #[trigger] o2[i] != #[trigger] o2[j] by {
            assert(o2[i] == order[i] && o2[j] == order[j]);
        }
        assert forall|i: int| 0 <= i < es.len() && o2.contains(#[trigger] es[i].section) implies entry_ok(es[i]) by {
            let k = choose|k: int| 0 <= k < o2.len() && o2[k] == es[i].section;
            assert(order[k] == o2[k]);
        }
        lemma_fold_sections(hc, o2, es);
        let sep = separator(o2.len() as int);
        lemma_fold_concat(after_header(hc), sections_lines(o2, es) + sep, section_lines(s, es));
        lemma_fold_concat(after_header(hc), sections_lines(o2, es), sep);
        let prev0 = after_sections(hc, o2, es);
        let prev = fold_lines(prev0, sep);
        if o2.len() > 0 {
            assert(sep.drop_last() =~= Seq::<Seq<char>>::empty());
            assert(sep.last().len() == 0);
            assert(prev =~= ParseState { current_comments: seq![seq![]], ..prev0 });
        } else {
            assert(prev == prev0);
        }
        assert(!prev.section_order.contains(s)) by {
            if prev.section_order.contains(s) {
                let k = choose|k: int| 0 <= k < prev.section_order.len() && prev.section_order[k] == s;
                assert(order[k] == o2[k]);
                assert(order[order.len() - 1] == s);
            }
        }
        assert forall|i: int| 0 <= i < es.len() && (#[trigger] es[i]).section == s implies entry_ok(es[i]) by {
            assert(order[order.len() - 1] == s);
        }
        lemma_fold_section(prev, s, es);
        if o2.len() == 0 {
            assert(grouped(es, o2) =~= Seq::<CfgEntryView>::empty());
            assert(Seq::<CfgEntryView>::empty() + entries_in(es, s) =~= entries_in(es, s));
            assert(Seq::<Seq<char>>::empty().push(s) =~= order);
            assert(Seq::<Seq<char>>::empty() + hc =~= hc);
        } else {
            assert(o2.push(s) =~= order);
            assert(hc + Seq::<Seq<char>>::empty() =~= hc);
        }
        assert(after_section(prev, s, es) =~= after_sections(hc, order, es));
    }
}

/// Every line of the list is a line that stands alone.
pub open spec fn all_lines_ok(ls: Seq<Seq<char>>) -> bool {
    forall|i: int| 0 <= i < ls.len() ==> line_ok(#[trigger] ls[i])
}

proof fn lemma_all_ok_concat(a: Seq<Seq<char>>, b: Seq<Seq<char>>)
    requires
        all_lines_ok(a),
        all_lines_ok(b),
    ensures
        all_lines_ok(a + b),
{
    assert forall|i: int| 0 <= i < (a + b).len() implies line_ok(#[trigger] (a + b)[i]) by {
        if i < a.len() {
            assert((a + b)[i] == a[i]);
        } else {
            assert((a + b)[i] == b[i - a.len()]);
        }
    }
}

proof fn lemma_entry_lines_ok(e: CfgEntryView)
    requires
        entry_ok(e),
    ensures
        all_lines_ok(entry_lines(e)),
{
    let kv = e.key + seq!['='] + e.value;
    let ps: Seq<Seq<char>> = match e.comment {
        Some(c) => split_on(c, '\n'),
        None => seq![],
    };
    assert(all_lines_ok(ps)) by {
        assert forall|i: int| 0 <= i < ps.len() implies line_ok(#[trigger] ps[i]) by {
            if let Some(c) = e.comment {
                assert(is_comment_piece(split_on(c, '\n')[i]));
            }
        }
    }
    assert(line_ok(kv)) by {
        let n = e.key.len();
        assert forall|i: int| 0 <= i < kv.len() implies kv[i] != '\n' by {
            if i < n {
                assert(kv[i] == e.key[i]);
            } else if i > n {
                assert(kv[i] == e.value[i - n - 1]);
            }
        }
        if n > 0 {
            assert(kv[0] == e.key[0]);
        }
        if e.value.len() > 0 {
            assert(kv.last() == e.value.last());
        }
    }
    assert(all_lines_ok(seq![kv]));
    lemma_all_ok_concat(ps, seq![kv]);
}

proof fn lemma_entries_lines_ok(es: Seq<CfgEntryView>)
    requires
        forall|i: int| 0 <= i < es.len() ==> entry_ok(#[trigger] es[i]),
    ensures
        all_lines_ok(entries_lines(es)),
    decreases es.len(),
{
    if es.len() > 0 {
        let t = es.drop_last();
        assert forall|i: int| 0 <= i < t.len() implies entry_ok(#[trigger] t[i]) by {
            assert(t[i] == es[i]);
        }
        lemma_entries_lines_ok(t);
        assert(es[es.len() - 1] == es.last());
        lemma_entry_lines_ok(es.last());
        lemma_all_ok_concat(entries_lines(t), entry_lines(es.last()));
    }
}

proof fn lemma_sections_lines_ok(order: Seq<Seq<char>>, es: Seq<CfgEntryView>)
    requires
        forall|i: int| 0 <= i < order.len() ==> has_no_newline(#[trigger] order[i]),
        forall|i: int|
            0 <= i < es.len() && order.contains(#[trigger] es[i].section) ==> entry_ok(es[i]),
    ensures
        all_lines_ok(sections_lines(order, es)),
    decreases order.len(),
{
    if order.len() > 0 {
        let o2 = order.drop_last();
        let s = order.last();
        assert forall|i: int| 0 <= i < o2.len() implies has_no_newline(#[trigger] o2[i]) by {
            assert(o2[i] == order[i]);
        }
        assert forall|i: int| 0 <= i < es.len() && o2.contains(#[trigger] es[i].section) implies entry_ok(es[i]) by {
            let k = choose|k: int| 0 <= k < o2.len() && o2[k] == es[i].section;
            assert(order[k] == o2[k]);
        }
        lemma_sections_lines_ok(o2, es);
        assert(order[order.len() - 1] == s);
        let head = seq!['['] + s + seq![']'];
        assert(line_ok(head)) by {
            assert forall|i: int| 0 <= i < head.len() implies head[i] != '\n' by {
                if 0 < i < head.len() - 1 {
                    assert(head[i] == s[i - 1]);
                }
            }
        }
        lemma_entries_in(es, s);
        let ein = entries_in(es, s);
        assert forall|i: int| 0 <= i < ein.len() implies entry_ok(#[trigger] ein[i]) by {
            let k = choose|k: int| 0 <= k < es.len() && es[k] == ein[i];
            assert(es[k].section == s);
        }
        lemma_entries_lines_ok(ein);
        let sep = separator(o2.len() as int);
        assert(all_lines_ok(seq![head]));
        assert(all_lines_ok(sep));
        lemma_all_ok_concat(seq![head], entries_lines(ein));
        lemma_all_ok_concat(sections_lines(o2, es), sep);
        lemma_all_ok_concat(sections_lines(o2, es) + sep, section_lines(s, es));
    }
}

/// Reading back a written file gives the file, its entries grouped by
/// section in the order of `section_order` (entries of sections that are not
/// listed are not written), for every file whose text can be written and
/// read back line for line (see [`writable`]).
pub proof fn lemma_write_then_parse(f: CfgFileView)
    requires
        writable(f),
    ensures
        parse_spec(encode_utf8(text_of_lines(write_lines(f))), f.file_path, f.language_code)
            == (CfgFileView { entries: grouped(f.entries, f.section_order), ..f }),
{
    let lines = write_lines(f);
    let hc = f.header_comments;
    let blank_or_none: Seq<Seq<char>> = if hc.len() > 0 { seq![seq![]] } else { seq![] };
    assert(all_lines_ok(hc)) by {
        assert forall|i: int| 0 <= i < hc.len() implies line_ok(#[trigger] hc[i]) by {
            assert(is_comment_text_line(hc[i]));
        }
    }
    assert(all_lines_ok(blank_or_none));
    lemma_all_ok_concat(hc, blank_or_none);
    lemma_sections_lines_ok(f.section_order, f.entries);
    lemma_all_ok_concat(header_lines(hc), sections_lines(f.section_order, f.entries));
    assert forall|i: int| 0 <= i < lines.len() implies has_no_newline(#[trigger] lines[i]) by {
        assert(line_ok(lines[i]));
    }
    assert forall|i: int| 0 <= i < lines.len() implies is_trimmed(#[trigger] lines[i]) by {
        assert(line_ok(lines[i]));
    }
    lemma_read_written_lines(lines);
    lemma_parse_from_lines(initial_state(), lines);
    lemma_fold_concat(initial_state(), header_lines(hc), sections_lines(f.section_order, f.entries));
    lemma_fold_concat(initial_state(), hc, blank_or_none);
    assert forall|i: int| 0 <= i < hc.len() implies is_comment_start(#[trigger] hc[i]) by {
        assert(is_comment_text_line(hc[i]));
    }
    lemma_fold_comments(initial_state(), hc);
    assert(Seq::<Seq<char>>::empty() + hc =~= hc);
    let sth = fold_lines(initial_state(), hc);
    assert(sth == after_header(hc));
    if hc.len() > 0 {
        assert(blank_or_none.drop_last() =~= Seq::<Seq<char>>::empty());
        assert(blank_or_none.last().len() == 0);
        assert(fold_lines(sth, blank_or_none) == sth);
    } else {
        assert(fold_lines(sth, blank_or_none) == sth);
    }
    assert(fold_lines(initial_state(), header_lines(hc)) == after_header(hc));
    lemma_fold_sections(hc, f.section_order, f.entries);
    let st = after_sections(hc, f.section_order, f.entries);
    if f.section_order.len() == 0 {
        assert(hc.len() == 0);
        assert(grouped(f.entries, f.section_order) =~= Seq::<CfgEntryView>::empty());
        assert(st.header_comments =~= hc);
    }
    assert(parse_spec(encode_utf8(text_of_lines(lines)), f.file_path, f.language_code) =~= (
    CfgFileView { entries: grouped(f.entries, f.section_order), ..f }));
}

/// The trimmed text is a stretch of the text with whitespace on both sides
/// of it, and starts and ends with no whitespace.
#[verifier::spinoff_prover]
#[verifier::rlimit(30)]
proof fn lemma_trim_stretch(s: Seq<char>) -> (r: (int, int))
    ensures
        0 <= r.0 <= r.1 <= s.len(),
        trim(s) == s.subrange(r.0, r.1),
        forall|k: int| 0 <= k < r.0 ==> is_space(#[trigger] s[k]),
        forall|k: int| r.1 <= k < s.len() ==> is_space(#[trigger] s[k]),
        r.0 < r.1 ==> !is_space(s[r.0]) && !is_space(s[r.1 - 1]),
{
    let a = lemma_trim_start_stretch(s);
    let t = s.skip(a);
    let b = lemma_trim_end_stretch(t);
    assert(trim(s) == trim_end(t));
    assert(t.take(b) =~= s.subrange(a, a + b));
    assert forall|k: int| a + b <= k < s.len() implies is_space(#[trigger] s[k]) by {
        assert(s[k] == t[k - a]);
    }
    if 0 < b {
        assert(t[0] == s[a]);
        assert(t[b - 1] == s[a + b - 1]);
    }
    (a, a + b)
}

proof fn lemma_trim_start_stretch(s: Seq<char>) -> (a: int)
    ensures
        0 <= a <= s.len(),
        trim_start(s) == s.skip(a),
        forall|k: int| 0 <= k < a ==> is_space(#[trigger] s[k]),
        a < s.len() ==> !is_space(s[a]),
    decreases s.len(),
{
    if s.len() > 0 && is_space(s[0]) {
        let t = s.drop_first();
        let a = lemma_trim_start_stretch(t);
        assert(t.skip(a) =~= s.skip(a + 1));
        assert forall|k: int| 0 <= k < a + 1 implies is_space(#[trigger] s[k]) by {
            if k > 0 {
                assert(s[k] == t[k - 1]);
            }
        }
        if a + 1 < s.len() {
            assert(s[a + 1] == t[a]);
        }
        a + 1
    } else {
        assert(s.skip(0) =~= s);
        0
    }
}

proof fn lemma_trim_end_stretch(s: Seq<char>) -> (b: int)
    ensures
        0 <= b <= s.len(),
        trim_end(s) == s.take(b),
        forall|k: int| b <= k < s.len() ==> is_space(#[trigger] s[k]),
        b > 0 ==> !is_space(s[b - 1]),
    decreases s.len(),
{
    if s.len() > 0 && is_space(s.last()) {
        let t = s.drop_last();
        let b = lemma_trim_end_stretch(t);
        assert(t.take(b) =~= s.take(b));
        assert forall|k: int| b <= k < s.len() implies is_space(#[trigger] s[k]) by {
            if k < s.len() - 1 {
                assert(s[k] == t[k]);
            }
        }
        if b > 0 {
            assert(s[b - 1] == t[b - 1]);
        }
        b
    } else {
        assert(s.take(s.len() as int) =~= s);
        s.len() as int
    }
}

/// No piece that `byte_lines` cuts holds a newline byte.
proof fn lemma_byte_lines_no_newline(b: Seq<u8>)
    ensures
        forall|i: int, k: int|
            0 <= i < byte_lines(b).len() && 0 <= k < byte_lines(b)[i].len() ==> #[trigger] byte_lines(
                b,
            )[i][k] != 10u8,
    decreases b.len(),
{
    if b.len() > 0 {
        lemma_first_index_found(b, 10u8);
        match first_index_of(b, 10u8) {
            Some(i) => {
                let rest = b.skip(i + 1);
                lemma_byte_lines_no_newline(rest);
                let ls = byte_lines(b);
                assert(ls == seq![b.take(i)] + byte_lines(rest));
                assert forall|j: int, k: int|
                    0 <= j < ls.len() && 0 <= k < ls[j].len() implies #[trigger] ls[j][k] != 10u8 by {
                    if j > 0 {
                        assert(ls[j] == byte_lines(rest)[j - 1]);
                    } else {
                        assert(ls[j][k] == b[k]);
                    }
                }
            },
            None => {},
        }
    }
}

/// Text decoded from bytes without a newline byte holds no newline.
proof fn lemma_decode_no_newline(seg: Seq<u8>)
    requires
        valid_utf8(seg),
        forall|k: int| 0 <= k < seg.len() ==> seg[k] != 10u8,
    ensures
        has_no_newline(decode_utf8(seg)),
{
    let d = decode_utf8(seg);
    decode_utf8_encode_utf8(seg);
    if !has_no_newline(d) {
        let i = choose|i: int| 0 <= i < d.len() && d[i] == '\n';
        let a = d.take(i);
        let c = d.skip(i + 1);
        assert(d =~= a + newline() + c);
        lemma_encode_concat(a + newline(), c);
        lemma_encode_concat(a, newline());
        lemma_encode_newline();
        let ea = encode_utf8(a);
        assert(seg == ea + seq![10u8] + encode_utf8(c));
        assert(seg[ea.len() as int] == 10u8);
    }
}

/// Every line that the parser reads is a line that stands alone.
proof fn lemma_read_lines_ok(b: Seq<u8>)
    ensures
        forall|i: int|
            0 <= i < read_lines(b).len() ==> (#[trigger] read_lines(b)[i] matches Some(l) ==> line_ok(l)),
{
    lemma_byte_lines_no_newline(b);
    assert forall|i: int| 0 <= i < read_lines(b).len() implies (#[trigger] read_lines(b)[i] matches Some(
        l,
    ) ==> line_ok(l)) by {
        let seg = byte_lines(b)[i];
        if valid_utf8(seg) {
            assert forall|k: int| 0 <= k < seg.len() implies seg[k] != 10u8 by {
                assert(byte_lines(b)[i][k] != 10u8);
            }
            lemma_decode_no_newline(seg);
            let d = decode_utf8(seg);
            let r = lemma_trim_stretch(d);
            assert forall|k: int| 0 <= k < trim(d).len() implies trim(d)[k] != '\n' by {
                assert(trim(d)[k] == d[r.0 + k]);
            }
            if trim(d).len() > 0 {
                assert(trim(d)[0] == d[r.0]);
                assert(trim(d).last() == d[r.1 - 1]);
            }
        }
    }
}

/// Splitting lines joined with newlines gives the lines back.
proof fn lemma_split_join(cs: Seq<Seq<char>>)
    requires
        cs.len() > 0,
        forall|i: int| 0 <= i < cs.len() ==> has_no_newline(#[trigger] cs[i]),
    ensures
        split_on(join_with_newline(cs), '\n') == cs,
    decreases cs.len(),
{
    let j = join_with_newline(cs);
    let x = cs[0];
    assert(has_no_newline(x));
    if cs.len() == 1 {
        assert(j == x);
        lemma_first_index_scan(x, '\n', x.len() as int);
        assert(split_on(j, '\n') =~= cs);
    } else {
        let rest = cs.drop_first();
        assert forall|i: int| 0 <= i < rest.len() implies has_no_newline(#[trigger] rest[i]) by {
            assert(rest[i] == cs[i + 1]);
        }
        lemma_split_join(rest);
        let jr = join_with_newline(rest);
        assert(j == x + newline() + jr);
        assert forall|k: int| 0 <= k < x.len() implies #[trigger] j[k] != '\n' by {
            assert(j[k] == x[k]);
        }
        assert(j[x.len() as int] == '\n');
        lemma_first_index_scan(j, '\n', x.len() as int);
        assert(j.take(x.len() as int) =~= x);
        assert(j.skip(x.len() as int + 1) =~= jr);
        assert(split_on(j, '\n') =~= seq![x] + rest);
    }
}

/// The key of a read line: a line that stands alone, without `=`, starting
/// as the line starts.
#[verifier::spinoff_prover]
#[verifier::rlimit(30)]
proof fn lemma_key_of_line(l: Seq<char>, pos: int)
    requires
        line_ok(l),
        0 <= pos < l.len(),
        forall|k: int| 0 <= k < pos ==> l[k] != '=',
    ensures
        line_ok(trim(l.take(pos))),
        first_index_of(trim(l.take(pos)), '=') is None,
        trim(l.take(pos)).len() > 0 ==> trim(l.take(pos))[0] == l[0],
{
    let s1 = l.take(pos);
    let key = trim(s1);
    let (a, b) = lemma_trim_stretch(s1);
    assert forall|k: int| 0 <= k < key.len() implies key[k] != '\n' && key[k] != '=' by {
        assert(key[k] == l[a + k]);
    }
    if key.len() > 0 {
        assert(key[0] == s1[a]);
        assert(key.last() == s1[b - 1]);
        if a > 0 {
            assert(is_space(s1[0]));
            assert(s1[0] == l[0]);
        }
    }
    lemma_first_index_scan(key, '=', key.len() as int);
}

/// The value of a read line: a line that stands alone, ending as the line
/// ends.
#[verifier::spinoff_prover]
#[verifier::rlimit(30)]
proof fn lemma_value_of_line(l: Seq<char>, pos: int)
    requires
        line_ok(l),
        0 <= pos < l.len(),
    ensures
        line_ok(trim(l.skip(pos + 1))),
        trim(l.skip(pos + 1)).len() > 0 ==> trim(l.skip(pos + 1)).last() == l.last(),
{
    let s2 = l.skip(pos + 1);
    let value = trim(s2);
    let (c, d) = lemma_trim_stretch(s2);
    assert forall|k: int| 0 <= k < value.len() implies value[k] != '\n' by {
        assert(value[k] == l[pos + 1 + c + k]);
    }
    if value.len() > 0 {
        assert(value[0] == s2[c]);
        assert(value.last() == s2[d - 1]);
        if d < s2.len() {
            assert(is_space(s2[s2.len() - 1]));
            assert(s2[s2.len() - 1] == l.last());
        }
    }
}

/// The entry that a read `key=value` line makes reads back as itself, when
/// its comment lines are comment lines or blank lines.
proof fn lemma_entry_of_line_ok(sec: Seq<char>, l: Seq<char>, comments: Seq<Seq<char>>)
    requires
        line_ok(l),
        l.len() > 0,
        !is_comment_start(l),
        !is_section_line(l),
        first_index_of(l, '=') is Some,
        forall|i: int| 0 <= i < comments.len() ==> is_comment_piece(#[trigger] comments[i]),
    ensures
        entry_ok(entry_of_line(sec, l, first_index_of(l, '=')->0, comments)),
{
    lemma_first_index_found(l, '=');
    let pos = first_index_of(l, '=')->0;
    let e = entry_of_line(sec, l, pos, comments);
    lemma_key_of_line(l, pos);
    lemma_value_of_line(l, pos);
    if comments.len() > 0 {
        assert forall|i: int| 0 <= i < comments.len() implies has_no_newline(#[trigger] comments[i]) by {
            assert(is_comment_piece(comments[i]));
        }
        lemma_split_join(comments);
    }
}

/// What holds of the parser's state after any lines: header comments that
/// are comment lines, gathered lines that are comment lines or (inside a
/// section) blank lines, distinct section names without newlines, and
/// entries that read back as themselves.
pub open spec fn state_ok(st: ParseState) -> bool {
    &&& forall|i: int|
        0 <= i < st.header_comments.len() ==> is_comment_text_line(#[trigger] st.header_comments[i])
    &&& forall|i: int|
        0 <= i < st.current_comments.len() ==> is_comment_piece(#[trigger] st.current_comments[i])
    &&& st.current_section is None ==> forall|i: int|
        0 <= i < st.current_comments.len() ==> is_comment_text_line(#[trigger] st.current_comments[i])
    &&& st.is_header ==> st.current_section is None
    &&& forall|i: int, j: int|
        0 <= i < j < st.section_order.len() ==> #[trigger] st.section_order[i]
            != #[trigger] st.section_order[j]
    &&& forall|i: int| 0 <= i < st.section_order.len() ==> has_no_newline(#[trigger] st.section_order[i])
    &&& forall|i: int| 0 <= i < st.entries.len() ==> entry_ok(#[trigger] st.entries[i])
}

/// Dropping blank lines keeps only lines of the list.
proof fn lemma_non_blank_pieces(cs: Seq<Seq<char>>)
    requires
        forall|i: int| 0 <= i < cs.len() ==> is_comment_piece(#[trigger] cs[i]),
    ensures
        forall|i: int| 0 <= i < non_blank(cs).len() ==> is_comment_piece(#[trigger] non_blank(cs)[i]),
    decreases cs.len(),
{
    if cs.len() > 0 {
        let t = cs.drop_last();
        assert forall|i: int| 0 <= i < t.len() implies is_comment_piece(#[trigger] t[i]) by {
            assert(t[i] == cs[i]);
        }
        lemma_non_blank_pieces(t);
        assert(is_comment_piece(cs[cs.len() - 1]));
        let r = non_blank(cs);
        assert forall|i: int| 0 <= i < r.len() implies is_comment_piece(#[trigger] r[i]) by {
            if i < non_blank(t).len() {
                assert(r[i] == non_blank(t)[i]);
            } else {
                assert(r[i] == cs.last());
            }
        }
    }
}

/// A section line keeps the state's facts.
proof fn lemma_section_step_ok(st: ParseState, l: Seq<char>)
    requires
        state_ok(st),
        line_ok(l),
        is_section_line(l),
        !is_comment_start(l),
    ensures
        state_ok(parse_step(st, l)),
{
    let s = l.subrange(1, l.len() - 1);
    let r = parse_step(st, l);
    assert forall|k: int| 0 <= k < s.len() implies s[k] != '\n' by {
        assert(s[k] == l[k + 1]);
    }
    if !st.section_order.contains(s) {
        let o = st.section_order.push(s);
        assert forall|i: int, j: int| 0 <= i < j < o.len() implies #[trigger] o[i] != #[trigger] o[j] by {
            if j == o.len() - 1 {
                assert(o[i] == st.section_order[i]);
            } else {
                assert(o[i] == st.section_order[i] && o[j] == st.section_order[j]);
            }
        }
    }
    let drain = st.is_header && st.current_comments.len() > 0;
    if drain {
        let h = st.header_comments + st.current_comments;
        assert forall|i: int| 0 <= i < h.len() implies is_comment_text_line(#[trigger] h[i]) by {
            if i < st.header_comments.len() {
                assert(h[i] == st.header_comments[i]);
            } else {
                assert(h[i] == st.current_comments[i - st.header_comments.len()]);
            }
        }
    } else {
        lemma_non_blank_pieces(st.current_comments);
    }
    assert(state_ok(r));
}

/// Every read line keeps the state's facts.
proof fn lemma_step_ok(st: ParseState, l: Seq<char>)
    requires
        state_ok(st),
        line_ok(l),
    ensures
        state_ok(parse_step(st, l)),
{
    let r = parse_step(st, l);
    if l.len() == 0 {
        if st.current_section is Some {
            let c = st.current_comments.push(l);
            assert forall|i: int| 0 <= i < c.len() implies is_comment_piece(#[trigger] c[i]) by {
                if i < st.current_comments.len() {
                    assert(c[i] == st.current_comments[i]);
                }
            }
        }
    } else if is_comment_start(l) {
        let c = st.current_comments.push(l);
        assert forall|i: int| 0 <= i < c.len() implies is_comment_piece(#[trigger] c[i]) by {
            if i < st.current_comments.len() {
                assert(c[i] == st.current_comments[i]);
            }
        }
        assert forall|i: int|
            0 <= i < c.len() && st.current_section is None implies is_comment_text_line(#[trigger] c[i]) by {
            if i < st.current_comments.len() {
                assert(c[i] == st.current_comments[i]);
            }
        }
    } else if is_section_line(l) {
        lemma_section_step_ok(st, l);
    } else {
        match st.current_section {
            Some(sec) => match first_index_of(l, '=') {
                Some(pos) => {
                    lemma_entry_of_line_ok(sec, l, st.current_comments);
                    let e = entry_of_line(sec, l, pos, st.current_comments);
                    let es = st.entries.push(e);
                    assert forall|i: int| 0 <= i < es.len() implies entry_ok(#[trigger] es[i]) by {
                        if i < st.entries.len() {
                            assert(es[i] == st.entries[i]);
                        }
                    }
                },
                None => {},
            },
            None => if st.is_header {
                let h = st.header_comments + st.current_comments;
                assert forall|i: int| 0 <= i < h.len() implies is_comment_text_line(#[trigger] h[i]) by {
                    if i < st.header_comments.len() {
                        assert(h[i] == st.header_comments[i]);
                    } else {
                        assert(h[i] == st.current_comments[i - st.header_comments.len()]);
                    }
                }
            },
        }
    }
}

/// Reading lines that stand alone keeps the state's facts.
proof fn lemma_parse_from_ok(st: ParseState, ls: Seq<Option<Seq<char>>>)
    requires
        state_ok(st),
        forall|i: int| 0 <= i < ls.len() ==> (#[trigger] ls[i] matches Some(l) ==> line_ok(l)),
    ensures
        state_ok(parse_from(st, ls)),
    decreases ls.len(),
{
    if ls.len() > 0 {
        let t = ls.drop_last();
        assert forall|i: int| 0 <= i < t.len() implies (#[trigger] t[i] matches Some(l) ==> line_ok(l)) by {
            assert(t[i] == ls[i]);
        }
        lemma_parse_from_ok(st, t);
        assert(ls[ls.len() - 1] == ls.last());
        if let Some(l) = ls.last() {
            lemma_step_ok(parse_from(st, t), l);
        }
    }
}

/// A file that was read can be written and read back, unless comments
/// stand above the first line of a file that has no section.
pub proof fn lemma_parse_gives_writable(content: Seq<u8>, file_path: Seq<char>, lang: Seq<char>)
    requires
        parse_spec(content, file_path, lang).header_comments.len() > 0 ==> parse_spec(
            content,
            file_path,
            lang,
        ).section_order.len() > 0,
    ensures
        writable(parse_spec(content, file_path, lang)),
{
    lemma_read_lines_ok(content);
    lemma_parse_from_ok(initial_state(), read_lines(content));
}

/// Reading a file, writing it and reading the text again gives the same
/// header comments, the same sections and the same entries, grouped by
/// section in the order of the sections (so the same entries in the same
/// order where each section's lines stood together); except where comments
/// stand above the first line of a file that has no section.
pub proof fn lemma_parse_write_parse(content: Seq<u8>, file_path: Seq<char>, lang: Seq<char>)
    requires
        parse_spec(content, file_path, lang).header_comments.len() > 0 ==> parse_spec(
            content,
            file_path,
            lang,
        ).section_order.len() > 0,
    ensures
        ({
            let f = parse_spec(content, file_path, lang);
            parse_spec(encode_utf8(text_of_lines(write_lines(f))), file_path, lang) == (CfgFileView {
                entries: grouped(f.entries, f.section_order),
                ..f
            })
        }),
{
    lemma_parse_gives_writable(content, file_path, lang);
    lemma_write_then_parse(parse_spec(content, file_path, lang));
}

/// The entries of a section in two lists one after the other.
proof fn lemma_entries_in_concat(a: Seq<CfgEntryView>, b: Seq<CfgEntryView>, s: Seq<char>)
    ensures
        entries_in(a + b, s) == entries_in(a, s) + entries_in(b, s),
    decreases b.len(),
{
    if b.len() == 0 {
        assert(a + b =~= a);
        assert(entries_in(a, s) + entries_in(b, s) =~= entries_in(a, s));
    } else {
        lemma_entries_in_concat(a, b.drop_last(), s);
        assert((a + b).drop_last() =~= a + b.drop_last());
        assert((a + b).last() == b.last());
        assert(entries_in(a + b, s) =~= entries_in(a, s) + entries_in(b, s));
    }
}

/// The entries of a section among the entries of a section.
proof fn lemma_entries_in_twice(es: Seq<CfgEntryView>, t: Seq<char>, s: Seq<char>)
    ensures
        entries_in(entries_in(es, t), s) == if s == t {
            entries_in(es, t)
        } else {
            Seq::<CfgEntryView>::empty()
        },
    decreases es.len(),
{
    if es.len() > 0 {
        let prev = entries_in(es.drop_last(), t);
        lemma_entries_in_twice(es.drop_last(), t, s);
        let tail: Seq<CfgEntryView> = if es.last().section == t {
            seq![es.last()]
        } else {
            seq![]
        };
        lemma_entries_in_concat(prev, tail, s);
        if es.last().section == t {
            assert(tail.drop_last() =~= Seq::<CfgEntryView>::empty());
            assert(tail.last() == es.last());
        }
        assert(entries_in(tail, s) =~= (if s == t {
            tail
        } else {
            Seq::<CfgEntryView>::empty()
        }));
        assert(entries_in(entries_in(es, t), s) =~= (if s == t {
            entries_in(es, t)
        } else {
            Seq::<CfgEntryView>::empty()
        }));
    }
}

/// The entries of a section among entries grouped by distinct sections.
proof fn lemma_entries_in_grouped(es: Seq<CfgEntryView>, order: Seq<Seq<char>>, s: Seq<char>)
    requires
        forall|i: int, j: int| 0 <= i < j < order.len() ==> #[trigger] order[i] != #[trigger] order[j],
    ensures
        entries_in(grouped(es, order), s) == if order.contains(s) {
            entries_in(es, s)
        } else {
            Seq::<CfgEntryView>::empty()
        },
    decreases order.len(),
{
    if order.len() > 0 {
        let o2 = order.drop_last();
        let t = order.last();
        assert forall|i: int, j: int| 0 <= i < j < o2.len() implies #[trigger] o2[i] != #[trigger] o2[j] by {
            assert(o2[i] == order[i] && o2[j] == order[j]);
        }
        lemma_entries_in_grouped(es, o2, s);
        lemma_entries_in_concat(grouped(es, o2), entries_in(es, t), s);
        lemma_entries_in_twice(es, t, s);
        assert(order[order.len() - 1] == t);
        if s == t {
            assert(!o2.contains(s)) by {
                if o2.contains(s) {
                    let k = choose|k: int| 0 <= k < o2.len() && o2[k] == s;
                    assert(order[k] == o2[k]);
                }
            }
            assert(Seq::<CfgEntryView>::empty() + entries_in(es, s) =~= entries_in(es, s));
        } else {
            assert(o2.contains(s) == order.contains(s)) by {
                if order.contains(s) {
                    let k = choose|k: int| 0 <= k < order.len() && order[k] == s;
                    assert(o2[k] == order[k]);
                }
                if o2.contains(s) {
                    let k = choose|k: int| 0 <= k < o2.len() && o2[k] == s;
                    assert(order[k] == o2[k]);
                }
            }
            assert(entries_in(grouped(es, o2), s) + Seq::<CfgEntryView>::empty() =~= entries_in(
                grouped(es, o2),
                s,
            ));
        }
    }
}

/// The sections of `order` are written alike from the entries and from the
/// entries grouped by `order`.
proof fn lemma_sections_lines_grouped(
    p: Seq<Seq<char>>,
    es: Seq<CfgEntryView>,
    order: Seq<Seq<char>>,
)
    requires
        forall|i: int, j: int| 0 <= i < j < order.len() ==> #[trigger] order[i] != #[trigger] order[j],
        forall|i: int| 0 <= i < p.len() ==> order.contains(#[trigger] p[i]),
    ensures
        sections_lines(p, grouped(es, order)) == sections_lines(p, es),
    decreases p.len(),
{
    if p.len() > 0 {
        let p2 = p.drop_last();
        assert forall|i: int| 0 <= i < p2.len() implies order.contains(#[trigger] p2[i]) by {
            assert(p2[i] == p[i]);
        }
        lemma_sections_lines_grouped(p2, es, order);
        assert(order.contains(p[p.len() - 1]));
        lemma_entries_in_grouped(es, order, p.last());
    }
}

/// Writing is settled after one round: writing a file that was read, reading
/// the text and writing it again gives the same text; except where comments
/// stand above the first line of a file that has no section.
pub proof fn lemma_write_after_parse_is_stable(content: Seq<u8>, file_path: Seq<char>, lang: Seq<char>)
    requires
        parse_spec(content, file_path, lang).header_comments.len() > 0 ==> parse_spec(
            content,
            file_path,
            lang,
        ).section_order.len() > 0,
    ensures
        ({
            let f = parse_spec(content, file_path, lang);
            let text = text_of_lines(write_lines(f));
            text_of_lines(write_lines(parse_spec(encode_utf8(text), file_path, lang))) == text
        }),
{
    let f = parse_spec(content, file_path, lang);
    lemma_parse_gives_writable(content, file_path, lang);
    lemma_write_then_parse(f);
    let order = f.section_order;
    assert forall|i: int| 0 <= i < order.len() implies order.contains(#[trigger] order[i]) by {}
    lemma_sections_lines_grouped(order, f.entries, order);
}

} // verus!

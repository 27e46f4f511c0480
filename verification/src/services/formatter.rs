//! Protecting Factorio markup from a translation engine: the text is
//! HTML-escaped and its placeholders (`__...__`), rich-text tags (`[...]`)
//! and escaped newlines (`\n`) are wrapped in `<keep>` tags, which the
//! engine leaves alone; afterwards the tags are removed and the entities
//! decoded.
use vstd::prelude::*;
use crate::text::{replace_all, replace_text};

verus! {

/// What `html_escape::encode_safe` writes for one character: `&`, `<`, `>`,
/// `"`, `'` and `/` become entities, every other character stays.
pub open spec fn escape_safe_char(c: char) -> Seq<char> {
    if c == '&' {
        seq!['&', 'a', 'm', 'p', ';']
    } else if c == '<' {
        seq!['&', 'l', 't', ';']
    } else if c == '>' {
        seq!['&', 'g', 't', ';']
    } else if c == '"' {
        seq!['&', 'q', 'u', 'o', 't', ';']
    } else if c == '\'' {
        seq!['&', '#', 'x', '2', '7', ';']
    } else if c == '/' {
        seq!['&', '#', 'x', '2', 'F', ';']
    } else {
        seq![c]
    }
}

/// The text as `html_escape::encode_safe` encodes it, character by character.
pub open spec fn escape_safe(s: Seq<char>) -> Seq<char>
    decreases s.len(),
{
    if s.len() == 0 {
        seq![]
    } else {
        escape_safe_char(s[0]) + escape_safe(s.drop_first())
    }
}

/// `html_escape::encode_safe` replaces each of `&`, `<`, `>`, `"`, `'` and
/// `/` by its entity and leaves every other character as it is.
#[verifier::external_body]
fn html_encode_safe(text: &str) -> (r: String)
    ensures
        r@ == escape_safe(text@),
{
    html_escape::encode_safe(text).into_owned()
}

/// What `html_escape::decode_html_entities` gives for a text.
pub uninterp spec fn html_decoded(text: Seq<char>) -> Seq<char>;

/// `html_escape::decode_html_entities` turns character references back into
/// characters; its result is a function of the text alone, named
/// `html_decoded` (the table of named references is not restated here).
#[verifier::external_body]
fn html_decode_entities(text: &str) -> (r: String)
    ensures
        r@ == html_decoded(text@),
{
    html_escape::decode_html_entities(text).into_owned()
}

/// What replacing every match of a regular expression gives, or `None` when
/// the pattern does not compile.
pub uninterp spec fn regex_replaced(
    pattern: Seq<char>,
    case_insensitive: bool,
    haystack: Seq<char>,
    replacement: Seq<char>,
) -> Option<Seq<char>>;

/// Compiles `pattern` with `regex::RegexBuilder` (case-insensitive when
/// asked) and calls `Regex::replace_all` with `replacement`, in which `$`
/// references to groups are expanded. The result, or `None` when the pattern
/// does not compile, is a function of the four arguments, named
/// `regex_replaced`; the regular-expression semantics are not restated.
#[verifier::external_body]
pub(crate) fn regex_replace_all(
    pattern: &str,
    case_insensitive: bool,
    haystack: &str,
    replacement: &str,
) -> (r: Option<String>)
    ensures
        r is Some <==> regex_replaced(pattern@, case_insensitive, haystack@, replacement@) is Some,
        r matches Some(s) ==> Some(s@) == regex_replaced(
            pattern@,
            case_insensitive,
            haystack@,
            replacement@,
        ),
{
    match regex::RegexBuilder::new(pattern).case_insensitive(case_insensitive).build() {
        Ok(re) => Some(re.replace_all(haystack, replacement).into_owned()),
        Err(_) => None,
    }
}

/// The pattern of the parts to keep: runs of `__...__`, `[...]` and `\n`.
pub open spec fn keep_pattern() -> Seq<char> {
    "((?:__.*?__)+)|(\\[.*?\\])|(\\\\n)"@
}

/// Every run of any characters in a pattern is lazy: each `.` is repeated
/// by `*?` or `+?`, taking as few characters as it can.
pub open spec fn repetitions_lazy(p: Seq<char>) -> bool {
    forall|i: int|
        0 <= i < p.len() && #[trigger] p[i] == '.' ==> i + 2 < p.len() && (p[i + 1] == '*'
            || p[i + 1] == '+') && p[i + 2] == '?'
}

/// The parts to keep are the shortest that match: every run of any
/// characters in the pattern is lazy, so a rich-text tag ends at the first
/// `]` after its `[` and the text standing between two tags is no part of
/// either; and the pattern's alternative for a tag is `\[`, any characters
/// taken lazily, `\]`.
pub proof fn lemma_keep_pattern_shortest()
    ensures
        repetitions_lazy(keep_pattern()),
        crate::text::has_infix(keep_pattern(), seq!['(', '\\', '[', '.', '*', '?', '\\', ']', ')']),
{
    reveal_strlit("((?:__.*?__)+)|(\\[.*?\\])|(\\\\n)");
    let p = keep_pattern();
    assert forall|i: int|
        0 <= i < p.len() && #[trigger] p[i] == '.' implies i + 2 < p.len() && (p[i + 1] == '*'
            || p[i + 1] == '+') && p[i + 2] == '?' by {
        assert(i == 6 || i == 18);
    }
    let tag = seq!['(', '\\', '[', '.', '*', '?', '\\', ']', ')'];
    assert(p.len() == 30);
    assert(p.subrange(15, 24) =~= tag);
    assert(crate::text::occurs_at(p, tag, 15));
}

/// Each match is replaced by itself inside `<keep>` tags.
pub open spec fn keep_replacement() -> Seq<char> {
    "<keep>${0}</keep>"@
}

/// The encoded text with its protected parts wrapped.
pub open spec fn keep_wrapped(encoded: Seq<char>) -> Seq<char> {
    match regex_replaced(keep_pattern(), false, encoded, keep_replacement()) {
        Some(r) => r,
        None => encoded,
    }
}

/// `<keep>`
pub open spec fn open_tag() -> Seq<char> {
    seq!['<', 'k', 'e', 'e', 'p', '>']
}

/// `</keep>`
pub open spec fn close_tag() -> Seq<char> {
    seq!['<', '/', 'k', 'e', 'e', 'p', '>']
}

/// The text with its `<keep>` and `</keep>` tags removed and its entities
/// decoded.
pub open spec fn unwrapped(t: Seq<char>) -> Seq<char> {
    html_decoded(replace_all(replace_all(t, open_tag(), seq![]), close_tag(), seq![]))
}

/// The formatter of texts sent to a translation engine.
pub struct FactorioStringFormatter;

impl FactorioStringFormatter {
    /// The empty text stays empty; any other text is HTML-escaped and its
    /// protected parts are wrapped in `<keep>` tags.
    pub fn wrap_tags(text: &str) -> (r: String)
        ensures
            text@.len() == 0 ==> r@ == text@,
            text@.len() > 0 ==> r@ == keep_wrapped(escape_safe(text@)),
    {
        if text.is_empty() {
            return text.to_owned();
        }
        let encoded = html_encode_safe(text);
        let pattern = "((?:__.*?__)+)|(\\[.*?\\])|(\\\\n)";
        let replacement = "<keep>${0}</keep>";
        match regex_replace_all(pattern, false, encoded.as_str(), replacement) {
            Some(r) => r,
            None => encoded,
        }
    }

    /// The empty text stays empty; any other text loses its `<keep>` and
    /// `</keep>` tags and has its entities decoded.
    pub fn unwrap_tags(translated_text: &str) -> (r: String)
        ensures
            translated_text@.len() == 0 ==> r@ == translated_text@,
            translated_text@.len() > 0 ==> r@ == unwrapped(translated_text@),
    {
        if translated_text.is_empty() {
            return translated_text.to_owned();
        }
        let open = "<keep>";
        let close = "</keep>";
        let nothing = "";
        proof {
            reveal_strlit("<keep>");
            reveal_strlit("</keep>");
            reveal_strlit("");
            assert(open@ =~= open_tag());
            assert(close@ =~= close_tag());
            assert(nothing@ =~= Seq::<char>::empty());
        }
        let without_open = replace_text(translated_text, open, nothing);
        let without_tags = replace_text(without_open.as_str(), close, nothing);
        html_decode_entities(without_tags.as_str())
    }
}

} // verus!

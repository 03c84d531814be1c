//! What the library takes on trust of the string functions of the standard
//! library.

use vstd::prelude::*;

verus! {

/// `==` on string slices compares them character by character.
#[verifier::external_body]
pub(crate) fn str_eq(a: &str, b: &str) -> (same: bool)
    ensures
        same == (a@ == b@),
{
    a == b
}

/// `str::starts_with` tells whether `prefix` stands at the start of `text`.
#[verifier::external_body]
pub(crate) fn starts_with(text: &str, prefix: &str) -> (found: bool)
    ensures
        found == prefix@.is_prefix_of(text@),
{
    text.starts_with(prefix)
}

/// `str::strip_prefix` returns what follows `prefix` in `text`, or `None`
/// where `text` does not start with it.
#[verifier::external_body]
pub(crate) fn strip_prefix<'a>(text: &'a str, prefix: &str) -> (rest: Option<&'a str>)
    ensures
        match rest {
            Some(rest) => text@ == prefix@ + rest@,
            None => !prefix@.is_prefix_of(text@),
        },
{
    text.strip_prefix(prefix)
}

/// Whether `a` comes before `b` in the order of texts: at the first place
/// where the two differ, `a` has the character with the lower code point,
/// or `a` ends there and `b` goes on.
pub open spec fn text_before(a: Seq<char>, b: Seq<char>) -> bool
    decreases a.len(),
{
    if b.len() == 0 {
        false
    } else if a.len() == 0 {
        true
    } else if a[0] == b[0] {
        text_before(a.drop_first(), b.drop_first())
    } else {
        (a[0] as u32) < (b[0] as u32)
    }
}

/// No text comes before itself.
pub proof fn lemma_text_before_irreflexive(a: Seq<char>)
    ensures
        !text_before(a, a),
    decreases a.len(),
{
    if a.len() > 0 {
        lemma_text_before_irreflexive(a.drop_first());
    }
}

/// What comes before a text comes before all that the text comes before.
pub proof fn lemma_text_before_transitive(a: Seq<char>, b: Seq<char>, c: Seq<char>)
    requires
        text_before(a, b),
        text_before(b, c),
    ensures
        text_before(a, c),
    decreases a.len(),
{
    if a.len() > 0 && a[0] == b[0] && b[0] == c[0] {
        lemma_text_before_transitive(a.drop_first(), b.drop_first(), c.drop_first());
    }
}

/// Of two texts that differ, one comes before the other.
pub proof fn lemma_text_before_total(a: Seq<char>, b: Seq<char>)
    ensures
        text_before(a, b) || a == b || text_before(b, a),
    decreases a.len(),
{
    if a.len() == 0 || b.len() == 0 {
        if a.len() == 0 && b.len() == 0 {
            assert(a =~= b);
        }
    } else if a[0] == b[0] {
        lemma_text_before_total(a.drop_first(), b.drop_first());
        if a.drop_first() == b.drop_first() {
            assert(a =~= seq![a[0]] + a.drop_first());
            assert(b =~= seq![b[0]] + b.drop_first());
        }
    } else {
        vstd::utf8::char_u32_cast(a[0], a[0] as u32);
        vstd::utf8::char_u32_cast(b[0], b[0] as u32);
    }
}

/// `<` on string slices orders them by their characters, each by its code
/// point, and a text before every text that it starts.
#[verifier::external_body]
pub(crate) fn str_lt(a: &str, b: &str) -> (before: bool)
    ensures
        before == text_before(a@, b@),
{
    a < b
}

/// The lower-case form of an ASCII upper-case letter; any other character
/// as it is.
pub open spec fn ascii_lower(c: char) -> char {
    if 'A' <= c && c <= 'Z' {
        ((c as u8) + 32) as char
    } else {
        c
    }
}

/// Whether two texts are the same up to the case of their ASCII letters.
pub open spec fn same_ignoring_ascii_case(a: Seq<char>, b: Seq<char>) -> bool {
    a.len() == b.len() && forall|i: int| 0 <= i < a.len() ==> ascii_lower(a[i]) == ascii_lower(b[i])
}

/// `str::eq_ignore_ascii_case` compares two string slices as if every ASCII
/// letter were in lower case.
#[verifier::external_body]
pub(crate) fn eq_ignore_ascii_case(a: &str, b: &str) -> (same: bool)
    ensures
        same == same_ignoring_ascii_case(a@, b@),
{
    a.eq_ignore_ascii_case(b)
}

/// What `str::to_lowercase` makes of a text: its lower-case form by the
/// rules of Unicode.
pub uninterp spec fn lowercase(text: Seq<char>) -> Seq<char>;

/// `str::to_lowercase`.
#[verifier::external_body]
pub(crate) fn to_lowercase(text: &str) -> (lower: String)
    ensures
        lower@ == lowercase(text@),
{
    text.to_lowercase()
}

/// The place of the first `separator` in `text`, or the length of `text`
/// where there is none.
pub open spec fn first_separator(text: Seq<char>, separator: char) -> int
    decreases text.len(),
{
    if text.len() == 0 || text[0] == separator {
        0
    } else {
        1 + first_separator(text.drop_first(), separator)
    }
}

pub proof fn lemma_first_separator(text: Seq<char>, separator: char)
    ensures
        0 <= first_separator(text, separator) <= text.len(),
    decreases text.len(),
{
    if text.len() > 0 && text[0] != separator {
        lemma_first_separator(text.drop_first(), separator);
    }
}

/// The parts of `text` between its separators, in order; a text without a
/// separator is its own single part.
pub open spec fn split_parts(text: Seq<char>, separator: char) -> Seq<Seq<char>>
    decreases text.len(),
{
    let at = first_separator(text, separator);
    if at >= text.len() {
        seq![text]
    } else {
        proof {
            lemma_first_separator(text, separator);
        }
        seq![text.take(at)] + split_parts(text.skip(at + 1), separator)
    }
}

/// The texts of a list of strings, in order.
pub open spec fn texts(strings: Seq<String>) -> Seq<Seq<char>> {
    Seq::new(strings.len(), |i: int| strings[i]@)
}

/// `str::split` with a character as the pattern hands out the parts of the
/// text between the occurrences of the character.
#[verifier::external_body]
pub(crate) fn split(text: &str, separator: char) -> (parts: Vec<String>)
    ensures
        texts(parts@) == split_parts(text@, separator),
{
    text.split(separator).map(|part| part.to_owned()).collect()
}

/// Where `text` holds `separator`, what stands before its first occurrence
/// and what stands after it.
pub open spec fn split_at_first(text: Seq<char>, separator: char) -> Option<(Seq<char>, Seq<char>)> {
    let at = first_separator(text, separator);
    if at >= text.len() {
        None
    } else {
        Some((text.take(at), text.skip(at + 1)))
    }
}

/// `str::split_once` with a character as the pattern splits the text at the
/// first occurrence of the character.
#[verifier::external_body]
pub(crate) fn split_once(text: &str, separator: char) -> (halves: Option<(String, String)>)
    ensures
        match halves {
            Some((before, after)) => split_at_first(text@, separator) == Some((before@, after@)),
            None => split_at_first(text@, separator) is None,
        },
{
    text.split_once(separator).map(|(before, after)| (before.to_owned(), after.to_owned()))
}

/// Whether a character is ASCII whitespace: a space, a tab, a line feed, a
/// form feed or a carriage return.
pub open spec fn is_ascii_space(c: char) -> bool {
    c == ' ' || c == '\t' || c == '\n' || c == '\x0C' || c == '\r'
}

/// How many characters stand before the first ASCII whitespace of `text`.
pub open spec fn word_len(text: Seq<char>) -> int
    decreases text.len(),
{
    if text.len() == 0 || is_ascii_space(text[0]) {
        0
    } else {
        1 + word_len(text.drop_first())
    }
}

pub proof fn lemma_word_len(text: Seq<char>)
    ensures
        0 <= word_len(text) <= text.len(),
        text.len() > 0 && !is_ascii_space(text[0]) ==> word_len(text) > 0,
    decreases text.len(),
{
    if text.len() > 0 && !is_ascii_space(text[0]) {
        lemma_word_len(text.drop_first());
    }
}

/// The words of `text`: its runs of characters that are no ASCII
/// whitespace, in order.
pub open spec fn ascii_words(text: Seq<char>) -> Seq<Seq<char>>
    decreases text.len(),
{
    if text.len() == 0 {
        Seq::empty()
    } else if is_ascii_space(text[0]) {
        ascii_words(text.drop_first())
    } else {
        proof {
            lemma_word_len(text);
        }
        seq![text.take(word_len(text))] + ascii_words(text.skip(word_len(text)))
    }
}

/// `str::split_ascii_whitespace` hands out the words of the text.
#[verifier::external_body]
pub(crate) fn split_ascii_whitespace(text: &str) -> (words: Vec<String>)
    ensures
        texts(words@) == ascii_words(text@),
{
    text.split_ascii_whitespace().map(|word| word.to_owned()).collect()
}

/// The number that a run of ASCII digits stands for in base ten; `None`
/// where a character of the run is no digit. The empty run stands for 0.
pub open spec fn digits_value(digits: Seq<char>) -> Option<int>
    decreases digits.len(),
{
    if digits.len() == 0 {
        Some(0int)
    } else {
        let last = digits.last();
        match digits_value(digits.drop_last()) {
            Some(high) => if '0' <= last && last <= '9' {
                Some(high * 10 + (last as int - '0' as int))
            } else {
                None
            },
            None => None,
        }
    }
}

/// The number that a text stands for: an optional `+` and then digits, at
/// least one, and nothing else.
pub open spec fn parsed_number(text: Seq<char>) -> Option<int> {
    let digits = if text.len() > 0 && text[0] == '+' {
        text.skip(1)
    } else {
        text
    };
    if digits.len() == 0 {
        None
    } else {
        digits_value(digits)
    }
}

/// The number that a text stands for, where it fits the type.
pub open spec fn parsed_usize(text: Seq<char>) -> Option<usize> {
    match parsed_number(text) {
        Some(number) => if number <= usize::MAX {
            Some(number as usize)
        } else {
            None
        },
        None => None,
    }
}

/// `str::parse::<usize>` reads an optional `+` sign followed by digits and
/// fails on anything else, and on a number that does not fit.
#[verifier::external_body]
pub(crate) fn parse_usize(text: &str) -> (number: Option<usize>)
    ensures
        number == parsed_usize(text@),
{
    text.parse::<usize>().ok()
}

/// The number that a text stands for, where it fits the type.
pub open spec fn parsed_u64(text: Seq<char>) -> Option<u64> {
    match parsed_number(text) {
        Some(number) => if number <= u64::MAX {
            Some(number as u64)
        } else {
            None
        },
        None => None,
    }
}

/// `str::parse::<u64>` reads an optional `+` sign followed by digits and
/// fails on anything else, and on a number that does not fit.
#[verifier::external_body]
pub(crate) fn parse_u64(text: &str) -> (number: Option<u64>)
    ensures
        number == parsed_u64(text@),
{
    text.parse::<u64>().ok()
}

/// `str::parse::<bool>` reads `true` and `false` and nothing else.
#[verifier::external_body]
pub(crate) fn parse_bool(text: &str) -> (flag: Option<bool>)
    ensures
        flag == if text@ == "true"@ {
            Some(true)
        } else if text@ == "false"@ {
            Some(false)
        } else {
            None
        },
{
    text.parse::<bool>().ok()
}

} // verus!

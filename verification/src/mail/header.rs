//! Names of message headers.

use vstd::prelude::*;

verus! {

/// The name of a header: a header that RFCs define, under the name that the
/// parser gives it, or any other name as it is written.
#[derive(Debug, Clone, PartialEq, Eq, Hash)]
pub enum HeaderName {
    Rfc(String),
    Other(String),
}

pub ghost enum HeaderNameView {
    Rfc(Seq<char>),
    Other(Seq<char>),
}

impl View for HeaderName {
    type V = HeaderNameView;

    open spec fn view(&self) -> HeaderNameView {
        match self {
            HeaderName::Rfc(name) => HeaderNameView::Rfc(name@),
            HeaderName::Other(name) => HeaderNameView::Other(name@),
        }
    }
}

impl HeaderNameView {
    /// The name as text.
    pub open spec fn text(self) -> Seq<char> {
        match self {
            HeaderNameView::Rfc(name) => name,
            HeaderNameView::Other(name) => name,
        }
    }
}

/// Whether a character may stand in the name of a header: an ASCII letter
/// or digit, `_` or `-`.
pub open spec fn is_header_char(c: char) -> bool {
    ('a' <= c && c <= 'z') || ('A' <= c && c <= 'Z') || ('0' <= c && c <= '9') || c == '_' || c
        == '-'
}

/// Whether a text is the name of a header: not empty, and made of such
/// characters alone.
pub open spec fn is_header_name(text: Seq<char>) -> bool {
    text.len() > 0 && forall|i: int| 0 <= i < text.len() ==> is_header_char(#[trigger] text[i])
}

/// The name that `mail_parser` gives the header that its
/// `HeaderName::parse` knows `text` as, where it knows it as one that RFCs
/// define.
pub uninterp spec fn rfc_header_name(text: Seq<char>) -> Option<Seq<char>>;

/// The header name that a text stands for.
pub open spec fn parsed_header_name(text: Seq<char>) -> Option<HeaderNameView> {
    if !is_header_name(text) {
        None
    } else {
        match rfc_header_name(text) {
            Some(name) => Some(HeaderNameView::Rfc(name)),
            None => Some(HeaderNameView::Other(text)),
        }
    }
}

/// `mail_parser::HeaderName::parse` rejects the empty text and any text
/// with a character that is no ASCII letter or digit, `_` or `-`. Of the
/// others it returns the headers that RFCs define as such, here under the
/// name that `RfcHeader::as_str` gives them, and any other name as it was
/// given.
#[verifier::external_body]
pub(crate) fn parse_header_name(text: &str) -> (name: Option<HeaderName>)
    ensures
        match name {
            Some(HeaderName::Rfc(known)) => is_header_name(text@) && rfc_header_name(text@)
                == Some(known@),
            Some(HeaderName::Other(other)) => is_header_name(text@) && rfc_header_name(text@)
                is None && other@ == text@,
            None => !is_header_name(text@),
        },
{
    match mail_parser::HeaderName::parse(text) {
        Some(mail_parser::HeaderName::Rfc(header)) => Some(
            HeaderName::Rfc(header.as_str().to_owned()),
        ),
        Some(mail_parser::HeaderName::Other(name)) => Some(HeaderName::Other(name.into_owned())),
        None => None,
    }
}

impl HeaderName {
    /// Reads the name of a header.
    pub fn parse(text: &str) -> (name: Option<HeaderName>)
        ensures
            match name {
                Some(name) => parsed_header_name(text@) == Some(name@),
                None => parsed_header_name(text@) is None,
            },
    {
        parse_header_name(text)
    }

    /// Whether two names are the same.
    pub fn same(&self, other: &HeaderName) -> (same: bool)
        ensures
            same == (self@ == other@),
    {
        match (self, other) {
            (HeaderName::Rfc(a), HeaderName::Rfc(b)) => crate::text::str_eq(
                a.as_str(),
                b.as_str(),
            ),
            (HeaderName::Other(a), HeaderName::Other(b)) => crate::text::str_eq(
                a.as_str(),
                b.as_str(),
            ),
            _ => false,
        }
    }

    /// The name as text.
    pub fn as_str(&self) -> (name: &str)
        ensures
            name@ == self@.text(),
    {
        match self {
            HeaderName::Rfc(name) => name.as_str(),
            HeaderName::Other(name) => name.as_str(),
        }
    }
}

} // verus!

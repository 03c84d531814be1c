//! The properties of an email and the values they take.

use crate::document::{Tag, TagView};
use crate::jmap::types::{
    JMAPBlob, JMAPDate, JMAPId, KeyValue, MaybeIdReference, ResultReference, VecMap,
};
use crate::mail::header::{parsed_header_name, HeaderName, HeaderNameView};
use crate::text::{
    eq_ignore_ascii_case, lowercase, same_ignoring_ascii_case, split, split_parts, starts_with,
    str_eq, strip_prefix, texts, to_lowercase,
};
use vstd::prelude::*;
use vstd::string::{StrSliceExecFns, StringExecFns};
use vstd::utf8::encode_utf8;

verus! {

/// A keyword of a message.
#[derive(Clone, Debug)]
pub struct Keyword {
    pub tag: Tag,
}

/// Keywords longer than this many bytes are cut to this many characters.
pub const MAX_KEYWORD_LENGTH: usize = 100;

/// The number of the well-known keyword that a text names after `$`, in
/// any case of its letters.
pub open spec fn static_keyword(value: Seq<char>) -> Option<u8> {
    if "$"@.is_prefix_of(value) {
        let name = value.skip("$"@.len() as int);
        if same_ignoring_ascii_case(name, "seen"@) {
            Some(0u8)
        } else if same_ignoring_ascii_case(name, "draft"@) {
            Some(1u8)
        } else if same_ignoring_ascii_case(name, "flagged"@) {
            Some(2u8)
        } else if same_ignoring_ascii_case(name, "answered"@) {
            Some(3u8)
        } else if same_ignoring_ascii_case(name, "recent"@) {
            Some(4u8)
        } else if same_ignoring_ascii_case(name, "important"@) {
            Some(5u8)
        } else if same_ignoring_ascii_case(name, "phishing"@) {
            Some(6u8)
        } else if same_ignoring_ascii_case(name, "junk"@) {
            Some(7u8)
        } else if same_ignoring_ascii_case(name, "notjunk"@) {
            Some(8u8)
        } else if same_ignoring_ascii_case(name, "deleted"@) {
            Some(9u8)
        } else if same_ignoring_ascii_case(name, "forwarded"@) {
            Some(10u8)
        } else if same_ignoring_ascii_case(name, "mdnsent"@) {
            Some(11u8)
        } else {
            None
        }
    } else {
        None
    }
}

/// The text of a keyword that is not well known: its lower-case form, cut
/// to `MAX_KEYWORD_LENGTH` characters where the keyword as given takes
/// that many bytes or more.
pub open spec fn keyword_text(value: Seq<char>) -> Seq<char> {
    let lower = lowercase(value);
    if encode_utf8(value).len() < MAX_KEYWORD_LENGTH {
        lower
    } else if lower.len() < MAX_KEYWORD_LENGTH {
        lower
    } else {
        lower.take(MAX_KEYWORD_LENGTH as int)
    }
}

/// The text of the keyword that a tag stands for, where it stands for one.
pub open spec fn keyword_name(tag: TagView) -> Option<Seq<char>> {
    match tag {
        TagView::Static(0) => Some("$seen"@),
        TagView::Static(1) => Some("$draft"@),
        TagView::Static(2) => Some("$flagged"@),
        TagView::Static(3) => Some("$answered"@),
        TagView::Static(4) => Some("$recent"@),
        TagView::Static(5) => Some("$important"@),
        TagView::Static(6) => Some("$phishing"@),
        TagView::Static(7) => Some("$junk"@),
        TagView::Static(8) => Some("$notjunk"@),
        TagView::Static(9) => Some("$deleted"@),
        TagView::Static(10) => Some("$forwarded"@),
        TagView::Static(11) => Some("$mdnsent"@),
        TagView::Static(_) => None,
        TagView::Text(value) => Some(value),
        TagView::Id(_) => None,
    }
}

/// The tag that a keyword stands for.
pub open spec fn parsed_keyword(value: Seq<char>) -> TagView {
    match static_keyword(value) {
        Some(code) => TagView::Static(code),
        None => TagView::Text(keyword_text(value)),
    }
}

impl Keyword {
    pub const SEEN: u8 = 0;

    pub const DRAFT: u8 = 1;

    pub const FLAGGED: u8 = 2;

    pub const ANSWERED: u8 = 3;

    pub const RECENT: u8 = 4;

    pub const IMPORTANT: u8 = 5;

    pub const PHISHING: u8 = 6;

    pub const JUNK: u8 = 7;

    pub const NOTJUNK: u8 = 8;

    pub const DELETED: u8 = 9;

    pub const FORWARDED: u8 = 10;

    pub const MDN_SENT: u8 = 11;

    pub fn new(tag: Tag) -> (keyword: Keyword)
        ensures
            keyword.tag == tag,
    {
        Keyword { tag }
    }

    /// The keyword written out: a well-known one by its name after `$`, a
    /// text as it is. Other tags are no keywords and are not written out.
    pub fn to_string(&self) -> (text: Option<String>)
        ensures
            match text {
                Some(text) => keyword_name(self.tag@) == Some(text@),
                None => keyword_name(self.tag@) is None,
            },
    {
        match &self.tag {
            Tag::Static(keyword) => {
                let keyword = *keyword;
                if keyword == Self::SEEN {
                    Some(String::from_str("$seen"))
                } else if keyword == Self::DRAFT {
                    Some(String::from_str("$draft"))
                } else if keyword == Self::FLAGGED {
                    Some(String::from_str("$flagged"))
                } else if keyword == Self::ANSWERED {
                    Some(String::from_str("$answered"))
                } else if keyword == Self::RECENT {
                    Some(String::from_str("$recent"))
                } else if keyword == Self::IMPORTANT {
                    Some(String::from_str("$important"))
                } else if keyword == Self::PHISHING {
                    Some(String::from_str("$phishing"))
                } else if keyword == Self::JUNK {
                    Some(String::from_str("$junk"))
                } else if keyword == Self::NOTJUNK {
                    Some(String::from_str("$notjunk"))
                } else if keyword == Self::DELETED {
                    Some(String::from_str("$deleted"))
                } else if keyword == Self::FORWARDED {
                    Some(String::from_str("$forwarded"))
                } else if keyword == Self::MDN_SENT {
                    Some(String::from_str("$mdnsent"))
                } else {
                    None
                }
            },
            Tag::Text(value) => Some(value.clone()),
            _ => None,
        }
    }

    /// Reads a keyword: a well-known one by its number, any other as text
    /// in lower case.
    pub fn parse(value: &str) -> (keyword: Keyword)
        ensures
            keyword.tag@ == parsed_keyword(value@),
    {
        match strip_prefix(value, "$") {
            Some(k) => {
                assert(k@ =~= value@.skip("$"@.len() as int));
                assert("$"@.is_prefix_of(value@));
                if eq_ignore_ascii_case(k, "seen") {
                    return Keyword::new(Tag::Static(Self::SEEN));
                } else if eq_ignore_ascii_case(k, "draft") {
                    return Keyword::new(Tag::Static(Self::DRAFT));
                } else if eq_ignore_ascii_case(k, "flagged") {
                    return Keyword::new(Tag::Static(Self::FLAGGED));
                } else if eq_ignore_ascii_case(k, "answered") {
                    return Keyword::new(Tag::Static(Self::ANSWERED));
                } else if eq_ignore_ascii_case(k, "recent") {
                    return Keyword::new(Tag::Static(Self::RECENT));
                } else if eq_ignore_ascii_case(k, "important") {
                    return Keyword::new(Tag::Static(Self::IMPORTANT));
                } else if eq_ignore_ascii_case(k, "phishing") {
                    return Keyword::new(Tag::Static(Self::PHISHING));
                } else if eq_ignore_ascii_case(k, "junk") {
                    return Keyword::new(Tag::Static(Self::JUNK));
                } else if eq_ignore_ascii_case(k, "notjunk") {
                    return Keyword::new(Tag::Static(Self::NOTJUNK));
                } else if eq_ignore_ascii_case(k, "deleted") {
                    return Keyword::new(Tag::Static(Self::DELETED));
                } else if eq_ignore_ascii_case(k, "forwarded") {
                    return Keyword::new(Tag::Static(Self::FORWARDED));
                } else if eq_ignore_ascii_case(k, "mdnsent") {
                    return Keyword::new(Tag::Static(Self::MDN_SENT));
                }
            },
            None => {},
        }
        let lower = to_lowercase(value);
        if value.as_bytes().len() < MAX_KEYWORD_LENGTH {
            Keyword::new(Tag::Text(lower))
        } else {
            let chars = lower.as_str().unicode_len();
            if chars < MAX_KEYWORD_LENGTH {
                Keyword::new(Tag::Text(lower))
            } else {
                let cut = lower.as_str().substring_char(0, MAX_KEYWORD_LENGTH).to_owned();
                assert(cut@ =~= lower@.take(MAX_KEYWORD_LENGTH as int));
                Keyword::new(Tag::Text(cut))
            }
        }
    }
}

/// The form in which the value of a header is asked for.
#[derive(Debug, PartialEq, Eq, Hash, Clone, Copy, Structural)]
pub enum HeaderForm {
    Raw,
    Text,
    Addresses,
    GroupedAddresses,
    MessageIds,
    Date,
    URLs,
}

/// The form that a text names.
pub open spec fn parsed_form(value: Seq<char>) -> Option<HeaderForm> {
    if value == "asText"@ {
        Some(HeaderForm::Text)
    } else if value == "asAddresses"@ {
        Some(HeaderForm::Addresses)
    } else if value == "asGroupedAddresses"@ {
        Some(HeaderForm::GroupedAddresses)
    } else if value == "asMessageIds"@ {
        Some(HeaderForm::MessageIds)
    } else if value == "asDate"@ {
        Some(HeaderForm::Date)
    } else if value == "asURLs"@ {
        Some(HeaderForm::URLs)
    } else if value == "asRaw"@ {
        Some(HeaderForm::Raw)
    } else {
        None
    }
}

impl HeaderForm {
    /// What a form adds to the name of a header property.
    pub open spec fn spec_suffix(self) -> Seq<char> {
        match self {
            HeaderForm::Raw => ""@,
            HeaderForm::Text => ":asText"@,
            HeaderForm::Addresses => ":asAddresses"@,
            HeaderForm::GroupedAddresses => ":asGroupedAddresses"@,
            HeaderForm::MessageIds => ":asMessageIds"@,
            HeaderForm::Date => ":asDate"@,
            HeaderForm::URLs => ":asURLs"@,
        }
    }

    pub fn suffix(self) -> (suffix: &'static str)
        ensures
            suffix@ == self.spec_suffix(),
    {
        match self {
            HeaderForm::Raw => "",
            HeaderForm::Text => ":asText",
            HeaderForm::Addresses => ":asAddresses",
            HeaderForm::GroupedAddresses => ":asGroupedAddresses",
            HeaderForm::MessageIds => ":asMessageIds",
            HeaderForm::Date => ":asDate",
            HeaderForm::URLs => ":asURLs",
        }
    }

    pub fn parse(value: &str) -> (form: Option<HeaderForm>)
        ensures
            form == parsed_form(value@),
    {
        if str_eq(value, "asText") {
            Some(HeaderForm::Text)
        } else if str_eq(value, "asAddresses") {
            Some(HeaderForm::Addresses)
        } else if str_eq(value, "asGroupedAddresses") {
            Some(HeaderForm::GroupedAddresses)
        } else if str_eq(value, "asMessageIds") {
            Some(HeaderForm::MessageIds)
        } else if str_eq(value, "asDate") {
            Some(HeaderForm::Date)
        } else if str_eq(value, "asURLs") {
            Some(HeaderForm::URLs)
        } else if str_eq(value, "asRaw") {
            Some(HeaderForm::Raw)
        } else {
            None
        }
    }
}

/// A header asked for as a property: which header, in which form, and
/// whether every instance of it or the last.
#[derive(Debug, Clone)]
pub struct HeaderProperty {
    pub form: HeaderForm,
    pub header: HeaderName,
    pub all: bool,
}

pub ghost struct HeaderPropertyView {
    pub form: HeaderForm,
    pub header: HeaderNameView,
    pub all: bool,
}

impl View for HeaderProperty {
    type V = HeaderPropertyView;

    open spec fn view(&self) -> HeaderPropertyView {
        HeaderPropertyView { form: self.form, header: self.header@, all: self.all }
    }
}

/// The header property that the parts of a text between its colons stand
/// for: `header`, the name of the header, then at most a form and `all`,
/// in this order.
pub open spec fn header_property_of(parts: Seq<Seq<char>>) -> Option<HeaderPropertyView> {
    if parts.len() < 2 || parts.len() > 4 || parts[0] != "header"@ {
        None
    } else {
        match parsed_header_name(parts[1]) {
            None => None,
            Some(header) => {
                let third: Option<(HeaderForm, bool)> = if parts.len() < 3 {
                    Some((HeaderForm::Raw, false))
                } else if parts[2] == "all"@ {
                    Some((HeaderForm::Raw, true))
                } else {
                    match parsed_form(parts[2]) {
                        Some(form) => Some((form, false)),
                        None => None,
                    }
                };
                match third {
                    None => None,
                    Some((form, all)) => if parts.len() < 4 {
                        Some(HeaderPropertyView { form, header, all })
                    } else if parts[3] == "all"@ {
                        Some(HeaderPropertyView { form, header, all: true })
                    } else {
                        None
                    },
                }
            },
        }
    }
}

/// The header property that a text stands for.
pub open spec fn parsed_header_property(value: Seq<char>) -> Option<HeaderPropertyView> {
    header_property_of(split_parts(value, ':'))
}

impl HeaderPropertyView {
    /// The property written out: `header:`, the name of the header, the
    /// form unless it is raw, and `:all` where every instance is asked for.
    pub open spec fn text(self) -> Seq<char> {
        "header:"@ + self.header.text() + self.form.spec_suffix() + if self.all {
            ":all"@
        } else {
            ""@
        }
    }
}

impl HeaderProperty {
    /// The property written out.
    pub fn to_string(&self) -> (text: String)
        ensures
            text@ == self@.text(),
    {
        let mut text = String::from_str("header:");
        text.append(self.header.as_str());
        text.append(self.form.suffix());
        if self.all {
            text.append(":all");
        } else {
            text.append("");
        }
        text
    }

    /// A property for a header that RFCs define, by the name that the
    /// parser gives it.
    pub fn new_rfc(header: String, form: HeaderForm, all: bool) -> (property: HeaderProperty)
        ensures
            property@ == (HeaderPropertyView { form, header: HeaderNameView::Rfc(header@), all }),
    {
        HeaderProperty { form, header: HeaderName::Rfc(header), all }
    }

    pub fn new_other(header: String, form: HeaderForm, all: bool) -> (property: HeaderProperty)
        ensures
            property@ == (HeaderPropertyView { form, header: HeaderNameView::Other(header@), all }),
    {
        HeaderProperty { form, header: HeaderName::Other(header), all }
    }

    pub fn parse(value: &str) -> (property: Option<HeaderProperty>)
        ensures
            match property {
                Some(property) => parsed_header_property(value@) == Some(property@),
                None => parsed_header_property(value@) is None,
            },
    {
        let parts = split(value, ':');
        let len = parts.len();
        let ghost names = texts(parts@);
        assert(names.len() == len);
        if len < 2 || len > 4 {
            return None;
        }
        assert(names[0] == parts@[0]@);
        assert(names[1] == parts@[1]@);
        if !str_eq(parts[0].as_str(), "header") {
            return None;
        }
        let header = match HeaderName::parse(parts[1].as_str()) {
            Some(header) => header,
            None => {
                return None;
            },
        };
        let mut form = HeaderForm::Raw;
        let mut all = false;
        if len >= 3 {
            assert(names[2] == parts@[2]@);
            if str_eq(parts[2].as_str(), "all") {
                all = true;
            } else {
                form = match HeaderForm::parse(parts[2].as_str()) {
                    Some(form) => form,
                    None => {
                        return None;
                    },
                };
            }
        }
        if len == 4 {
            assert(names[3] == parts@[3]@);
            if str_eq(parts[3].as_str(), "all") {
                all = true;
            } else {
                return None;
            }
        }
        Some(HeaderProperty { form, header, all })
    }

    /// Whether two properties are the same.
    pub fn same(&self, other: &HeaderProperty) -> (same: bool)
        ensures
            same == (self@ == other@),
    {
        self.form == other.form && self.all == other.all && self.header.same(&other.header)
    }
}

/// A property of a body part.
#[derive(Debug, Clone)]
pub enum BodyProperty {
    PartId,
    BlobId,
    Size,
    Name,
    Type,
    Charset,
    Header(HeaderProperty),
    Headers,
    Disposition,
    Cid,
    Language,
    Location,
    Subparts,
}

pub ghost enum BodyPropertyView {
    PartId,
    BlobId,
    Size,
    Name,
    Type,
    Charset,
    Header(HeaderPropertyView),
    Headers,
    Disposition,
    Cid,
    Language,
    Location,
    Subparts,
}

impl View for BodyProperty {
    type V = BodyPropertyView;

    open spec fn view(&self) -> BodyPropertyView {
        match self {
            BodyProperty::PartId => BodyPropertyView::PartId,
            BodyProperty::BlobId => BodyPropertyView::BlobId,
            BodyProperty::Size => BodyPropertyView::Size,
            BodyProperty::Name => BodyPropertyView::Name,
            BodyProperty::Type => BodyPropertyView::Type,
            BodyProperty::Charset => BodyPropertyView::Charset,
            BodyProperty::Header(header) => BodyPropertyView::Header(header@),
            BodyProperty::Headers => BodyPropertyView::Headers,
            BodyProperty::Disposition => BodyPropertyView::Disposition,
            BodyProperty::Cid => BodyPropertyView::Cid,
            BodyProperty::Language => BodyPropertyView::Language,
            BodyProperty::Location => BodyPropertyView::Location,
            BodyProperty::Subparts => BodyPropertyView::Subparts,
        }
    }
}

/// The property of a body part that a text names.
pub open spec fn parsed_body_property(value: Seq<char>) -> Option<BodyPropertyView> {
    if value == "partId"@ {
        Some(BodyPropertyView::PartId)
    } else if value == "blobId"@ {
        Some(BodyPropertyView::BlobId)
    } else if value == "size"@ {
        Some(BodyPropertyView::Size)
    } else if value == "name"@ {
        Some(BodyPropertyView::Name)
    } else if value == "type"@ {
        Some(BodyPropertyView::Type)
    } else if value == "charset"@ {
        Some(BodyPropertyView::Charset)
    } else if value == "headers"@ {
        Some(BodyPropertyView::Headers)
    } else if value == "disposition"@ {
        Some(BodyPropertyView::Disposition)
    } else if value == "cid"@ {
        Some(BodyPropertyView::Cid)
    } else if value == "language"@ {
        Some(BodyPropertyView::Language)
    } else if value == "location"@ {
        Some(BodyPropertyView::Location)
    } else if value == "subParts"@ {
        Some(BodyPropertyView::Subparts)
    } else if "header:"@.is_prefix_of(value) {
        match parsed_header_property(value) {
            Some(header) => Some(BodyPropertyView::Header(header)),
            None => None,
        }
    } else {
        None
    }
}

impl BodyPropertyView {
    /// The name of the property.
    pub open spec fn text(self) -> Seq<char> {
        match self {
            BodyPropertyView::PartId => "partId"@,
            BodyPropertyView::BlobId => "blobId"@,
            BodyPropertyView::Size => "size"@,
            BodyPropertyView::Name => "name"@,
            BodyPropertyView::Type => "type"@,
            BodyPropertyView::Charset => "charset"@,
            BodyPropertyView::Header(header) => header.text(),
            BodyPropertyView::Headers => "headers"@,
            BodyPropertyView::Disposition => "disposition"@,
            BodyPropertyView::Cid => "cid"@,
            BodyPropertyView::Language => "language"@,
            BodyPropertyView::Location => "location"@,
            BodyPropertyView::Subparts => "subParts"@,
        }
    }
}

impl BodyProperty {
    /// The name of the property.
    pub fn to_string(&self) -> (text: String)
        ensures
            text@ == self@.text(),
    {
        match self {
            BodyProperty::PartId => String::from_str("partId"),
            BodyProperty::BlobId => String::from_str("blobId"),
            BodyProperty::Size => String::from_str("size"),
            BodyProperty::Name => String::from_str("name"),
            BodyProperty::Type => String::from_str("type"),
            BodyProperty::Charset => String::from_str("charset"),
            BodyProperty::Header(header) => header.to_string(),
            BodyProperty::Headers => String::from_str("headers"),
            BodyProperty::Disposition => String::from_str("disposition"),
            BodyProperty::Cid => String::from_str("cid"),
            BodyProperty::Language => String::from_str("language"),
            BodyProperty::Location => String::from_str("location"),
            BodyProperty::Subparts => String::from_str("subParts"),
        }
    }

    pub fn parse(value: &str) -> (property: Option<BodyProperty>)
        ensures
            match property {
                Some(property) => parsed_body_property(value@) == Some(property@),
                None => parsed_body_property(value@) is None,
            },
    {
        if str_eq(value, "partId") {
            Some(BodyProperty::PartId)
        } else if str_eq(value, "blobId") {
            Some(BodyProperty::BlobId)
        } else if str_eq(value, "size") {
            Some(BodyProperty::Size)
        } else if str_eq(value, "name") {
            Some(BodyProperty::Name)
        } else if str_eq(value, "type") {
            Some(BodyProperty::Type)
        } else if str_eq(value, "charset") {
            Some(BodyProperty::Charset)
        } else if str_eq(value, "headers") {
            Some(BodyProperty::Headers)
        } else if str_eq(value, "disposition") {
            Some(BodyProperty::Disposition)
        } else if str_eq(value, "cid") {
            Some(BodyProperty::Cid)
        } else if str_eq(value, "language") {
            Some(BodyProperty::Language)
        } else if str_eq(value, "location") {
            Some(BodyProperty::Location)
        } else if str_eq(value, "subParts") {
            Some(BodyProperty::Subparts)
        } else if starts_with(value, "header:") {
            match HeaderProperty::parse(value) {
                Some(header) => Some(BodyProperty::Header(header)),
                None => None,
            }
        } else {
            None
        }
    }

    /// Whether two properties are the same.
    pub fn same(&self, other: &BodyProperty) -> (same: bool)
        ensures
            same == (self@ == other@),
    {
        match (self, other) {
            (BodyProperty::PartId, BodyProperty::PartId) => true,
            (BodyProperty::BlobId, BodyProperty::BlobId) => true,
            (BodyProperty::Size, BodyProperty::Size) => true,
            (BodyProperty::Name, BodyProperty::Name) => true,
            (BodyProperty::Type, BodyProperty::Type) => true,
            (BodyProperty::Charset, BodyProperty::Charset) => true,
            (BodyProperty::Header(a), BodyProperty::Header(b)) => a.same(b),
            (BodyProperty::Headers, BodyProperty::Headers) => true,
            (BodyProperty::Disposition, BodyProperty::Disposition) => true,
            (BodyProperty::Cid, BodyProperty::Cid) => true,
            (BodyProperty::Language, BodyProperty::Language) => true,
            (BodyProperty::Location, BodyProperty::Location) => true,
            (BodyProperty::Subparts, BodyProperty::Subparts) => true,
            _ => false,
        }
    }
}

/// A property of an email.
#[derive(Debug, Clone)]
pub enum Property {
    Id,
    BlobId,
    ThreadId,
    MailboxIds,
    Keywords,
    Size,
    ReceivedAt,
    MessageId,
    InReplyTo,
    References,
    Sender,
    From,
    To,
    Cc,
    Bcc,
    ReplyTo,
    Subject,
    SentAt,
    HasAttachment,
    Preview,
    BodyValues,
    TextBody,
    HtmlBody,
    Attachments,
    BodyStructure,
    Headers,
    Header(HeaderProperty),
    Invalid(String),
}

pub ghost enum PropertyView {
    Id,
    BlobId,
    ThreadId,
    MailboxIds,
    Keywords,
    Size,
    ReceivedAt,
    MessageId,
    InReplyTo,
    References,
    Sender,
    From,
    To,
    Cc,
    Bcc,
    ReplyTo,
    Subject,
    SentAt,
    HasAttachment,
    Preview,
    BodyValues,
    TextBody,
    HtmlBody,
    Attachments,
    BodyStructure,
    Headers,
    Header(HeaderPropertyView),
    Invalid(Seq<char>),
}

impl View for Property {
    type V = PropertyView;

    open spec fn view(&self) -> PropertyView {
        match self {
            Property::Id => PropertyView::Id,
            Property::BlobId => PropertyView::BlobId,
            Property::ThreadId => PropertyView::ThreadId,
            Property::MailboxIds => PropertyView::MailboxIds,
            Property::Keywords => PropertyView::Keywords,
            Property::Size => PropertyView::Size,
            Property::ReceivedAt => PropertyView::ReceivedAt,
            Property::MessageId => PropertyView::MessageId,
            Property::InReplyTo => PropertyView::InReplyTo,
            Property::References => PropertyView::References,
            Property::Sender => PropertyView::Sender,
            Property::From => PropertyView::From,
            Property::To => PropertyView::To,
            Property::Cc => PropertyView::Cc,
            Property::Bcc => PropertyView::Bcc,
            Property::ReplyTo => PropertyView::ReplyTo,
            Property::Subject => PropertyView::Subject,
            Property::SentAt => PropertyView::SentAt,
            Property::HasAttachment => PropertyView::HasAttachment,
            Property::Preview => PropertyView::Preview,
            Property::BodyValues => PropertyView::BodyValues,
            Property::TextBody => PropertyView::TextBody,
            Property::HtmlBody => PropertyView::HtmlBody,
            Property::Attachments => PropertyView::Attachments,
            Property::BodyStructure => PropertyView::BodyStructure,
            Property::Headers => PropertyView::Headers,
            Property::Header(header) => PropertyView::Header(header@),
            Property::Invalid(value) => PropertyView::Invalid(value@),
        }
    }
}

/// The property of an email that a text names; a text that names none is
/// kept as an invalid property.
pub open spec fn parsed_property(value: Seq<char>) -> PropertyView {
    if value == "id"@ {
        PropertyView::Id
    } else if value == "blobId"@ {
        PropertyView::BlobId
    } else if value == "threadId"@ {
        PropertyView::ThreadId
    } else if value == "mailboxIds"@ {
        PropertyView::MailboxIds
    } else if value == "keywords"@ {
        PropertyView::Keywords
    } else if value == "size"@ {
        PropertyView::Size
    } else if value == "receivedAt"@ {
        PropertyView::ReceivedAt
    } else if value == "messageId"@ {
        PropertyView::MessageId
    } else if value == "inReplyTo"@ {
        PropertyView::InReplyTo
    } else if value == "references"@ {
        PropertyView::References
    } else if value == "sender"@ {
        PropertyView::Sender
    } else if value == "from"@ {
        PropertyView::From
    } else if value == "to"@ {
        PropertyView::To
    } else if value == "cc"@ {
        PropertyView::Cc
    } else if value == "bcc"@ {
        PropertyView::Bcc
    } else if value == "replyTo"@ {
        PropertyView::ReplyTo
    } else if value == "subject"@ {
        PropertyView::Subject
    } else if value == "sentAt"@ {
        PropertyView::SentAt
    } else if value == "hasAttachment"@ {
        PropertyView::HasAttachment
    } else if value == "preview"@ {
        PropertyView::Preview
    } else if value == "bodyValues"@ {
        PropertyView::BodyValues
    } else if value == "textBody"@ {
        PropertyView::TextBody
    } else if value == "htmlBody"@ {
        PropertyView::HtmlBody
    } else if value == "attachments"@ {
        PropertyView::Attachments
    } else if value == "bodyStructure"@ {
        PropertyView::BodyStructure
    } else if value == "headers"@ {
        PropertyView::Headers
    } else if "header:"@.is_prefix_of(value) {
        match parsed_header_property(value) {
            Some(header) => PropertyView::Header(header),
            None => PropertyView::Invalid(value),
        }
    } else {
        PropertyView::Invalid(value)
    }
}

impl PropertyView {
    /// The name of the property; an invalid property is the text it was
    /// read from.
    pub open spec fn text(self) -> Seq<char> {
        match self {
            PropertyView::Id => "id"@,
            PropertyView::BlobId => "blobId"@,
            PropertyView::ThreadId => "threadId"@,
            PropertyView::MailboxIds => "mailboxIds"@,
            PropertyView::Keywords => "keywords"@,
            PropertyView::Size => "size"@,
            PropertyView::ReceivedAt => "receivedAt"@,
            PropertyView::MessageId => "messageId"@,
            PropertyView::InReplyTo => "inReplyTo"@,
            PropertyView::References => "references"@,
            PropertyView::Sender => "sender"@,
            PropertyView::From => "from"@,
            PropertyView::To => "to"@,
            PropertyView::Cc => "cc"@,
            PropertyView::Bcc => "bcc"@,
            PropertyView::ReplyTo => "replyTo"@,
            PropertyView::Subject => "subject"@,
            PropertyView::SentAt => "sentAt"@,
            PropertyView::HasAttachment => "hasAttachment"@,
            PropertyView::Preview => "preview"@,
            PropertyView::BodyValues => "bodyValues"@,
            PropertyView::TextBody => "textBody"@,
            PropertyView::HtmlBody => "htmlBody"@,
            PropertyView::Attachments => "attachments"@,
            PropertyView::BodyStructure => "bodyStructure"@,
            PropertyView::Headers => "headers"@,
            PropertyView::Header(header) => header.text(),
            PropertyView::Invalid(value) => value,
        }
    }

    /// The number of the field that holds the property; properties that are
    /// stored as tags have the numbers of their tags.
    pub open spec fn field(self) -> u8 {
        match self {
            PropertyView::ThreadId => 136,
            PropertyView::MailboxIds => 137,
            PropertyView::Keywords => 132,
            PropertyView::Id => 0,
            PropertyView::BlobId => 1,
            PropertyView::Size => 2,
            PropertyView::ReceivedAt => 3,
            PropertyView::MessageId => 4,
            PropertyView::InReplyTo => 5,
            PropertyView::References => 6,
            PropertyView::Sender => 7,
            PropertyView::From => 8,
            PropertyView::To => 9,
            PropertyView::Cc => 10,
            PropertyView::Bcc => 11,
            PropertyView::ReplyTo => 12,
            PropertyView::Subject => 13,
            PropertyView::SentAt => 14,
            PropertyView::HasAttachment => 15,
            PropertyView::Preview => 16,
            PropertyView::BodyValues => 17,
            PropertyView::TextBody => 18,
            PropertyView::HtmlBody => 19,
            PropertyView::Attachments => 20,
            PropertyView::BodyStructure => 21,
            PropertyView::Headers => 22,
            PropertyView::Header(_) => 23,
            PropertyView::Invalid(_) => 24,
        }
    }

    /// The property that a field number stands for; a number that stands
    /// for none gives an invalid property without text.
    pub open spec fn of_field(field: u8) -> PropertyView {
        match field {
            0 => PropertyView::Id,
            1 => PropertyView::BlobId,
            2 => PropertyView::Size,
            3 => PropertyView::ReceivedAt,
            4 => PropertyView::MessageId,
            5 => PropertyView::InReplyTo,
            6 => PropertyView::References,
            7 => PropertyView::Sender,
            8 => PropertyView::From,
            9 => PropertyView::To,
            10 => PropertyView::Cc,
            11 => PropertyView::Bcc,
            12 => PropertyView::ReplyTo,
            13 => PropertyView::Subject,
            14 => PropertyView::SentAt,
            15 => PropertyView::HasAttachment,
            16 => PropertyView::Preview,
            17 => PropertyView::BodyValues,
            18 => PropertyView::TextBody,
            19 => PropertyView::HtmlBody,
            20 => PropertyView::Attachments,
            21 => PropertyView::BodyStructure,
            22 => PropertyView::Headers,
            136 => PropertyView::ThreadId,
            137 => PropertyView::MailboxIds,
            132 => PropertyView::Keywords,
            _ => PropertyView::Invalid(Seq::empty()),
        }
    }
}

/// A property that is neither a header nor invalid is the property that its
/// field number stands for.
pub proof fn lemma_field_reads_back(property: PropertyView)
    requires
        !(property is Header),
        !(property is Invalid),
    ensures
        PropertyView::of_field(property.field()) == property,
{
}

/// The number of a field of an object.
pub type FieldId = u8;

impl PropertyView {
    /// The header that holds the property, under the name that the parser
    /// gives it; none for a property that no header holds which RFCs
    /// define.
    pub open spec fn rfc_header(self) -> Option<Seq<char>> {
        match self {
            PropertyView::MessageId => Some("Message-ID"@),
            PropertyView::InReplyTo => Some("In-Reply-To"@),
            PropertyView::References => Some("References"@),
            PropertyView::Sender => Some("Sender"@),
            PropertyView::From => Some("From"@),
            PropertyView::To => Some("To"@),
            PropertyView::Cc => Some("Cc"@),
            PropertyView::Bcc => Some("Bcc"@),
            PropertyView::ReplyTo => Some("Reply-To"@),
            PropertyView::Subject => Some("Subject"@),
            PropertyView::SentAt => Some("Date"@),
            PropertyView::Header(property) => match property.header {
                HeaderNameView::Rfc(name) => Some(name),
                HeaderNameView::Other(_) => None,
            },
            _ => None,
        }
    }
}

impl Property {
    /// The header that holds the property, which must be one that a header
    /// holds which RFCs define.
    pub fn as_rfc_header(&self) -> (name: &str)
        requires
            self@.rfc_header() is Some,
        ensures
            name@ == self@.rfc_header().unwrap(),
    {
        match self {
            Property::MessageId => "Message-ID",
            Property::InReplyTo => "In-Reply-To",
            Property::References => "References",
            Property::Sender => "Sender",
            Property::From => "From",
            Property::To => "To",
            Property::Cc => "Cc",
            Property::Bcc => "Bcc",
            Property::ReplyTo => "Reply-To",
            Property::Subject => "Subject",
            Property::SentAt => "Date",
            Property::Header(property) => match &property.header {
                HeaderName::Rfc(name) => name.as_str(),
                HeaderName::Other(_) => vstd::pervasive::unreached(),
            },
            _ => vstd::pervasive::unreached(),
        }
    }

    /// Tells whether a header holds the property which RFCs define.
    pub fn has_rfc_header(&self) -> (held: bool)
        ensures
            held == self@.rfc_header() is Some,
    {
        match self {
            Property::MessageId
            | Property::InReplyTo
            | Property::References
            | Property::Sender
            | Property::From
            | Property::To
            | Property::Cc
            | Property::Bcc
            | Property::ReplyTo
            | Property::Subject
            | Property::SentAt => true,
            Property::Header(property) => match &property.header {
                HeaderName::Rfc(_) => true,
                HeaderName::Other(_) => false,
            },
            _ => false,
        }
    }
}

impl Property {
    /// The name of the property.
    pub fn to_string(&self) -> (text: String)
        ensures
            text@ == self@.text(),
    {
        match self {
            Property::Id => String::from_str("id"),
            Property::BlobId => String::from_str("blobId"),
            Property::ThreadId => String::from_str("threadId"),
            Property::MailboxIds => String::from_str("mailboxIds"),
            Property::Keywords => String::from_str("keywords"),
            Property::Size => String::from_str("size"),
            Property::ReceivedAt => String::from_str("receivedAt"),
            Property::MessageId => String::from_str("messageId"),
            Property::InReplyTo => String::from_str("inReplyTo"),
            Property::References => String::from_str("references"),
            Property::Sender => String::from_str("sender"),
            Property::From => String::from_str("from"),
            Property::To => String::from_str("to"),
            Property::Cc => String::from_str("cc"),
            Property::Bcc => String::from_str("bcc"),
            Property::ReplyTo => String::from_str("replyTo"),
            Property::Subject => String::from_str("subject"),
            Property::SentAt => String::from_str("sentAt"),
            Property::HasAttachment => String::from_str("hasAttachment"),
            Property::Preview => String::from_str("preview"),
            Property::BodyValues => String::from_str("bodyValues"),
            Property::TextBody => String::from_str("textBody"),
            Property::HtmlBody => String::from_str("htmlBody"),
            Property::Attachments => String::from_str("attachments"),
            Property::BodyStructure => String::from_str("bodyStructure"),
            Property::Headers => String::from_str("headers"),
            Property::Header(header) => header.to_string(),
            Property::Invalid(value) => value.clone(),
        }
    }

    /// The number of the field that holds the property.
    pub fn field_id(&self) -> (field: FieldId)
        ensures
            field == self@.field(),
    {
        match self {
            Property::ThreadId => 136,
            Property::MailboxIds => 137,
            Property::Keywords => 132,
            Property::Id => 0,
            Property::BlobId => 1,
            Property::Size => 2,
            Property::ReceivedAt => 3,
            Property::MessageId => 4,
            Property::InReplyTo => 5,
            Property::References => 6,
            Property::Sender => 7,
            Property::From => 8,
            Property::To => 9,
            Property::Cc => 10,
            Property::Bcc => 11,
            Property::ReplyTo => 12,
            Property::Subject => 13,
            Property::SentAt => 14,
            Property::HasAttachment => 15,
            Property::Preview => 16,
            Property::BodyValues => 17,
            Property::TextBody => 18,
            Property::HtmlBody => 19,
            Property::Attachments => 20,
            Property::BodyStructure => 21,
            Property::Headers => 22,
            Property::Header(_) => 23,
            Property::Invalid(_) => 24,
        }
    }

    /// The property that a field number stands for.
    pub fn from_field_id(field: FieldId) -> (property: Property)
        ensures
            property@ == PropertyView::of_field(field),
    {
        match field {
            0 => Property::Id,
            1 => Property::BlobId,
            2 => Property::Size,
            3 => Property::ReceivedAt,
            4 => Property::MessageId,
            5 => Property::InReplyTo,
            6 => Property::References,
            7 => Property::Sender,
            8 => Property::From,
            9 => Property::To,
            10 => Property::Cc,
            11 => Property::Bcc,
            12 => Property::ReplyTo,
            13 => Property::Subject,
            14 => Property::SentAt,
            15 => Property::HasAttachment,
            16 => Property::Preview,
            17 => Property::BodyValues,
            18 => Property::TextBody,
            19 => Property::HtmlBody,
            20 => Property::Attachments,
            21 => Property::BodyStructure,
            22 => Property::Headers,
            136 => Property::ThreadId,
            137 => Property::MailboxIds,
            132 => Property::Keywords,
            _ => Property::Invalid(String::new()),
        }
    }

    /// Reads a property and refuses a text that names none.
    pub fn try_parse(value: &str) -> (property: Option<Property>)
        ensures
            match property {
                Some(property) => property@ == parsed_property(value@) && !(property is Invalid),
                None => parsed_property(value@) is Invalid,
            },
    {
        match Property::parse(value) {
            Property::Invalid(_) => None,
            property => Some(property),
        }
    }

    pub fn parse(value: &str) -> (property: Property)
        ensures
            property@ == parsed_property(value@),
    {
        if str_eq(value, "id") {
            Property::Id
        } else if str_eq(value, "blobId") {
            Property::BlobId
        } else if str_eq(value, "threadId") {
            Property::ThreadId
        } else if str_eq(value, "mailboxIds") {
            Property::MailboxIds
        } else if str_eq(value, "keywords") {
            Property::Keywords
        } else if str_eq(value, "size") {
            Property::Size
        } else if str_eq(value, "receivedAt") {
            Property::ReceivedAt
        } else if str_eq(value, "messageId") {
            Property::MessageId
        } else if str_eq(value, "inReplyTo") {
            Property::InReplyTo
        } else if str_eq(value, "references") {
            Property::References
        } else if str_eq(value, "sender") {
            Property::Sender
        } else if str_eq(value, "from") {
            Property::From
        } else if str_eq(value, "to") {
            Property::To
        } else if str_eq(value, "cc") {
            Property::Cc
        } else if str_eq(value, "bcc") {
            Property::Bcc
        } else if str_eq(value, "replyTo") {
            Property::ReplyTo
        } else if str_eq(value, "subject") {
            Property::Subject
        } else if str_eq(value, "sentAt") {
            Property::SentAt
        } else if str_eq(value, "hasAttachment") {
            Property::HasAttachment
        } else if str_eq(value, "preview") {
            Property::Preview
        } else if str_eq(value, "bodyValues") {
            Property::BodyValues
        } else if str_eq(value, "textBody") {
            Property::TextBody
        } else if str_eq(value, "htmlBody") {
            Property::HtmlBody
        } else if str_eq(value, "attachments") {
            Property::Attachments
        } else if str_eq(value, "bodyStructure") {
            Property::BodyStructure
        } else if str_eq(value, "headers") {
            Property::Headers
        } else if starts_with(value, "header:") {
            match HeaderProperty::parse(value) {
                Some(header) => Property::Header(header),
                None => Property::Invalid(value.to_owned()),
            }
        } else {
            Property::Invalid(value.to_owned())
        }
    }
}

impl Default for Property {
    fn default() -> (property: Property)
        ensures
            property@ == PropertyView::Id,
    {
        Property::Id
    }
}

/// The value of a body of a message.
#[derive(Debug, Clone)]
pub struct EmailBodyValue {
    pub value: String,
    pub is_encoding_problem: Option<bool>,
    pub is_truncated: Option<bool>,
}

#[derive(Debug, Clone)]
pub struct EmailAddress {
    pub name: Option<String>,
    pub email: String,
}

#[derive(Debug, Clone)]
pub struct EmailAddressGroup {
    pub name: Option<String>,
    pub addresses: Vec<EmailAddress>,
}

#[derive(Debug, Clone)]
pub struct EmailHeader {
    pub name: String,
    pub value: String,
}

/// A part of the body of a message, by its properties.
#[derive(Debug)]
pub struct EmailBodyPart {
    pub properties: VecMap<BodyProperty, Value>,
}

/// The value of a property of an email.
#[derive(Debug)]
#[allow(inconsistent_fields)]
pub enum Value {
    Id { value: JMAPId },
    Blob { value: JMAPBlob },
    Size { value: usize },
    Bool { value: bool },
    Keywords { value: VecMap<Keyword, bool>, set: bool },
    MailboxIds { value: VecMap<MaybeIdReference, bool>, set: bool },
    ResultReference { value: ResultReference },
    BodyPart { value: EmailBodyPart },
    BodyPartList { value: Vec<EmailBodyPart> },
    BodyValues { value: VecMap<String, EmailBodyValue> },
    Text { value: String },
    TextList { value: Vec<String> },
    TextListMany { value: Vec<Vec<String>> },
    Date { value: JMAPDate },
    DateList { value: Vec<JMAPDate> },
    Addresses { value: Vec<EmailAddress> },
    AddressesList { value: Vec<Vec<EmailAddress>> },
    GroupedAddresses { value: Vec<EmailAddressGroup> },
    GroupedAddressesList { value: Vec<Vec<EmailAddressGroup>> },
    Headers { value: Vec<EmailHeader> },
    Null,
}

impl Default for Value {
    fn default() -> (value: Value)
        ensures
            value is Null,
    {
        Value::Null
    }
}

impl Value {
    /// The mailboxes of a value that lists mailboxes, to read or to change.
    pub fn get_mailbox_ids(&mut self) -> (ids: Option<&mut VecMap<MaybeIdReference, bool>>)
        ensures
            match *old(self) {
                Value::MailboxIds { value, set } => ids is Some && *ids.unwrap() == value
                    && *final(self) == (Value::MailboxIds { value: *final(ids.unwrap()), set }),
                _ => ids is None && *final(self) == *old(self),
            },
    {
        match self {
            Value::MailboxIds { value, .. } => Some(value),
            _ => None,
        }
    }

    /// The keywords of a value that lists keywords, to read or to change.
    pub fn get_keywords(&mut self) -> (keywords: Option<&mut VecMap<Keyword, bool>>)
        ensures
            match *old(self) {
                Value::Keywords { value, set } => keywords is Some && *keywords.unwrap() == value
                    && *final(self) == (Value::Keywords { value: *final(keywords.unwrap()), set }),
                _ => keywords is None && *final(self) == *old(self),
            },
    {
        match self {
            Value::Keywords { value, .. } => Some(value),
            _ => None,
        }
    }
}

/// The place of the first entry of a body part for a property.
pub open spec fn body_property_slot(
    entries: Seq<KeyValue<BodyProperty, Value>>,
    property: BodyPropertyView,
) -> Option<int>
    decreases entries.len(),
{
    if entries.len() == 0 {
        None
    } else {
        match body_property_slot(entries.drop_last(), property) {
            Some(slot) => Some(slot),
            None => if entries.last().key@ == property {
                Some(entries.len() - 1)
            } else {
                None
            },
        }
    }
}

impl EmailBodyPart {
    /// The value of a property: that of the first entry for it.
    pub fn get(&self, property: &BodyProperty) -> (value: Option<&Value>)
        ensures
            match body_property_slot(self.properties@, property@) {
                Some(slot) => 0 <= slot < self.properties@.len() && value == Some(
                    &self.properties@[slot].value,
                ),
                None => value is None,
            },
    {
        let ghost entries = self.properties@;
        let mut i: usize = 0;
        while i < self.properties.len()
            invariant
                i <= entries.len(),
                entries == self.properties@,
                body_property_slot(entries.take(i as int), property@) is None,
            decreases entries.len() - i,
        {
            let entry = self.properties.entry(i);
            if entry.key.same(property) {
                proof {
                    lemma_body_property_slot(entries, property@, i as int);
                }
                return Some(&entry.value);
            }
            assert(entries.take(i + 1).drop_last() =~= entries.take(i as int));
            i += 1;
        }
        assert(entries.take(i as int) =~= entries);
        None
    }

    /// The text of a property that holds text.
    pub fn get_text(&self, property: BodyProperty) -> (text: Option<&str>)
        ensures
            match body_property_slot(self.properties@, property@) {
                Some(slot) => match self.properties@[slot].value {
                    Value::Text { value } => text is Some && text.unwrap()@ == value@,
                    _ => text is None,
                },
                None => text is None,
            },
    {
        match self.get(&property) {
            Some(Value::Text { value }) => Some(value.as_str()),
            _ => None,
        }
    }

    /// The blob of a property that holds a blob.
    pub fn get_blob(&self, property: BodyProperty) -> (blob: Option<&JMAPBlob>)
        ensures
            match body_property_slot(self.properties@, property@) {
                Some(slot) => match self.properties@[slot].value {
                    Value::Blob { value } => blob == Some(&value),
                    _ => blob is None,
                },
                None => blob is None,
            },
    {
        match self.get(&property) {
            Some(Value::Blob { value }) => Some(value),
            _ => None,
        }
    }
}

/// The first entry for a property is found where nothing before it is for
/// the property.
proof fn lemma_body_property_slot(
    entries: Seq<KeyValue<BodyProperty, Value>>,
    property: BodyPropertyView,
    at: int,
)
    requires
        0 <= at < entries.len(),
        body_property_slot(entries.take(at), property) is None,
        entries[at].key@ == property,
    ensures
        body_property_slot(entries, property) == Some(at),
    decreases entries.len() - at,
{
    assert(entries.take(at + 1).drop_last() =~= entries.take(at));
    assert(body_property_slot(entries.take(at + 1), property) == Some(at));
    lemma_body_property_slot_grows(entries, property, at + 1);
}

proof fn lemma_body_property_slot_grows(
    entries: Seq<KeyValue<BodyProperty, Value>>,
    property: BodyPropertyView,
    len: int,
)
    requires
        0 <= len <= entries.len(),
        body_property_slot(entries.take(len), property) is Some,
    ensures
        body_property_slot(entries, property) == body_property_slot(entries.take(len), property),
    decreases entries.len() - len,
{
    if len == entries.len() {
        assert(entries.take(len) =~= entries);
    } else {
        assert(entries.take(len + 1).drop_last() =~= entries.take(len));
        lemma_body_property_slot_grows(entries, property, len + 1);
    }
}

/// Whether `after` is what `before` becomes once references to objects
/// that an earlier call created are looked up with `fnc`: a reference that
/// `fnc` finds becomes the id found; any other key stays.
pub open spec fn id_resolved<F: Fn(&str) -> Option<JMAPId>>(
    fnc: F,
    before: KeyValue<MaybeIdReference, bool>,
    after: KeyValue<MaybeIdReference, bool>,
) -> bool {
    after.value == before.value && match before.key {
        MaybeIdReference::Reference(name) => exists|text: &str|
            text@ == name@ && ((exists|id: JMAPId|
                call_ensures(fnc, (text,), Some(id)) && after.key == MaybeIdReference::Value(id))
                || (call_ensures(fnc, (text,), None) && after.key == before.key)),
        MaybeIdReference::Value(_) => after.key == before.key,
    }
}

/// Looks the references among the keys of a list of mailboxes up.
fn resolve_ids<F: Fn(&str) -> Option<JMAPId>>(
    mailboxes: VecMap<MaybeIdReference, bool>,
    fnc: &F,
) -> (resolved: VecMap<MaybeIdReference, bool>)
    requires
        forall|name: &str| call_requires(*fnc, (name,)),
    ensures
        resolved@.len() == mailboxes@.len(),
        forall|i: int|
            0 <= i < mailboxes@.len() ==> id_resolved(*fnc, mailboxes@[i], #[trigger] resolved@[i]),
{
    let mut resolved: VecMap<MaybeIdReference, bool> = VecMap::new();
    let ghost all = mailboxes@;
    for entry in it: mailboxes.inner
        invariant
            it.seq() == all,
            forall|name: &str| call_requires(*fnc, (name,)),
            resolved@.len() == it.index(),
            forall|i: int|
                0 <= i < it.index() ==> id_resolved(*fnc, all[i], #[trigger] resolved@[i]),
    {
        let ghost before = resolved@;
        let KeyValue { key, value } = entry;
        let found = match &key {
            MaybeIdReference::Reference(name) => fnc(name.as_str()),
            MaybeIdReference::Value(_) => None,
        };
        match found {
            Some(id) => {
                resolved.append(MaybeIdReference::Value(id), value);
            },
            None => {
                resolved.append(key, value);
            },
        }
        assert forall|i: int| 0 <= i < it.index() + 1 implies id_resolved(
            *fnc,
            all[i],
            #[trigger] resolved@[i],
        ) by {
            if i < it.index() {
                assert(resolved@[i] == before[i]);
            }
        }
    }
    resolved
}

/// The list of mailboxes that a list of ids stands for: each id, set.
pub open spec fn listed_mailboxes(ids: Seq<u64>) -> Seq<KeyValue<MaybeIdReference, bool>> {
    Seq::new(ids.len(), |i: int| KeyValue { key: MaybeIdReference::Value(ids[i]), value: true })
}

/// Whether `after` is what an entry of an email becomes once references to
/// earlier results are looked up with `fnc`: the mailboxes of the email,
/// given as a reference that `fnc` finds, become the mailboxes found; any
/// other entry stays.
pub open spec fn result_resolved<F: Fn(&ResultReference) -> Option<Vec<u64>>>(
    fnc: F,
    before: KeyValue<Property, Value>,
    after: KeyValue<Property, Value>,
) -> bool {
    match (before.key, before.value) {
        (Property::MailboxIds, Value::ResultReference { value: reference }) => (after.key
            == before.key && exists|ids: Vec<u64>|
            call_ensures(fnc, (&reference,), Some(ids)) && match after.value {
                Value::MailboxIds { value, set } => set && value@ == listed_mailboxes(ids@),
                _ => false,
            }) || (call_ensures(fnc, (&reference,), None) && after == before),
        _ => after == before,
    }
}

/// An email by its properties.
#[derive(Debug)]
pub struct Email {
    pub properties: VecMap<Property, Value>,
}

impl Email {
    /// A new email without properties.
    pub fn new() -> (email: Email)
        ensures
            email.properties@ == Seq::<KeyValue<Property, Value>>::empty(),
    {
        Email { properties: VecMap::new() }
    }

    /// Adds a property with its value.
    pub fn insert(&mut self, property: Property, value: Value)
        ensures
            final(self).properties@ == old(self).properties@.push(
                KeyValue { key: property, value },
            ),
    {
        self.properties.append(property, value);
    }

    /// Looks references to objects that an earlier call created up among
    /// the mailboxes of the email: those of the first entry for its
    /// mailboxes. Every other entry stays as it is.
    pub fn eval_id_references<F: Fn(&str) -> Option<JMAPId>>(&mut self, fnc: F)
        requires
            forall|name: &str| call_requires(fnc, (name,)),
        ensures
            final(self).properties@.len() == old(self).properties@.len(),
            forall|i: int|
                0 <= i < old(self).properties@.len() ==> (#[trigger] final(self).properties@[i]).key
                    == old(self).properties@[i].key,
            forall|i: int|
                0 <= i < old(self).properties@.len() ==> {
                    let before = old(self).properties@[i];
                    let after = #[trigger] final(self).properties@[i];
                    if before.key is MailboxIds && (forall|k: int|
                        0 <= k < i ==> !(old(self).properties@[k].key is MailboxIds)) {
                        match (before.value, after.value) {
                            (
                                Value::MailboxIds { value: old_ids, set: old_set },
                                Value::MailboxIds { value: new_ids, set: new_set },
                            ) => old_set == new_set && new_ids@.len() == old_ids@.len() && forall|
                                k: int,
                            |
                                0 <= k < old_ids@.len() ==> id_resolved(
                                    fnc,
                                    old_ids@[k],
                                    #[trigger] new_ids@[k],
                                ),
                            _ => after == before,
                        }
                    } else {
                        after == before
                    }
                },
    {
        let ghost all = self.properties@;
        let mut i: usize = 0;
        while i < self.properties.len()
            invariant
                i <= all.len(),
                self.properties@ == all,
                all == old(self).properties@,
                forall|name: &str| call_requires(fnc, (name,)),
                forall|k: int| 0 <= k < i ==> !((#[trigger] all[k]).key is MailboxIds),
            decreases all.len() - i,
        {
            let found = match &self.properties.entry(i).key {
                Property::MailboxIds => true,
                _ => false,
            };
            if found {
                let KeyValue { key, value } = self.properties.inner.remove(i);
                let value = match value {
                    Value::MailboxIds { value, set } => Value::MailboxIds {
                        value: resolve_ids(value, &fnc),
                        set,
                    },
                    other => other,
                };
                self.properties.inner.insert(i, KeyValue { key, value });
                assert forall|k: int| 0 <= k < all.len() && k != i implies (
                #[trigger] self.properties@[k]) == all[k] by {}
                return ;
            }
            i += 1;
        }
    }

    /// Looks references to earlier results up: the mailboxes of the email,
    /// where an entry gives them as a reference that `fnc` finds, become
    /// the mailboxes found. Every other entry stays as it is.
    pub fn eval_result_references<F: Fn(&ResultReference) -> Option<Vec<u64>>>(&mut self, fnc: F)
        requires
            forall|reference: &ResultReference| call_requires(fnc, (reference,)),
        ensures
            final(self).properties@.len() == old(self).properties@.len(),
            forall|i: int|
                0 <= i < old(self).properties@.len() ==> result_resolved(
                    fnc,
                    old(self).properties@[i],
                    #[trigger] final(self).properties@[i],
                ),
    {
        let mut entries: Vec<KeyValue<Property, Value>> = Vec::new();
        core::mem::swap(&mut self.properties.inner, &mut entries);
        let ghost all = entries@;
        for entry in it: entries
            invariant
                it.seq() == all,
                all == old(self).properties@,
                forall|reference: &ResultReference| call_requires(fnc, (reference,)),
                self.properties@.len() == it.index(),
                forall|i: int|
                    0 <= i < it.index() ==> result_resolved(
                        fnc,
                        all[i],
                        #[trigger] self.properties@[i],
                    ),
        {
            let ghost before = self.properties@;
            let KeyValue { key, value } = entry;
            let found = match (&key, &value) {
                (Property::MailboxIds, Value::ResultReference { value: reference }) => fnc(
                    reference,
                ),
                _ => None,
            };
            match found {
                Some(ids) => {
                    let mut mailboxes: VecMap<MaybeIdReference, bool> = VecMap::new();
                    let mut k: usize = 0;
                    while k < ids.len()
                        invariant
                            k <= ids@.len(),
                            mailboxes@ == listed_mailboxes(ids@.take(k as int)),
                        decreases ids@.len() - k,
                    {
                        mailboxes.append(MaybeIdReference::Value(ids[k]), true);
                        assert(mailboxes@ =~= listed_mailboxes(ids@.take(k + 1)));
                        k += 1;
                    }
                    assert(ids@.take(k as int) =~= ids@);
                    self.properties.append(key, Value::MailboxIds { value: mailboxes, set: true });
                },
                None => {
                    self.properties.append(key, value);
                },
            }
            assert forall|i: int| 0 <= i < it.index() + 1 implies result_resolved(
                fnc,
                all[i],
                #[trigger] self.properties@[i],
            ) by {
                if i < it.index() {
                    assert(self.properties@[i] == before[i]);
                }
            }
        }
    }
}

/// A condition that a query puts on emails.
#[derive(Clone, Debug)]
#[allow(inconsistent_fields)]
pub enum Filter {
    InMailbox { value: JMAPId },
    InMailboxOtherThan { value: Vec<JMAPId> },
    Before { value: JMAPDate },
    After { value: JMAPDate },
    MinSize { value: u32 },
    MaxSize { value: u32 },
    AllInThreadHaveKeyword { value: Keyword },
    SomeInThreadHaveKeyword { value: Keyword },
    NoneInThreadHaveKeyword { value: Keyword },
    HasKeyword { value: Keyword },
    NotKeyword { value: Keyword },
    HasAttachment { value: bool },
    Text { value: String },
    From { value: String },
    To { value: String },
    Cc { value: String },
    Bcc { value: String },
    Subject { value: String },
    Body { value: String },
    Header { value: Vec<String> },
    Unsupported { value: String },
    Id { value: Vec<JMAPId> },
    SentBefore { value: JMAPDate },
    SentAfter { value: JMAPDate },
    InThread { value: JMAPId },
}

/// What a query sorts emails by.
#[derive(Debug, Clone)]
pub enum Comparator {
    ReceivedAt,
    Size,
    From,
    To,
    Subject,
    SentAt,
    HasKeyword { keyword: Keyword },
    AllInThreadHaveKeyword { keyword: Keyword },
    SomeInThreadHaveKeyword { keyword: Keyword },
    Cc,
}

} // verus!

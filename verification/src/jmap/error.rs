//! Errors that a `set` method reports for one object.

use crate::jmap::types::JMAPId;
use vstd::prelude::*;

verus! {

/// Why an object could not be created, updated or destroyed.
#[derive(Debug, Clone, Copy, PartialEq, Eq, Structural)]
pub enum SetErrorType {
    Forbidden,
    OverQuota,
    TooLarge,
    RateLimit,
    NotFound,
    InvalidPatch,
    WillDestroy,
    InvalidProperties,
    Singleton,
    MailboxHasChild,
    MailboxHasEmail,
    BlobNotFound,
    TooManyKeywords,
    TooManyMailboxes,
    ForbiddenFrom,
    InvalidEmail,
    TooManyRecipients,
    NoRecipients,
    InvalidRecipients,
    ForbiddenMailFrom,
    ForbiddenToSend,
    CannotUnsend,
    AlreadyExists,
    InvalidScript,
    ScriptIsActive,
}

impl SetErrorType {
    /// The name of the error on the wire.
    pub open spec fn spec_name(&self) -> Seq<char> {
        match self {
            SetErrorType::Forbidden => "forbidden"@,
            SetErrorType::OverQuota => "overQuota"@,
            SetErrorType::TooLarge => "tooLarge"@,
            SetErrorType::RateLimit => "rateLimit"@,
            SetErrorType::NotFound => "notFound"@,
            SetErrorType::InvalidPatch => "invalidPatch"@,
            SetErrorType::WillDestroy => "willDestroy"@,
            SetErrorType::InvalidProperties => "invalidProperties"@,
            SetErrorType::Singleton => "singleton"@,
            SetErrorType::BlobNotFound => "blobNotFound"@,
            SetErrorType::MailboxHasChild => "mailboxHasChild"@,
            SetErrorType::MailboxHasEmail => "mailboxHasEmail"@,
            SetErrorType::TooManyKeywords => "tooManyKeywords"@,
            SetErrorType::TooManyMailboxes => "tooManyMailboxes"@,
            SetErrorType::ForbiddenFrom => "forbiddenFrom"@,
            SetErrorType::InvalidEmail => "invalidEmail"@,
            SetErrorType::TooManyRecipients => "tooManyRecipients"@,
            SetErrorType::NoRecipients => "noRecipients"@,
            SetErrorType::InvalidRecipients => "invalidRecipients"@,
            SetErrorType::ForbiddenMailFrom => "forbiddenMailFrom"@,
            SetErrorType::ForbiddenToSend => "forbiddenToSend"@,
            SetErrorType::CannotUnsend => "cannotUnsend"@,
            SetErrorType::AlreadyExists => "alreadyExists"@,
            SetErrorType::InvalidScript => "invalidScript"@,
            SetErrorType::ScriptIsActive => "scriptIsActive"@,
        }
    }

    pub fn as_str(&self) -> (name: &'static str)
        ensures
            name@ == self.spec_name(),
    {
        match self {
            SetErrorType::Forbidden => "forbidden",
            SetErrorType::OverQuota => "overQuota",
            SetErrorType::TooLarge => "tooLarge",
            SetErrorType::RateLimit => "rateLimit",
            SetErrorType::NotFound => "notFound",
            SetErrorType::InvalidPatch => "invalidPatch",
            SetErrorType::WillDestroy => "willDestroy",
            SetErrorType::InvalidProperties => "invalidProperties",
            SetErrorType::Singleton => "singleton",
            SetErrorType::BlobNotFound => "blobNotFound",
            SetErrorType::MailboxHasChild => "mailboxHasChild",
            SetErrorType::MailboxHasEmail => "mailboxHasEmail",
            SetErrorType::TooManyKeywords => "tooManyKeywords",
            SetErrorType::TooManyMailboxes => "tooManyMailboxes",
            SetErrorType::ForbiddenFrom => "forbiddenFrom",
            SetErrorType::InvalidEmail => "invalidEmail",
            SetErrorType::TooManyRecipients => "tooManyRecipients",
            SetErrorType::NoRecipients => "noRecipients",
            SetErrorType::InvalidRecipients => "invalidRecipients",
            SetErrorType::ForbiddenMailFrom => "forbiddenMailFrom",
            SetErrorType::ForbiddenToSend => "forbiddenToSend",
            SetErrorType::CannotUnsend => "cannotUnsend",
            SetErrorType::AlreadyExists => "alreadyExists",
            SetErrorType::InvalidScript => "invalidScript",
            SetErrorType::ScriptIsActive => "scriptIsActive",
        }
    }
}

/// An error of a `set` method, with the properties of type `U` that it
/// concerns.
#[derive(Debug, Clone)]
pub struct SetError<U> {
    pub type_: SetErrorType,
    pub description: Option<String>,
    pub properties: Option<Vec<U>>,
    pub existing_id: Option<JMAPId>,
}

impl<U> SetError<U> {
    pub fn new(type_: SetErrorType) -> (error: Self)
        ensures
            error.type_ == type_,
            error.description is None,
            error.properties is None,
            error.existing_id is None,
    {
        SetError { type_, description: None, properties: None, existing_id: None }
    }

    pub fn with_description(self, description: String) -> (error: Self)
        ensures
            error == (SetError { description: Some(description), ..self }),
    {
        let mut error = self;
        error.description = Some(description);
        error
    }

    pub fn with_property(self, property: U) -> (error: Self)
        ensures
            error.properties is Some,
            error.properties.unwrap()@ == seq![property],
            error.type_ == self.type_,
            error.description == self.description,
            error.existing_id == self.existing_id,
    {
        let mut error = self;
        let mut properties: Vec<U> = Vec::new();
        properties.push(property);
        error.properties = Some(properties);
        error
    }

    pub fn with_properties(self, properties: Vec<U>) -> (error: Self)
        ensures
            error == (SetError { properties: Some(properties), ..self }),
    {
        let mut error = self;
        error.properties = Some(properties);
        error
    }

    pub fn with_existing_id(self, id: JMAPId) -> (error: Self)
        ensures
            error == (SetError { existing_id: Some(id), ..self }),
    {
        let mut error = self;
        error.existing_id = Some(id);
        error
    }

    pub fn invalid_properties() -> (error: Self)
        ensures
            error.type_ == SetErrorType::InvalidProperties,
            error.description is None,
            error.properties is None,
            error.existing_id is None,
    {
        Self::new(SetErrorType::InvalidProperties)
    }

    pub fn forbidden() -> (error: Self)
        ensures
            error.type_ == SetErrorType::Forbidden,
            error.description is None,
            error.properties is None,
            error.existing_id is None,
    {
        Self::new(SetErrorType::Forbidden)
    }

    /// An object with the same content exists. It is reported as
    /// forbidden.
    pub fn already_exists() -> (error: Self)
        ensures
            error.type_ == SetErrorType::Forbidden,
            error.description is None,
            error.properties is None,
            error.existing_id is None,
    {
        Self::new(SetErrorType::Forbidden)
    }
}

/// Why a method call as a whole failed.
#[derive(Debug, Clone, PartialEq, Eq)]
pub enum MethodError {
    /// A reference to the result of an earlier call leads nowhere.
    InvalidResultReference(String),
}

impl View for MethodError {
    type V = Seq<char>;

    /// What the error says.
    open spec fn view(&self) -> Seq<char> {
        match self {
            MethodError::InvalidResultReference(description) => description@,
        }
    }
}

} // verus!

//! Capability identifiers.

use vstd::prelude::*;

verus! {

/// A capability of the protocol.
#[derive(Debug, Clone, Copy, Hash, PartialEq, Eq, Structural)]
pub enum URI {
    Core,
    Mail,
    Submission,
    VacationResponse,
    Contacts,
    Calendars,
    WebSocket,
    Sieve,
}

impl URI {
    /// The identifier under which the capability is announced.
    pub fn as_str(&self) -> (name: &'static str)
        ensures
            name@ == self.spec_name(),
    {
        match self {
            URI::Core => "urn:ietf:params:jmap:core",
            URI::Mail => "urn:ietf:params:jmap:mail",
            URI::Submission => "urn:ietf:params:jmap:submission",
            URI::VacationResponse => "urn:ietf:params:jmap:vacationresponse",
            URI::Contacts => "urn:ietf:params:jmap:contacts",
            URI::Calendars => "urn:ietf:params:jmap:calendars",
            URI::WebSocket => "urn:ietf:params:jmap:websocket",
            URI::Sieve => "urn:ietf:params:jmap:sieve",
        }
    }

    pub open spec fn spec_name(&self) -> Seq<char> {
        match self {
            URI::Core => "urn:ietf:params:jmap:core"@,
            URI::Mail => "urn:ietf:params:jmap:mail"@,
            URI::Submission => "urn:ietf:params:jmap:submission"@,
            URI::VacationResponse => "urn:ietf:params:jmap:vacationresponse"@,
            URI::Contacts => "urn:ietf:params:jmap:contacts"@,
            URI::Calendars => "urn:ietf:params:jmap:calendars"@,
            URI::WebSocket => "urn:ietf:params:jmap:websocket"@,
            URI::Sieve => "urn:ietf:params:jmap:sieve"@,
        }
    }
}

} // verus!

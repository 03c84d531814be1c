//! Snippets of the messages that a search found.

use crate::jmap::error::MethodError;
use crate::jmap::types::{JMAPId, MaybeResultReference, ResultReference};
use vstd::prelude::*;
use vstd::string::StringExecFns;

verus! {

/// A request for snippets of messages.
#[derive(Debug)]
pub struct SearchSnippetGetRequest {
    pub account_id: JMAPId,
    pub email_ids: MaybeResultReference<Vec<JMAPId>>,
}

/// The snippets of the messages that were found, and the ids of those that
/// were not.
#[derive(Debug, Clone)]
pub struct SearchSnippetGetResponse {
    pub account_id: JMAPId,
    pub list: Vec<SearchSnippet>,
    pub not_found: Option<Vec<JMAPId>>,
}

/// What of a message matched a search.
#[derive(Debug, Clone, PartialEq, Eq)]
pub struct SearchSnippet {
    pub email_id: JMAPId,
    pub subject: Option<String>,
    pub preview: Option<String>,
}

impl SearchSnippet {
    /// The snippet of a message of which nothing matched.
    pub fn empty(email_id: JMAPId) -> (snippet: SearchSnippet)
        ensures
            snippet == (SearchSnippet { email_id, subject: None, preview: None }),
    {
        SearchSnippet { email_id, subject: None, preview: None }
    }
}

impl SearchSnippetGetRequest {
    /// Puts the ids that a reference to an earlier result stands for in
    /// place of the reference. `fnc` looks a reference up; where it finds
    /// nothing the request cannot be answered.
    pub fn eval_result_references<F: Fn(&ResultReference) -> Option<Vec<u64>>>(
        &mut self,
        fnc: F,
    ) -> (result: Result<(), MethodError>)
        requires
            forall|reference: &ResultReference| call_requires(fnc, (reference,)),
        ensures
            final(self).account_id == old(self).account_id,
            match old(self).email_ids {
                MaybeResultReference::Value(_) => result is Ok && final(self).email_ids == old(
                    self,
                ).email_ids,
                MaybeResultReference::Reference(reference) => match result {
                    Ok(()) => match final(self).email_ids {
                        MaybeResultReference::Value(ids) => call_ensures(
                            fnc,
                            (&reference,),
                            Some(ids),
                        ),
                        MaybeResultReference::Reference(_) => false,
                    },
                    Err(error) => call_ensures(fnc, (&reference,), None) && final(self).email_ids
                        == old(self).email_ids && error@
                        == "Failed to evaluate #ids result reference."@,
                },
            },
    {
        let found = match &self.email_ids {
            MaybeResultReference::Reference(reference) => Some(fnc(reference)),
            MaybeResultReference::Value(_) => None,
        };
        match found {
            Some(Some(ids)) => {
                self.email_ids = MaybeResultReference::Value(ids);
                Ok(())
            },
            Some(None) => Err(
                MethodError::InvalidResultReference(
                    String::from_str("Failed to evaluate #ids result reference."),
                ),
            ),
            None => Ok(()),
        }
    }
}

} // verus!

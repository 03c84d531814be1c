//! The session object: the capabilities of the server and the accounts
//! that a user may use.

use crate::config::{setting, setting_text, setting_usize, EnvSettings, JMAPConfig};
use crate::jmap::types::{JMAPId, KeyValue, VecMap};
use crate::jmap::uri::URI;
use crate::text::{
    ascii_words, lemma_text_before_irreflexive, lemma_text_before_total,
    lemma_text_before_transitive, split_ascii_whitespace, str_eq, str_lt, strip_prefix,
    text_before, texts,
};
use vstd::prelude::*;
use vstd::string::StringExecFns;

verus! {

#[derive(Debug)]
pub struct CoreCapabilities {
    pub max_size_upload: usize,
    pub max_concurrent_upload: usize,
    pub max_size_request: usize,
    pub max_concurrent_requests: usize,
    pub max_calls_in_request: usize,
    pub max_objects_in_get: usize,
    pub max_objects_in_set: usize,
    pub collation_algorithms: Vec<String>,
}

pub ghost struct CoreCapabilitiesView {
    pub max_size_upload: usize,
    pub max_concurrent_upload: usize,
    pub max_size_request: usize,
    pub max_concurrent_requests: usize,
    pub max_calls_in_request: usize,
    pub max_objects_in_get: usize,
    pub max_objects_in_set: usize,
    pub collation_algorithms: Seq<Seq<char>>,
}

impl View for CoreCapabilities {
    type V = CoreCapabilitiesView;

    open spec fn view(&self) -> CoreCapabilitiesView {
        CoreCapabilitiesView {
            max_size_upload: self.max_size_upload,
            max_concurrent_upload: self.max_concurrent_upload,
            max_size_request: self.max_size_request,
            max_concurrent_requests: self.max_concurrent_requests,
            max_calls_in_request: self.max_calls_in_request,
            max_objects_in_get: self.max_objects_in_get,
            max_objects_in_set: self.max_objects_in_set,
            collation_algorithms: texts(self.collation_algorithms@),
        }
    }
}

#[derive(Debug)]
pub struct WebSocketCapabilities {
    pub url: String,
    pub supports_push: bool,
}

pub ghost struct WebSocketCapabilitiesView {
    pub url: Seq<char>,
    pub supports_push: bool,
}

impl View for WebSocketCapabilities {
    type V = WebSocketCapabilitiesView;

    open spec fn view(&self) -> WebSocketCapabilitiesView {
        WebSocketCapabilitiesView { url: self.url@, supports_push: self.supports_push }
    }
}

#[derive(Debug)]
pub struct SieveCapabilities {
    pub max_script_name: usize,
    pub max_script_size: usize,
    pub max_scripts: usize,
    pub max_redirects: usize,
    pub extensions: Vec<String>,
    pub notification_methods: Option<Vec<String>>,
    pub ext_lists: Option<Vec<String>>,
}

pub ghost struct SieveCapabilitiesView {
    pub max_script_name: usize,
    pub max_script_size: usize,
    pub max_scripts: usize,
    pub max_redirects: usize,
    pub extensions: Seq<Seq<char>>,
    pub notification_methods: Option<Seq<Seq<char>>>,
    pub ext_lists: Option<Seq<Seq<char>>>,
}

/// The texts of a list of strings that may be missing.
pub open spec fn optional_texts(strings: Option<Vec<String>>) -> Option<Seq<Seq<char>>> {
    match strings {
        Some(strings) => Some(texts(strings@)),
        None => None,
    }
}

impl View for SieveCapabilities {
    type V = SieveCapabilitiesView;

    open spec fn view(&self) -> SieveCapabilitiesView {
        SieveCapabilitiesView {
            max_script_name: self.max_script_name,
            max_script_size: self.max_script_size,
            max_scripts: self.max_scripts,
            max_redirects: self.max_redirects,
            extensions: texts(self.extensions@),
            notification_methods: optional_texts(self.notification_methods),
            ext_lists: optional_texts(self.ext_lists),
        }
    }
}

#[derive(Debug)]
pub struct MailCapabilities {
    pub max_mailboxes_per_email: Option<usize>,
    pub max_mailbox_depth: usize,
    pub max_size_mailbox_name: usize,
    pub max_size_attachments_per_email: usize,
    pub email_query_sort_options: Vec<String>,
    pub may_create_top_level_mailbox: bool,
}

pub ghost struct MailCapabilitiesView {
    pub max_mailboxes_per_email: Option<usize>,
    pub max_mailbox_depth: usize,
    pub max_size_mailbox_name: usize,
    pub max_size_attachments_per_email: usize,
    pub email_query_sort_options: Seq<Seq<char>>,
    pub may_create_top_level_mailbox: bool,
}

impl View for MailCapabilities {
    type V = MailCapabilitiesView;

    open spec fn view(&self) -> MailCapabilitiesView {
        MailCapabilitiesView {
            max_mailboxes_per_email: self.max_mailboxes_per_email,
            max_mailbox_depth: self.max_mailbox_depth,
            max_size_mailbox_name: self.max_size_mailbox_name,
            max_size_attachments_per_email: self.max_size_attachments_per_email,
            email_query_sort_options: texts(self.email_query_sort_options@),
            may_create_top_level_mailbox: self.may_create_top_level_mailbox,
        }
    }
}

#[derive(Debug)]
pub struct SubmissionCapabilities {
    pub max_delayed_send: usize,
    pub submission_extensions: Vec<String>,
}

pub ghost struct SubmissionCapabilitiesView {
    pub max_delayed_send: usize,
    pub submission_extensions: Seq<Seq<char>>,
}

impl View for SubmissionCapabilities {
    type V = SubmissionCapabilitiesView;

    open spec fn view(&self) -> SubmissionCapabilitiesView {
        SubmissionCapabilitiesView {
            max_delayed_send: self.max_delayed_send,
            submission_extensions: texts(self.submission_extensions@),
        }
    }
}

#[derive(Debug, Clone, Copy, PartialEq, Eq, Structural)]
pub struct VacationResponseCapabilities {}

/// What the server can do in one respect.
#[derive(Debug)]
pub enum Capabilities {
    Core(CoreCapabilities),
    Mail(MailCapabilities),
    Submission(SubmissionCapabilities),
    VacationResponse(VacationResponseCapabilities),
    WebSocket(WebSocketCapabilities),
    Sieve(SieveCapabilities),
}

pub ghost enum CapabilitiesView {
    Core(CoreCapabilitiesView),
    Mail(MailCapabilitiesView),
    Submission(SubmissionCapabilitiesView),
    VacationResponse(VacationResponseCapabilities),
    WebSocket(WebSocketCapabilitiesView),
    Sieve(SieveCapabilitiesView),
}

impl View for Capabilities {
    type V = CapabilitiesView;

    open spec fn view(&self) -> CapabilitiesView {
        match self {
            Capabilities::Core(c) => CapabilitiesView::Core(c@),
            Capabilities::Mail(c) => CapabilitiesView::Mail(c@),
            Capabilities::Submission(c) => CapabilitiesView::Submission(c@),
            Capabilities::VacationResponse(c) => CapabilitiesView::VacationResponse(*c),
            Capabilities::WebSocket(c) => CapabilitiesView::WebSocket(c@),
            Capabilities::Sieve(c) => CapabilitiesView::Sieve(c@),
        }
    }
}

/// A copy of a list of strings.
pub fn clone_strings(strings: &Vec<String>) -> (copy: Vec<String>)
    ensures
        texts(copy@) == texts(strings@),
{
    let mut copy: Vec<String> = Vec::new();
    let mut i: usize = 0;
    while i < strings.len()
        invariant
            i <= strings@.len(),
            texts(copy@) == texts(strings@.take(i as int)),
        decreases strings@.len() - i,
    {
        let ghost before = copy@;
        assert(texts(before).len() == texts(strings@.take(i as int)).len());
        copy.push(strings[i].clone());
        proof {
            let prefix = strings@.take(i + 1);
            let shorter = strings@.take(i as int);
            assert(copy@.len() == i + 1);
            assert forall|k: int| 0 <= k < i + 1 implies texts(copy@)[k] == texts(prefix)[k] by {
                assert(texts(copy@)[k] == copy@[k]@);
                assert(texts(prefix)[k] == prefix[k]@);
                if k < i {
                    assert(copy@[k] == before[k]);
                    assert(texts(before)[k] == before[k]@);
                    assert(texts(shorter)[k] == shorter[k]@);
                    assert(shorter[k] == prefix[k]);
                }
            }
            assert(texts(copy@) =~= texts(prefix));
        }
        i += 1;
    }
    assert(strings@.take(i as int) =~= strings@);
    copy
}

fn clone_optional_strings(strings: &Option<Vec<String>>) -> (copy: Option<Vec<String>>)
    ensures
        optional_texts(copy) == optional_texts(*strings),
{
    match strings {
        Some(strings) => Some(clone_strings(strings)),
        None => None,
    }
}

impl Capabilities {
    /// A copy of the capabilities.
    pub fn duplicate(&self) -> (copy: Capabilities)
        ensures
            copy@ == self@,
    {
        match self {
            Capabilities::Core(c) => Capabilities::Core(
                CoreCapabilities {
                    max_size_upload: c.max_size_upload,
                    max_concurrent_upload: c.max_concurrent_upload,
                    max_size_request: c.max_size_request,
                    max_concurrent_requests: c.max_concurrent_requests,
                    max_calls_in_request: c.max_calls_in_request,
                    max_objects_in_get: c.max_objects_in_get,
                    max_objects_in_set: c.max_objects_in_set,
                    collation_algorithms: clone_strings(&c.collation_algorithms),
                },
            ),
            Capabilities::Mail(c) => Capabilities::Mail(
                MailCapabilities {
                    max_mailboxes_per_email: c.max_mailboxes_per_email,
                    max_mailbox_depth: c.max_mailbox_depth,
                    max_size_mailbox_name: c.max_size_mailbox_name,
                    max_size_attachments_per_email: c.max_size_attachments_per_email,
                    email_query_sort_options: clone_strings(&c.email_query_sort_options),
                    may_create_top_level_mailbox: c.may_create_top_level_mailbox,
                },
            ),
            Capabilities::Submission(c) => Capabilities::Submission(
                SubmissionCapabilities {
                    max_delayed_send: c.max_delayed_send,
                    submission_extensions: clone_strings(&c.submission_extensions),
                },
            ),
            Capabilities::VacationResponse(c) => Capabilities::VacationResponse(*c),
            Capabilities::WebSocket(c) => Capabilities::WebSocket(
                WebSocketCapabilities { url: c.url.clone(), supports_push: c.supports_push },
            ),
            Capabilities::Sieve(c) => Capabilities::Sieve(
                SieveCapabilities {
                    max_script_name: c.max_script_name,
                    max_script_size: c.max_script_size,
                    max_scripts: c.max_scripts,
                    max_redirects: c.max_redirects,
                    extensions: clone_strings(&c.extensions),
                    notification_methods: clone_optional_strings(&c.notification_methods),
                    ext_lists: clone_optional_strings(&c.ext_lists),
                },
            ),
        }
    }
}

impl CoreCapabilities {
    /// The core capabilities of a server with the limits of `config`.
    pub open spec fn spec_new(config: &JMAPConfig) -> CoreCapabilitiesView {
        CoreCapabilitiesView {
            max_size_upload: config.max_size_upload,
            max_concurrent_upload: config.max_concurrent_uploads,
            max_size_request: config.max_size_request,
            max_concurrent_requests: config.max_concurrent_requests,
            max_calls_in_request: config.max_calls_in_request,
            max_objects_in_get: config.max_objects_in_get,
            max_objects_in_set: config.max_objects_in_set,
            collation_algorithms: seq![
                "i;ascii-numeric"@,
                "i;ascii-casemap"@,
                "i;unicode-casemap"@,
            ],
        }
    }

    pub fn new(config: &JMAPConfig) -> (capabilities: CoreCapabilities)
        ensures
            capabilities@ == CoreCapabilities::spec_new(config),
    {
        let mut collation_algorithms: Vec<String> = Vec::new();
        collation_algorithms.push(String::from_str("i;ascii-numeric"));
        collation_algorithms.push(String::from_str("i;ascii-casemap"));
        collation_algorithms.push(String::from_str("i;unicode-casemap"));
        assert(texts(collation_algorithms@) =~= seq![
            "i;ascii-numeric"@,
            "i;ascii-casemap"@,
            "i;unicode-casemap"@,
        ]);
        CoreCapabilities {
            max_size_upload: config.max_size_upload,
            max_concurrent_upload: config.max_concurrent_uploads,
            max_size_request: config.max_size_request,
            max_concurrent_requests: config.max_concurrent_requests,
            max_calls_in_request: config.max_calls_in_request,
            max_objects_in_get: config.max_objects_in_get,
            max_objects_in_set: config.max_objects_in_set,
            collation_algorithms,
        }
    }
}

impl WebSocketCapabilities {
    /// The capabilities of the web socket of a server at `base_url`, which
    /// starts with `http`: its address is that of the server with `ws` in
    /// place of `http`.
    pub fn new(base_url: &str) -> (capabilities: WebSocketCapabilities)
        requires
            "http"@.is_prefix_of(base_url@),
        ensures
            capabilities.supports_push,
            capabilities.url@ == "ws"@ + base_url@.skip("http"@.len() as int) + "/jmap/ws"@,
    {
        let rest = match strip_prefix(base_url, "http") {
            Some(rest) => rest,
            None => vstd::pervasive::unreached(),
        };
        assert(rest@ =~= base_url@.skip("http"@.len() as int));
        let mut url = String::from_str("ws");
        url.append(rest);
        url.append("/jmap/ws");
        WebSocketCapabilities { url, supports_push: true }
    }
}

/// Whether each text of a list comes before those that follow it, so that
/// the list is in order and holds no text twice.
pub open spec fn increasing(list: Seq<Seq<char>>) -> bool {
    forall|i: int, j: int| 0 <= i < j < list.len() ==> text_before(list[i], list[j])
}

/// Whether `offered` is the list of extensions that a script engine with
/// the extensions `all` offers when the words of `disabled` are switched
/// off: the names of `all` that are no such word, each once, in order.
pub open spec fn offers(offered: Seq<Seq<char>>, all: Seq<Seq<char>>, disabled: Seq<char>) -> bool {
    &&& increasing(offered)
    &&& forall|name: Seq<char>|
        offered.contains(name) <==> all.contains(name) && !ascii_words(disabled).contains(name)
}

/// Two lists in order that hold the same texts are the same list.
pub proof fn lemma_increasing_unique(a: Seq<Seq<char>>, b: Seq<Seq<char>>)
    requires
        increasing(a),
        increasing(b),
        forall|name: Seq<char>| a.contains(name) <==> b.contains(name),
    ensures
        a == b,
    decreases a.len(),
{
    if a.len() == 0 {
        if b.len() > 0 {
            assert(b.contains(b[0]));
        }
        assert(a =~= b);
    } else if b.len() == 0 {
        assert(a.contains(a[0]));
    } else {
        assert(a.contains(a[0]));
        assert(b.contains(b[0]));
        let i = choose|i: int| 0 <= i < b.len() && b[i] == a[0];
        let j = choose|j: int| 0 <= j < a.len() && a[j] == b[0];
        if i > 0 {
            assert(text_before(b[0], b[i]));
            if j > 0 {
                assert(text_before(a[0], a[j]));
                lemma_text_before_transitive(a[0], b[0], a[0]);
            }
            lemma_text_before_irreflexive(a[0]);
        }
        assert(a[0] == b[0]);
        let a_rest = a.drop_first();
        let b_rest = b.drop_first();
        assert forall|name: Seq<char>| a_rest.contains(name) <==> b_rest.contains(name) by {
            lemma_text_before_irreflexive(a[0]);
            if a_rest.contains(name) {
                let k = choose|k: int| 0 <= k < a_rest.len() && a_rest[k] == name;
                assert(a[k + 1] == name);
                assert(text_before(a[0], a[k + 1]));
                assert(a.contains(name));
                let m = choose|m: int| 0 <= m < b.len() && b[m] == name;
                assert(m > 0);
                assert(b_rest[m - 1] == name);
            }
            if b_rest.contains(name) {
                let k = choose|k: int| 0 <= k < b_rest.len() && b_rest[k] == name;
                assert(b[k + 1] == name);
                assert(text_before(b[0], b[k + 1]));
                assert(b.contains(name));
                let m = choose|m: int| 0 <= m < a.len() && a[m] == name;
                assert(m > 0);
                assert(a_rest[m - 1] == name);
            }
        }
        assert(increasing(a_rest)) by {
            assert forall|i: int, j: int| 0 <= i < j < a_rest.len() implies text_before(
                a_rest[i],
                a_rest[j],
            ) by {
                assert(text_before(a[i + 1], a[j + 1]));
            }
        }
        assert(increasing(b_rest)) by {
            assert forall|i: int, j: int| 0 <= i < j < b_rest.len() implies text_before(
                b_rest[i],
                b_rest[j],
            ) by {
                assert(text_before(b[i + 1], b[j + 1]));
            }
        }
        lemma_increasing_unique(a_rest, b_rest);
        assert(a =~= seq![a[0]] + a_rest);
        assert(b =~= seq![b[0]] + b_rest);
    }
}

/// Tells whether a list holds a text.
fn holds_text(list: &Vec<String>, text: &str) -> (held: bool)
    ensures
        held == texts(list@).contains(text@),
{
    let mut i: usize = 0;
    while i < list.len()
        invariant
            i <= list@.len(),
            forall|k: int| 0 <= k < i ==> texts(list@)[k] != text@,
        decreases list@.len() - i,
    {
        if str_eq(list[i].as_str(), text) {
            assert(texts(list@)[i as int] == text@);
            return true;
        }
        i += 1;
    }
    false
}

/// Puts a text into a list in order, at its place, unless the list holds
/// it already.
fn insert_in_order(list: &mut Vec<String>, text: String)
    requires
        increasing(texts(old(list)@)),
    ensures
        increasing(texts(final(list)@)),
        forall|name: Seq<char>|
            texts(final(list)@).contains(name) <==> texts(old(list)@).contains(name) || name
                == text@,
{
    let ghost before = texts(list@);
    let mut at: usize = 0;
    while at < list.len() && str_lt(list[at].as_str(), text.as_str())
        invariant
            at <= list@.len(),
            *list == *old(list),
            before == texts(list@),
            forall|k: int| 0 <= k < at ==> text_before(before[k], text@),
        decreases list@.len() - at,
    {
        at += 1;
    }
    if at < list.len() && str_eq(list[at].as_str(), text.as_str()) {
        assert(before[at as int] == text@);
        return ;
    }
    let ghost new_text = text@;
    list.insert(at, text);
    proof {
        let after = texts(list@);
        assert(after =~= before.insert(at as int, new_text));
        if at < before.len() {
            lemma_text_before_total(before[at as int], new_text);
            assert(text_before(new_text, before[at as int]));
        }
        assert forall|i: int, j: int| 0 <= i < j < after.len() implies text_before(
            after[i],
            after[j],
        ) by {
            if j < at {
                assert(text_before(before[i], before[j]));
            } else if j == at {
            } else if i < at {
                assert(text_before(before[i], before[j - 1]));
            } else if i == at {
                if j - 1 > at {
                    assert(text_before(before[at as int], before[j - 1]));
                    lemma_text_before_transitive(new_text, before[at as int], before[j - 1]);
                }
            } else {
                assert(text_before(before[i - 1], before[j - 1]));
            }
        }
        assert forall|name: Seq<char>|
            after.contains(name) <==> before.contains(name) || name == new_text by {
            if after.contains(name) {
                let k = choose|k: int| 0 <= k < after.len() && after[k] == name;
                if k < at {
                    assert(before[k] == name);
                } else if k > at {
                    assert(before[k - 1] == name);
                }
            }
            if before.contains(name) {
                let k = choose|k: int| 0 <= k < before.len() && before[k] == name;
                if k < at {
                    assert(after[k] == name);
                } else {
                    assert(after[k + 1] == name);
                }
            }
            if name == new_text {
                assert(after[at as int] == name);
            }
        }
    }
}

/// The extensions that a script engine with the extensions `all` offers
/// when the words of `disabled` are switched off: the names of `all` that
/// are no word of `disabled`, each once, in order.
pub fn sieve_extensions(all: Vec<String>, disabled: &str) -> (extensions: Vec<String>)
    ensures
        offers(texts(extensions@), texts(all@), disabled@),
{
    let off = split_ascii_whitespace(disabled);
    let mut all = all;
    let ghost names = texts(all@);
    let mut extensions: Vec<String> = Vec::new();
    assert(texts(extensions@) =~= Seq::<Seq<char>>::empty());
    while all.len() > 0
        invariant
            texts(off@) == ascii_words(disabled@),
            all@.len() <= names.len(),
            texts(all@) == names.take(all@.len() as int),
            increasing(texts(extensions@)),
            forall|name: Seq<char>|
                texts(extensions@).contains(name) <==> names.skip(all@.len() as int).contains(name)
                    && !ascii_words(disabled@).contains(name),
        decreases all@.len(),
    {
        let ghost held = texts(extensions@);
        let ghost left = all@.len() as int;
        let text = match all.pop() {
            Some(text) => text,
            None => vstd::pervasive::unreached(),
        };
        proof {
            assert(text@ == names.take(left)[left - 1]);
            assert(texts(all@) =~= names.take(left - 1));
            assert(names.skip(left - 1) =~= seq![text@] + names.skip(left));
        }
        let skipped = holds_text(&off, text.as_str());
        let ghost word = text@;
        if !skipped {
            insert_in_order(&mut extensions, text);
        }
        proof {
            let now = texts(extensions@);
            let rest = names.skip(left);
            let more = names.skip(left - 1);
            assert forall|name: Seq<char>|
                now.contains(name) <==> more.contains(name) && !ascii_words(disabled@).contains(
                    name,
                ) by {
                if more.contains(name) {
                    let k = choose|k: int| 0 <= k < more.len() && more[k] == name;
                    if k > 0 {
                        assert(rest[k - 1] == name);
                    }
                }
                if rest.contains(name) {
                    let k = choose|k: int| 0 <= k < rest.len() && rest[k] == name;
                    assert(more[k + 1] == name);
                }
                assert(more[0] == word);
            }
        }
    }
    assert(names.skip(0) =~= names);
    extensions
}

impl SieveCapabilities {
    /// The capabilities of a script engine that has the extensions `all`.
    /// It offers those of them that the setting
    /// `sieve-disable-capabilities` does not name, each once, in order. The
    /// ways of notification are the words of the setting
    /// `sieve-notification-uris`, which is `mailto` by default.
    pub fn new(settings: &EnvSettings, config: &JMAPConfig, all: Vec<String>) -> (capabilities:
        SieveCapabilities)
        ensures
            offers(
                capabilities@.extensions,
                texts(all@),
                setting_text(settings.args@, "sieve-disable-capabilities"@, ""@),
            ),
            capabilities@ == (SieveCapabilitiesView {
                max_script_name: config.sieve_max_script_name,
                max_script_size: setting_usize(
                    settings.args@,
                    "sieve-max-script-size"@,
                    1048576,
                ),
                max_scripts: config.sieve_max_scripts,
                max_redirects: setting_usize(settings.args@, "sieve-max-redirects"@, 1),
                extensions: capabilities@.extensions,
                notification_methods: if ascii_words(
                    setting_text(settings.args@, "sieve-notification-uris"@, "mailto"@),
                ).len() > 0 {
                    Some(
                        ascii_words(
                            setting_text(settings.args@, "sieve-notification-uris"@, "mailto"@),
                        ),
                    )
                } else {
                    None
                },
                ext_lists: None,
            }),
    {
        let uris = settings.get_or("sieve-notification-uris", "mailto");
        let notification_methods = split_ascii_whitespace(uris.as_str());
        let disabled = settings.get_or("sieve-disable-capabilities", "");
        let extensions = sieve_extensions(all, disabled.as_str());
        SieveCapabilities {
            max_script_name: config.sieve_max_script_name,
            max_script_size: settings.parse_usize("sieve-max-script-size", 1024 * 1024),
            max_scripts: config.sieve_max_scripts,
            max_redirects: settings.parse_usize("sieve-max-redirects", 1),
            extensions,
            notification_methods: if notification_methods.len() > 0 {
                Some(notification_methods)
            } else {
                None
            },
            ext_lists: None,
        }
    }
}

impl MailCapabilities {
    /// The mail capabilities of a server with the limits of `config`.
    pub open spec fn spec_new(config: &JMAPConfig) -> MailCapabilitiesView {
        MailCapabilitiesView {
            max_mailboxes_per_email: None,
            max_mailbox_depth: config.mailbox_max_depth,
            max_size_mailbox_name: config.mailbox_name_max_len,
            max_size_attachments_per_email: config.mail_attachments_max_size,
            email_query_sort_options: seq![
                "receivedAt"@,
                "size"@,
                "from"@,
                "to"@,
                "subject"@,
                "sentAt"@,
                "hasKeyword"@,
                "allInThreadHaveKeyword"@,
                "someInThreadHaveKeyword"@,
            ],
            may_create_top_level_mailbox: true,
        }
    }

    pub fn new(config: &JMAPConfig) -> (capabilities: MailCapabilities)
        ensures
            capabilities@ == MailCapabilities::spec_new(config),
    {
        let mut options: Vec<String> = Vec::new();
        options.push(String::from_str("receivedAt"));
        options.push(String::from_str("size"));
        options.push(String::from_str("from"));
        options.push(String::from_str("to"));
        options.push(String::from_str("subject"));
        options.push(String::from_str("sentAt"));
        options.push(String::from_str("hasKeyword"));
        options.push(String::from_str("allInThreadHaveKeyword"));
        options.push(String::from_str("someInThreadHaveKeyword"));
        assert(texts(options@) =~= seq![
            "receivedAt"@,
            "size"@,
            "from"@,
            "to"@,
            "subject"@,
            "sentAt"@,
            "hasKeyword"@,
            "allInThreadHaveKeyword"@,
            "someInThreadHaveKeyword"@,
        ]);
        MailCapabilities {
            max_mailboxes_per_email: None,
            max_mailbox_depth: config.mailbox_max_depth,
            max_size_mailbox_name: config.mailbox_name_max_len,
            max_size_attachments_per_email: config.mail_attachments_max_size,
            email_query_sort_options: options,
            may_create_top_level_mailbox: true,
        }
    }
}

/// The capabilities by their identifiers, in order.
pub open spec fn capabilities_view(
    capabilities: Seq<KeyValue<URI, Capabilities>>,
) -> Seq<(URI, CapabilitiesView)> {
    Seq::new(capabilities.len(), |i: int| (capabilities[i].key, capabilities[i].value@))
}

/// The place of the first entry for a capability.
pub open spec fn capability_slot(capabilities: Seq<KeyValue<URI, Capabilities>>, uri: URI) -> Option<
    int,
>
    decreases capabilities.len(),
{
    if capabilities.len() == 0 {
        None
    } else {
        match capability_slot(capabilities.drop_last(), uri) {
            Some(slot) => Some(slot),
            None => if capabilities.last().key == uri {
                Some(capabilities.len() - 1)
            } else {
                None
            },
        }
    }
}

proof fn lemma_capability_slot(capabilities: Seq<KeyValue<URI, Capabilities>>, uri: URI)
    ensures
        match capability_slot(capabilities, uri) {
            Some(slot) => 0 <= slot < capabilities.len() && capabilities[slot].key == uri
                && forall|k: int| 0 <= k < slot ==> (#[trigger] capabilities[k]).key != uri,
            None => forall|k: int|
                0 <= k < capabilities.len() ==> (#[trigger] capabilities[k]).key != uri,
        },
    decreases capabilities.len(),
{
    if capabilities.len() > 0 {
        let front = capabilities.drop_last();
        lemma_capability_slot(front, uri);
        match capability_slot(front, uri) {
            Some(slot) => {
                assert(front[slot] == capabilities[slot]);
                assert forall|k: int| 0 <= k < slot implies (#[trigger] capabilities[k]).key
                    != uri by {
                    assert(front[k] == capabilities[k]);
                }
            },
            None => {
                assert forall|k: int| 0 <= k < capabilities.len() - 1 implies (
                #[trigger] capabilities[k]).key != uri by {
                    assert(front[k] == capabilities[k]);
                }
            },
        }
    }
}

/// The first capabilities listed for an identifier.
pub fn get_capability<'a>(capabilities: &'a VecMap<URI, Capabilities>, uri: URI) -> (found: Option<
    &'a Capabilities,
>)
    ensures
        match capability_slot(capabilities@, uri) {
            Some(slot) => 0 <= slot < capabilities@.len() && found == Some(
                &capabilities@[slot].value,
            ),
            None => found is None,
        },
{
    proof {
        lemma_capability_slot(capabilities@, uri);
    }
    let mut i: usize = 0;
    while i < capabilities.len()
        invariant
            i <= capabilities@.len(),
            forall|k: int| 0 <= k < i ==> (#[trigger] capabilities@[k]).key != uri,
        decreases capabilities@.len() - i,
    {
        let entry = capabilities.entry(i);
        if entry.key == uri {
            proof {
                lemma_capability_slot(capabilities@, uri);
            }
            return Some(&entry.value);
        }
        i += 1;
    }
    proof {
        lemma_capability_slot(capabilities@, uri);
    }
    None
}

/// The capabilities that a list of identifiers picks out of those of the
/// server, in the order of the list.
pub open spec fn picked(
    core_capabilities: Seq<KeyValue<URI, Capabilities>>,
    uris: Seq<URI>,
) -> Seq<(URI, CapabilitiesView)> {
    Seq::new(
        uris.len(),
        |i: int|
            (uris[i], core_capabilities[capability_slot(core_capabilities, uris[i]).unwrap()].value@),
    )
}

/// An account that a user may use.
#[derive(Debug)]
pub struct Account {
    pub name: String,
    pub is_personal: bool,
    pub is_read_only: bool,
    pub account_capabilities: VecMap<URI, Capabilities>,
}

impl Account {
    pub fn new(name: String, is_personal: bool, is_read_only: bool) -> (account: Account)
        ensures
            account.name == name,
            account.is_personal == is_personal,
            account.is_read_only == is_read_only,
            account.account_capabilities@ == Seq::<KeyValue<URI, Capabilities>>::empty(),
    {
        Account { name, is_personal, is_read_only, account_capabilities: VecMap::new() }
    }

    /// Gives the account capabilities of the server: those that the list
    /// names, each of which the server must have, after the ones that the
    /// account has; or, without a list, all of them in place of the ones
    /// that the account has.
    pub fn add_capabilities(
        self,
        capabilities: Option<&[URI]>,
        core_capabilities: &VecMap<URI, Capabilities>,
    ) -> (account: Account)
        requires
            capabilities is Some ==> forall|i: int|
                0 <= i < capabilities.unwrap()@.len() ==> capability_slot(
                    core_capabilities@,
                    #[trigger] capabilities.unwrap()@[i],
                ) is Some,
        ensures
            account.name == self.name,
            account.is_personal == self.is_personal,
            account.is_read_only == self.is_read_only,
            capabilities_view(account.account_capabilities@) == match capabilities {
                Some(uris) => capabilities_view(self.account_capabilities@) + picked(
                    core_capabilities@,
                    uris@,
                ),
                None => capabilities_view(core_capabilities@),
            },
    {
        let mut account = self;
        match capabilities {
            Some(uris) => {
                let ghost start = capabilities_view(account.account_capabilities@);
                let mut i: usize = 0;
                while i < uris.len()
                    invariant
                        i <= uris@.len(),
                        account.name == self.name,
                        account.is_personal == self.is_personal,
                        account.is_read_only == self.is_read_only,
                        start == capabilities_view(self.account_capabilities@),
                        forall|k: int|
                            0 <= k < uris@.len() ==> capability_slot(
                                core_capabilities@,
                                #[trigger] uris@[k],
                            ) is Some,
                        capabilities_view(account.account_capabilities@) == start + picked(
                            core_capabilities@,
                            uris@.take(i as int),
                        ),
                    decreases uris@.len() - i,
                {
                    let uri = uris[i];
                    let copy = match get_capability(core_capabilities, uri) {
                        Some(found) => found.duplicate(),
                        None => vstd::pervasive::unreached(),
                    };
                    let ghost before = capabilities_view(account.account_capabilities@);
                    account.account_capabilities.append(uri, copy);
                    proof {
                        let after = capabilities_view(account.account_capabilities@);
                        let wanted = start + picked(core_capabilities@, uris@.take(i + 1));
                        assert(before.len() == start.len() + i);
                        assert(after.len() == wanted.len());
                        assert forall|k: int| 0 <= k < after.len() implies after[k]
                            == wanted[k] by {
                            if k < before.len() {
                                assert(after[k] == before[k]);
                                assert(before[k] == (start + picked(
                                    core_capabilities@,
                                    uris@.take(i as int),
                                ))[k]);
                            }
                        }
                        assert(after =~= wanted);
                    }
                    i += 1;
                }
                assert(uris@.take(i as int) =~= uris@);
            },
            None => {
                let mut copies: VecMap<URI, Capabilities> = VecMap::new();
                let mut i: usize = 0;
                while i < core_capabilities.len()
                    invariant
                        i <= core_capabilities@.len(),
                        capabilities_view(copies@) == capabilities_view(
                            core_capabilities@.take(i as int),
                        ),
                    decreases core_capabilities@.len() - i,
                {
                    let entry = core_capabilities.entry(i);
                    let ghost before = capabilities_view(copies@);
                    copies.append(entry.key, entry.value.duplicate());
                    proof {
                        let after = capabilities_view(copies@);
                        let wanted = capabilities_view(core_capabilities@.take(i + 1));
                        assert forall|k: int| 0 <= k < after.len() implies after[k]
                            == wanted[k] by {
                            if k < before.len() {
                                assert(after[k] == before[k]);
                                assert(before[k] == capabilities_view(
                                    core_capabilities@.take(i as int),
                                )[k]);
                            }
                        }
                        assert(after =~= wanted);
                    }
                    i += 1;
                }
                assert(core_capabilities@.take(i as int) =~= core_capabilities@);
                account.account_capabilities = copies;
            },
        }
        account
    }
}

pub ghost struct AccountView {
    pub name: Seq<char>,
    pub is_personal: bool,
    pub is_read_only: bool,
    pub account_capabilities: Seq<(URI, CapabilitiesView)>,
}

impl View for Account {
    type V = AccountView;

    open spec fn view(&self) -> AccountView {
        AccountView {
            name: self.name@,
            is_personal: self.is_personal,
            is_read_only: self.is_read_only,
            account_capabilities: capabilities_view(self.account_capabilities@),
        }
    }
}

/// The accounts by their ids, in order.
pub open spec fn accounts_view(accounts: Seq<KeyValue<JMAPId, Account>>) -> Seq<(JMAPId, AccountView)> {
    Seq::new(accounts.len(), |i: int| (accounts[i].key, accounts[i].value@))
}

/// The place of the first account with an id.
pub open spec fn account_place(accounts: Seq<(JMAPId, AccountView)>, account_id: JMAPId) -> Option<
    int,
>
    decreases accounts.len(),
{
    if accounts.len() == 0 {
        None
    } else {
        match account_place(accounts.drop_last(), account_id) {
            Some(place) => Some(place),
            None => if accounts.last().0 == account_id {
                Some(accounts.len() - 1)
            } else {
                None
            },
        }
    }
}

/// The accounts after one was set: it takes the place of the first account
/// with its id, or the end of the list where there is none.
pub open spec fn with_account(
    accounts: Seq<(JMAPId, AccountView)>,
    account_id: JMAPId,
    account: AccountView,
) -> Seq<(JMAPId, AccountView)> {
    match account_place(accounts, account_id) {
        Some(place) => accounts.update(place, (account_id, account)),
        None => accounts.push((account_id, account)),
    }
}

proof fn lemma_account_place(accounts: Seq<(JMAPId, AccountView)>, account_id: JMAPId)
    ensures
        match account_place(accounts, account_id) {
            Some(place) => 0 <= place < accounts.len() && accounts[place].0 == account_id
                && forall|k: int| 0 <= k < place ==> (#[trigger] accounts[k]).0 != account_id,
            None => forall|k: int| 0 <= k < accounts.len() ==> (#[trigger] accounts[k]).0
                != account_id,
        },
    decreases accounts.len(),
{
    if accounts.len() > 0 {
        let front = accounts.drop_last();
        lemma_account_place(front, account_id);
        match account_place(front, account_id) {
            Some(place) => {
                assert(front[place] == accounts[place]);
                assert forall|k: int| 0 <= k < place implies (#[trigger] accounts[k]).0
                    != account_id by {
                    assert(front[k] == accounts[k]);
                }
            },
            None => {
                assert forall|k: int| 0 <= k < accounts.len() - 1 implies (
                #[trigger] accounts[k]).0 != account_id by {
                    assert(front[k] == accounts[k]);
                }
            },
        }
    }
}

/// Sets an account of a list.
pub fn set_account(accounts: &mut VecMap<JMAPId, Account>, account_id: JMAPId, account: Account)
    ensures
        accounts_view(final(accounts)@) == with_account(
            accounts_view(old(accounts)@),
            account_id,
            account@,
        ),
{
    let ghost before = accounts_view(accounts@);
    let mut i: usize = 0;
    while i < accounts.len()
        invariant
            i <= accounts@.len(),
            accounts@ == old(accounts)@,
            before == accounts_view(accounts@),
            forall|k: int| 0 <= k < i ==> (#[trigger] before[k]).0 != account_id,
        decreases accounts@.len() - i,
    {
        if accounts.entry(i).key == account_id {
            proof {
                lemma_account_place(before, account_id);
                assert(before[i as int].0 == account_id);
            }
            accounts.inner.set(i, KeyValue { key: account_id, value: account });
            assert(accounts_view(accounts@) =~= before.update(i as int, (account_id, account@)));
            return ;
        }
        assert(before[i as int].0 == accounts@[i as int].key);
        i += 1;
    }
    proof {
        lemma_account_place(before, account_id);
    }
    accounts.append(account_id, account);
    assert(accounts_view(accounts@) =~= before.push((account_id, account@)));
}

/// The identifiers of a list of capabilities, in order.
pub open spec fn capability_uris(capabilities: Seq<KeyValue<URI, Capabilities>>) -> Seq<URI> {
    Seq::new(capabilities.len(), |i: int| capabilities[i].key)
}

/// Each identifier of a list with an account as its primary account.
pub open spec fn primaries(uris: Seq<URI>, account_id: JMAPId) -> Seq<KeyValue<URI, JMAPId>> {
    Seq::new(uris.len(), |i: int| KeyValue { key: uris[i], value: account_id })
}

/// What a server tells a client at the start: what it can do, where to
/// reach it, and which accounts the user may use.
#[derive(Debug)]
pub struct Session {
    pub capabilities: VecMap<URI, Capabilities>,
    pub accounts: VecMap<JMAPId, Account>,
    pub primary_accounts: VecMap<URI, JMAPId>,
    pub username: String,
    pub api_url: String,
    pub download_url: String,
    pub upload_url: String,
    pub event_source_url: String,
    pub state: u32,
    pub base_url: String,
}

impl Session {
    /// The session of a server before any user is known. The address of
    /// the server is the setting `jmap-url`, which must be there and start
    /// with `http`. `sieve_all` names the extensions that the script engine
    /// has.
    pub fn new(settings: &EnvSettings, config: &JMAPConfig, sieve_all: Vec<String>) -> (session:
        Session)
        requires
            setting(settings.args@, "jmap-url"@) is Some,
            "http"@.is_prefix_of(setting(settings.args@, "jmap-url"@).unwrap()),
        ensures
            session.base_url@ == setting(settings.args@, "jmap-url"@).unwrap(),
            session.api_url@ == session.base_url@ + "/jmap/"@,
            session.download_url@ == session.base_url@
                + "/jmap/download/{accountId}/{blobId}/{name}?accept={type}"@,
            session.upload_url@ == session.base_url@ + "/jmap/upload/{accountId}/"@,
            session.event_source_url@ == session.base_url@
                + "/jmap/eventsource/?types={types}&closeafter={closeafter}&ping={ping}"@,
            session.username@ == ""@,
            session.state == 0,
            session.accounts@.len() == 0,
            session.primary_accounts@.len() == 0,
            capability_uris(session.capabilities@) == seq![
                URI::Core,
                URI::Mail,
                URI::WebSocket,
                URI::Sieve,
            ],
            session.capabilities@[0].value@ == CapabilitiesView::Core(CoreCapabilities::spec_new(config)),
            session.capabilities@[1].value@ == CapabilitiesView::Mail(MailCapabilities::spec_new(config)),
            session.capabilities@[3].value@ is Sieve,
            offers(
                session.capabilities@[3].value@->Sieve_0.extensions,
                texts(sieve_all@),
                setting_text(settings.args@, "sieve-disable-capabilities"@, ""@),
            ),
    {
        let base_url = match settings.get("jmap-url") {
            Some(base_url) => base_url,
            None => vstd::pervasive::unreached(),
        };
        let mut capabilities: VecMap<URI, Capabilities> = VecMap::new();
        capabilities.append(URI::Core, Capabilities::Core(CoreCapabilities::new(config)));
        capabilities.append(URI::Mail, Capabilities::Mail(MailCapabilities::new(config)));
        capabilities.append(
            URI::WebSocket,
            Capabilities::WebSocket(WebSocketCapabilities::new(base_url.as_str())),
        );
        capabilities.append(
            URI::Sieve,
            Capabilities::Sieve(SieveCapabilities::new(settings, config, sieve_all)),
        );
        assert(capability_uris(capabilities@) =~= seq![
            URI::Core,
            URI::Mail,
            URI::WebSocket,
            URI::Sieve,
        ]);
        let api_url = base_url.clone().concat("/jmap/");
        let download_url = base_url.clone().concat(
            "/jmap/download/{accountId}/{blobId}/{name}?accept={type}",
        );
        let upload_url = base_url.clone().concat("/jmap/upload/{accountId}/");
        let event_source_url = base_url.clone().concat(
            "/jmap/eventsource/?types={types}&closeafter={closeafter}&ping={ping}",
        );
        Session {
            capabilities,
            accounts: VecMap::new(),
            primary_accounts: VecMap::new(),
            username: String::from_str(""),
            api_url,
            download_url,
            upload_url,
            event_source_url,
            state: 0,
            base_url,
        }
    }

    /// Makes an account the primary account of the user, for the
    /// capabilities that the list names or, without a list, for all that
    /// the server has, and lists it among the accounts as a personal one
    /// that can be written to.
    pub fn set_primary_account(
        &mut self,
        account_id: JMAPId,
        username: String,
        name: String,
        capabilities: Option<&[URI]>,
    )
        requires
            capabilities is Some ==> forall|i: int|
                0 <= i < capabilities.unwrap()@.len() ==> capability_slot(
                    old(self).capabilities@,
                    #[trigger] capabilities.unwrap()@[i],
                ) is Some,
        ensures
            final(self).username == username,
            final(self).primary_accounts@ == old(self).primary_accounts@ + primaries(
                match capabilities {
                    Some(uris) => uris@,
                    None => capability_uris(old(self).capabilities@),
                },
                account_id,
            ),
            accounts_view(final(self).accounts@) == with_account(
                accounts_view(old(self).accounts@),
                account_id,
                AccountView {
                    name: name@,
                    is_personal: true,
                    is_read_only: false,
                    account_capabilities: match capabilities {
                        Some(uris) => picked(old(self).capabilities@, uris@),
                        None => capabilities_view(old(self).capabilities@),
                    },
                },
            ),
            final(self).capabilities == old(self).capabilities,
            final(self).api_url == old(self).api_url,
            final(self).download_url == old(self).download_url,
            final(self).upload_url == old(self).upload_url,
            final(self).event_source_url == old(self).event_source_url,
            final(self).base_url == old(self).base_url,
            final(self).state == old(self).state,
    {
        self.username = username;
        let ghost start = self.primary_accounts@;
        match capabilities {
            Some(uris) => {
                let mut i: usize = 0;
                while i < uris.len()
                    invariant
                        i <= uris@.len(),
                        start == old(self).primary_accounts@,
                        *self == (Session {
                            primary_accounts: self.primary_accounts,
                            username,
                            ..*old(self)
                        }),
                        self.primary_accounts@ == start + primaries(
                            uris@.take(i as int),
                            account_id,
                        ),
                    decreases uris@.len() - i,
                {
                    self.primary_accounts.append(uris[i], account_id);
                    assert(self.primary_accounts@ =~= start + primaries(
                        uris@.take(i + 1),
                        account_id,
                    ));
                    i += 1;
                }
                assert(uris@.take(i as int) =~= uris@);
            },
            None => {
                let ghost all = capability_uris(self.capabilities@);
                let mut i: usize = 0;
                while i < self.capabilities.len()
                    invariant
                        i <= all.len(),
                        start == old(self).primary_accounts@,
                        all == capability_uris(old(self).capabilities@),
                        *self == (Session {
                            primary_accounts: self.primary_accounts,
                            username,
                            ..*old(self)
                        }),
                        self.primary_accounts@ == start + primaries(
                            all.take(i as int),
                            account_id,
                        ),
                    decreases all.len() - i,
                {
                    let uri = self.capabilities.entry(i).key;
                    self.primary_accounts.append(uri, account_id);
                    assert(self.primary_accounts@ =~= start + primaries(
                        all.take(i + 1),
                        account_id,
                    ));
                    i += 1;
                }
                assert(all.take(i as int) =~= all);
            },
        }
        let account = Account::new(name, true, false).add_capabilities(
            capabilities,
            &self.capabilities,
        );
        proof {
            assert(capabilities_view(account.account_capabilities@) =~= match capabilities {
                Some(uris) => picked(self.capabilities@, uris@),
                None => capabilities_view(self.capabilities@),
            });
        }
        set_account(&mut self.accounts, account_id, account);
    }

    /// Lists an account among those that the user may use, with the
    /// capabilities that the list names or, without a list, with all that
    /// the server has.
    pub fn add_account(
        &mut self,
        account_id: JMAPId,
        name: String,
        is_personal: bool,
        is_read_only: bool,
        capabilities: Option<&[URI]>,
    )
        requires
            capabilities is Some ==> forall|i: int|
                0 <= i < capabilities.unwrap()@.len() ==> capability_slot(
                    old(self).capabilities@,
                    #[trigger] capabilities.unwrap()@[i],
                ) is Some,
        ensures
            accounts_view(final(self).accounts@) == with_account(
                accounts_view(old(self).accounts@),
                account_id,
                AccountView {
                    name: name@,
                    is_personal,
                    is_read_only,
                    account_capabilities: match capabilities {
                        Some(uris) => picked(old(self).capabilities@, uris@),
                        None => capabilities_view(old(self).capabilities@),
                    },
                },
            ),
            *final(self) == (Session { accounts: final(self).accounts, ..*old(self) }),
    {
        let account = Account::new(name, is_personal, is_read_only).add_capabilities(
            capabilities,
            &self.capabilities,
        );
        proof {
            assert(capabilities_view(account.account_capabilities@) =~= match capabilities {
                Some(uris) => picked(self.capabilities@, uris@),
                None => capabilities_view(self.capabilities@),
            });
        }
        set_account(&mut self.accounts, account_id, account);
    }

    pub fn set_state(&mut self, state: u32)
        ensures
            *final(self) == (Session { state, ..*old(self) }),
    {
        self.state = state;
    }

    pub fn api_url(&self) -> (url: &str)
        ensures
            url@ == self.api_url@,
    {
        self.api_url.as_str()
    }

    pub fn base_url(&self) -> (url: &str)
        ensures
            url@ == self.base_url@,
    {
        self.base_url.as_str()
    }
}

} // verus!

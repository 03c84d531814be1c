//! Settings of a node and the limits derived from them.

use crate::jmap::types::{KeyValue, VecMap};
use crate::text::{
    parse_bool, parse_u64, parse_usize, parsed_u64, parsed_usize, split_at_first, split_once,
    str_eq,
};
use vstd::prelude::*;
use vstd::string::StringExecFns;

verus! {

/// Settings by name, as the node was started with them. Of two settings
/// with one name the first counts.
#[derive(Debug, Clone)]
pub struct EnvSettings {
    pub args: VecMap<String, String>,
}

/// The value of the first setting with a name.
pub open spec fn setting(args: Seq<KeyValue<String, String>>, name: Seq<char>) -> Option<Seq<char>>
    decreases args.len(),
{
    if args.len() == 0 {
        None
    } else {
        match setting(args.drop_last(), name) {
            Some(value) => Some(value),
            None => if args.last().key@ == name {
                Some(args.last().value@)
            } else {
                None
            },
        }
    }
}

/// The number that a setting holds, or a default where it is missing or
/// holds no number.
pub open spec fn setting_usize(
    args: Seq<KeyValue<String, String>>,
    name: Seq<char>,
    default: usize,
) -> usize {
    match setting(args, name) {
        Some(value) => match parsed_usize(value) {
            Some(number) => number,
            None => default,
        },
        None => default,
    }
}

pub open spec fn setting_u64(
    args: Seq<KeyValue<String, String>>,
    name: Seq<char>,
    default: u64,
) -> u64 {
    match setting(args, name) {
        Some(value) => match parsed_u64(value) {
            Some(number) => number,
            None => default,
        },
        None => default,
    }
}

/// The flag that a setting holds, or a default where it is missing or
/// holds neither `true` nor `false`.
pub open spec fn setting_bool(
    args: Seq<KeyValue<String, String>>,
    name: Seq<char>,
    default: bool,
) -> bool {
    match setting(args, name) {
        Some(value) => if value == "true"@ {
            true
        } else if value == "false"@ {
            false
        } else {
            default
        },
        None => default,
    }
}

/// The text that a setting holds, or a default where it is missing.
pub open spec fn setting_text(
    args: Seq<KeyValue<String, String>>,
    name: Seq<char>,
    default: Seq<char>,
) -> Seq<char> {
    match setting(args, name) {
        Some(value) => value,
        None => default,
    }
}

/// The rate that a text of the form `requests/seconds` stands for. A text
/// without a slash or without a number of requests stands for
/// `fallback`; a period that is no number counts as 60 seconds.
pub open spec fn parsed_rate(text: Seq<char>, fallback: (u64, u64)) -> (u64, u64) {
    match split_at_first(text, '/') {
        Some((requests, period)) => match parsed_u64(requests) {
            Some(requests) => (
                requests,
                match parsed_u64(period) {
                    Some(period) => period,
                    None => 60,
                },
            ),
            None => fallback,
        },
        None => fallback,
    }
}

/// Reads a rate of the form `requests/seconds`.
pub fn parse_rate(text: &str, fallback: (u64, u64)) -> (rate: (u64, u64))
    ensures
        rate == parsed_rate(text@, fallback),
{
    match split_once(text, '/') {
        Some((requests, period)) => match parse_u64(requests.as_str()) {
            Some(requests) => (
                requests,
                match parse_u64(period.as_str()) {
                    Some(period) => period,
                    None => 60,
                },
            ),
            None => fallback,
        },
        None => fallback,
    }
}

proof fn lemma_setting_found(args: Seq<KeyValue<String, String>>, name: Seq<char>, at: int)
    requires
        0 <= at < args.len(),
        setting(args.take(at), name) is None,
        args[at].key@ == name,
    ensures
        setting(args, name) == Some(args[at].value@),
    decreases args.len() - at,
{
    assert(args.take(at + 1).drop_last() =~= args.take(at));
    assert(setting(args.take(at + 1), name) == Some(args[at].value@));
    lemma_setting_grows(args, name, at + 1);
}

proof fn lemma_setting_grows(args: Seq<KeyValue<String, String>>, name: Seq<char>, len: int)
    requires
        0 <= len <= args.len(),
        setting(args.take(len), name) is Some,
    ensures
        setting(args, name) == setting(args.take(len), name),
    decreases args.len() - len,
{
    if len == args.len() {
        assert(args.take(len) =~= args);
    } else {
        assert(args.take(len + 1).drop_last() =~= args.take(len));
        lemma_setting_grows(args, name, len + 1);
    }
}

impl EnvSettings {
    pub fn new() -> (settings: EnvSettings)
        ensures
            settings.args@ == Seq::<KeyValue<String, String>>::empty(),
    {
        EnvSettings { args: VecMap::new() }
    }

    /// Adds a setting after those that are there.
    pub fn set(&mut self, name: String, value: String)
        ensures
            final(self).args@ == old(self).args@.push(KeyValue { key: name, value }),
    {
        self.args.append(name, value);
    }

    /// The value of a setting.
    pub fn get(&self, name: &str) -> (value: Option<String>)
        ensures
            match value {
                Some(value) => setting(self.args@, name@) == Some(value@),
                None => setting(self.args@, name@) is None,
            },
    {
        let ghost args = self.args@;
        let mut i: usize = 0;
        while i < self.args.len()
            invariant
                i <= args.len(),
                args == self.args@,
                setting(args.take(i as int), name@) is None,
            decreases args.len() - i,
        {
            let entry = self.args.entry(i);
            if str_eq(entry.key.as_str(), name) {
                proof {
                    lemma_setting_found(args, name@, i as int);
                }
                return Some(entry.value.clone());
            }
            assert(args.take(i + 1).drop_last() =~= args.take(i as int));
            i += 1;
        }
        assert(args.take(i as int) =~= args);
        None
    }

    /// The number that a setting holds.
    pub fn parse_usize(&self, name: &str, default: usize) -> (number: usize)
        ensures
            number == setting_usize(self.args@, name@, default),
    {
        match self.get(name) {
            Some(value) => match parse_usize(value.as_str()) {
                Some(number) => number,
                None => default,
            },
            None => default,
        }
    }

    pub fn parse_u64(&self, name: &str, default: u64) -> (number: u64)
        ensures
            number == setting_u64(self.args@, name@, default),
    {
        match self.get(name) {
            Some(value) => match parse_u64(value.as_str()) {
                Some(number) => number,
                None => default,
            },
            None => default,
        }
    }

    /// The flag that a setting holds.
    pub fn parse_bool(&self, name: &str, default: bool) -> (flag: bool)
        ensures
            flag == setting_bool(self.args@, name@, default),
    {
        match self.get(name) {
            Some(value) => match parse_bool(value.as_str()) {
                Some(flag) => flag,
                None => default,
            },
            None => default,
        }
    }

    /// The text that a setting holds.
    pub fn get_or(&self, name: &str, default: &str) -> (text: String)
        ensures
            text@ == setting_text(self.args@, name@, default@),
    {
        match self.get(name) {
            Some(value) => value,
            None => String::from_str(default),
        }
    }
}

/// The limits of a node.
#[derive(Debug)]
pub struct JMAPConfig {
    pub blob_temp_ttl: u64,
    /// The language that texts are taken to be in, by its ISO 639 code.
    pub default_language: String,
    pub max_size_upload: usize,
    pub max_concurrent_uploads: usize,
    pub max_size_request: usize,
    pub max_concurrent_requests: usize,
    pub max_calls_in_request: usize,
    pub max_objects_in_get: usize,
    pub max_objects_in_set: usize,
    pub rate_limit_authenticated: (u64, u64),
    pub rate_limit_anonymous: (u64, u64),
    pub rate_limit_auth: (u64, u64),
    pub use_forwarded_header: bool,
    pub query_max_results: usize,
    pub changes_max_results: usize,
    pub mailbox_name_max_len: usize,
    pub mailbox_max_total: usize,
    pub mailbox_max_depth: usize,
    pub mail_max_size: usize,
    pub mail_attachments_max_size: usize,
    pub mail_import_max_items: usize,
    pub mail_parse_max_items: usize,
    pub sieve_max_scripts: usize,
    pub sieve_max_script_name: usize,
    pub push_max_total: usize,
    pub ws_heartbeat_interval: u64,
    pub ws_client_timeout: u64,
    pub ws_throttle: u64,
    pub event_source_throttle: u64,
    pub raft_commit_timeout: u64,
}

impl JMAPConfig {
    /// The limits that settings ask for; a limit that no setting names, or
    /// whose setting cannot be read, has its default.
    pub fn from_settings(settings: &EnvSettings) -> (config: JMAPConfig)
        ensures
            config.max_size_upload == setting_usize(
                settings.args@,
                "max-size-upload"@,
                50000000,
            ),
            config.max_concurrent_uploads == setting_usize(
                settings.args@,
                "max-concurrent-uploads"@,
                4,
            ),
            config.max_concurrent_requests == setting_usize(
                settings.args@,
                "max-concurrent-requests"@,
                4,
            ),
            config.max_size_request == setting_usize(
                settings.args@,
                "max-size-request"@,
                10000000,
            ),
            config.max_calls_in_request == setting_usize(
                settings.args@,
                "max-calls-in-request"@,
                16,
            ),
            config.max_objects_in_get == setting_usize(settings.args@, "max-objects-in-get"@, 500),
            config.max_objects_in_set == setting_usize(settings.args@, "max-objects-in-set"@, 500),
            config.blob_temp_ttl == setting_u64(settings.args@, "blob-temp-ttl"@, 3600),
            config.changes_max_results == setting_usize(
                settings.args@,
                "changes-max-results"@,
                5000,
            ),
            config.query_max_results == setting_usize(settings.args@, "query-max-results"@, 5000),
            config.mailbox_name_max_len == setting_usize(
                settings.args@,
                "mailbox-name-max-len"@,
                255,
            ),
            config.mailbox_max_total == setting_usize(settings.args@, "mailbox-max-total"@, 1000),
            config.mailbox_max_depth == setting_usize(settings.args@, "mailbox-max-depth"@, 10),
            config.mail_attachments_max_size == setting_usize(
                settings.args@,
                "mail-attachments-max-size"@,
                50000000,
            ),
            config.mail_max_size == setting_usize(settings.args@, "mail-max-size"@, 104857600),
            config.mail_import_max_items == setting_usize(
                settings.args@,
                "mail-import-max-items"@,
                5,
            ),
            config.mail_parse_max_items == setting_usize(
                settings.args@,
                "mail-parse-max-items"@,
                5,
            ),
            config.sieve_max_script_name == setting_usize(
                settings.args@,
                "sieve-max-script-name"@,
                512,
            ),
            config.sieve_max_scripts == setting_usize(settings.args@, "sieve-max-scripts"@, 256),
            config.push_max_total == setting_usize(settings.args@, "push-max-total"@, 100),
            config.ws_client_timeout == setting_u64(settings.args@, "ws-client-timeout"@, 10000),
            config.ws_heartbeat_interval == setting_u64(
                settings.args@,
                "ws-heartbeat-interval"@,
                5000,
            ),
            config.ws_throttle == setting_u64(settings.args@, "ws-throttle"@, 1000),
            config.event_source_throttle == setting_u64(
                settings.args@,
                "event-source-throttle"@,
                1000,
            ),
            config.raft_commit_timeout == setting_u64(settings.args@, "raft-commit-timeout"@, 1000),
            config.default_language@ == setting_text(settings.args@, "default-language"@, "en"@),
            config.rate_limit_authenticated == parsed_rate(
                setting_text(settings.args@, "rate-limit-authenticated"@, "1000/60"@),
                (1000, 60),
            ),
            config.rate_limit_anonymous == parsed_rate(
                setting_text(settings.args@, "rate-limit-anonymous"@, "100/60"@),
                (100, 60),
            ),
            config.rate_limit_auth == parsed_rate(
                setting_text(settings.args@, "rate-limit-auth"@, "10/60"@),
                (100, 60),
            ),
            config.use_forwarded_header == setting_bool(
                settings.args@,
                "use-forwarded-header"@,
                false,
            ),
    {
        JMAPConfig {
            max_size_upload: settings.parse_usize("max-size-upload", 50000000),
            max_concurrent_uploads: settings.parse_usize("max-concurrent-uploads", 4),
            max_concurrent_requests: settings.parse_usize("max-concurrent-requests", 4),
            max_size_request: settings.parse_usize("max-size-request", 10000000),
            max_calls_in_request: settings.parse_usize("max-calls-in-request", 16),
            max_objects_in_get: settings.parse_usize("max-objects-in-get", 500),
            max_objects_in_set: settings.parse_usize("max-objects-in-set", 500),
            blob_temp_ttl: settings.parse_u64("blob-temp-ttl", 3600),
            changes_max_results: settings.parse_usize("changes-max-results", 5000),
            query_max_results: settings.parse_usize("query-max-results", 5000),
            mailbox_name_max_len: settings.parse_usize("mailbox-name-max-len", 255),
            mailbox_max_total: settings.parse_usize("mailbox-max-total", 1000),
            mailbox_max_depth: settings.parse_usize("mailbox-max-depth", 10),
            mail_attachments_max_size: settings.parse_usize("mail-attachments-max-size", 50000000),
            mail_max_size: settings.parse_usize("mail-max-size", 104857600),
            mail_import_max_items: settings.parse_usize("mail-import-max-items", 5),
            mail_parse_max_items: settings.parse_usize("mail-parse-max-items", 5),
            sieve_max_script_name: settings.parse_usize("sieve-max-script-name", 512),
            sieve_max_scripts: settings.parse_usize("sieve-max-scripts", 256),
            push_max_total: settings.parse_usize("push-max-total", 100),
            ws_client_timeout: settings.parse_u64("ws-client-timeout", 10000),
            ws_heartbeat_interval: settings.parse_u64("ws-heartbeat-interval", 5000),
            ws_throttle: settings.parse_u64("ws-throttle", 1000),
            event_source_throttle: settings.parse_u64("event-source-throttle", 1000),
            raft_commit_timeout: settings.parse_u64("raft-commit-timeout", 1000),
            default_language: settings.get_or("default-language", "en"),
            rate_limit_authenticated: parse_rate(
                settings.get_or("rate-limit-authenticated", "1000/60").as_str(),
                (1000, 60),
            ),
            rate_limit_anonymous: parse_rate(
                settings.get_or("rate-limit-anonymous", "100/60").as_str(),
                (100, 60),
            ),
            rate_limit_auth: parse_rate(
                settings.get_or("rate-limit-auth", "10/60").as_str(),
                (100, 60),
            ),
            use_forwarded_header: settings.parse_bool("use-forwarded-header", false),
        }
    }
}

} // verus!

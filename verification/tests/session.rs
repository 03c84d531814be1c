use stalwart_jmap::api::session::{
    clone_strings, get_capability, set_account, sieve_extensions, Account, Capabilities,
    CoreCapabilities, MailCapabilities, Session, SieveCapabilities, WebSocketCapabilities,
};
use stalwart_jmap::config::{parse_rate, EnvSettings, JMAPConfig};
use stalwart_jmap::jmap::types::VecMap;
use stalwart_jmap::jmap::uri::URI;

fn settings(pairs: &[(&str, &str)]) -> EnvSettings {
    let mut settings = EnvSettings::new();
    for (name, value) in pairs {
        settings.set(name.to_string(), value.to_string());
    }
    settings
}

#[test]
fn settings_are_found_by_name_and_the_first_counts() {
    let settings = settings(&[("a", "1"), ("b", "two"), ("a", "3"), ("flag", "true")]);
    assert_eq!(settings.get("a"), Some("1".to_string()));
    assert_eq!(settings.get("b"), Some("two".to_string()));
    assert_eq!(settings.get("c"), None);
    assert_eq!(settings.get(""), None);
    assert_eq!(settings.parse_usize("a", 9), 1);
    assert_eq!(settings.parse_usize("b", 9), 9);
    assert_eq!(settings.parse_usize("c", 9), 9);
    assert_eq!(settings.parse_u64("a", 7), 1);
    assert_eq!(settings.parse_u64("missing", 7), 7);
    assert!(settings.parse_bool("flag", false));
    assert!(settings.parse_bool("a", true));
    assert!(!settings.parse_bool("a", false));
    assert_eq!(settings.get_or("b", "x"), "two");
    assert_eq!(settings.get_or("z", "x"), "x");
}

#[test]
fn numbers_are_read_as_the_standard_library_reads_them() {
    let settings = settings(&[
        ("plus", "+5"),
        ("minus", "-5"),
        ("space", " 5"),
        ("big", "18446744073709551615"),
        ("too-big", "18446744073709551616"),
        ("empty", ""),
        ("upper", "True"),
        ("zeros", "007"),
        ("sign", "+"),
        ("minus-zero", "-0"),
        ("two-signs", "++1"),
        ("tail", "5 "),
        ("point", "5.0"),
        ("plus-zero", "+0"),
    ]);
    assert_eq!(settings.parse_u64("zeros", 1), 7);
    assert_eq!(settings.parse_u64("sign", 1), 1);
    assert_eq!(settings.parse_u64("minus-zero", 1), 1);
    assert_eq!(settings.parse_u64("two-signs", 2), 2);
    assert_eq!(settings.parse_u64("tail", 2), 2);
    assert_eq!(settings.parse_usize("point", 2), 2);
    assert_eq!(settings.parse_usize("plus-zero", 2), 0);
    assert_eq!(settings.parse_usize("big", 0), u64::MAX as usize);
    assert_eq!(settings.parse_usize("too-big", 3), 3);
    assert_eq!(settings.parse_u64("plus", 0), 5);
    assert_eq!(settings.parse_u64("minus", 0), 0);
    assert_eq!(settings.parse_u64("space", 0), 0);
    assert_eq!(settings.parse_u64("big", 0), u64::MAX);
    assert_eq!(settings.parse_u64("too-big", 1), 1);
    assert_eq!(settings.parse_usize("empty", 3), 3);
    assert!(!settings.parse_bool("upper", false));
}

#[test]
fn rates_are_read_as_requests_per_period() {
    assert_eq!(parse_rate("1000/60", (1, 2)), (1000, 60));
    assert_eq!(parse_rate("5/7", (1, 2)), (5, 7));
    assert_eq!(parse_rate("5/x", (1, 2)), (5, 60));
    assert_eq!(parse_rate("5/", (1, 2)), (5, 60));
    assert_eq!(parse_rate("5/7/9", (1, 2)), (5, 60));
    assert_eq!(parse_rate("x/7", (1, 2)), (1, 2));
    assert_eq!(parse_rate("/7", (1, 2)), (1, 2));
    assert_eq!(parse_rate("57", (1, 2)), (1, 2));
    assert_eq!(parse_rate("", (1, 2)), (1, 2));
}

#[test]
fn limits_have_defaults() {
    let config = JMAPConfig::from_settings(&EnvSettings::new());
    assert_eq!(config.max_size_upload, 50000000);
    assert_eq!(config.max_concurrent_uploads, 4);
    assert_eq!(config.max_concurrent_requests, 4);
    assert_eq!(config.max_size_request, 10000000);
    assert_eq!(config.max_calls_in_request, 16);
    assert_eq!(config.max_objects_in_get, 500);
    assert_eq!(config.max_objects_in_set, 500);
    assert_eq!(config.blob_temp_ttl, 3600);
    assert_eq!(config.changes_max_results, 5000);
    assert_eq!(config.query_max_results, 5000);
    assert_eq!(config.mailbox_name_max_len, 255);
    assert_eq!(config.mailbox_max_total, 1000);
    assert_eq!(config.mailbox_max_depth, 10);
    assert_eq!(config.mail_attachments_max_size, 50000000);
    assert_eq!(config.mail_max_size, 104857600);
    assert_eq!(config.mail_import_max_items, 5);
    assert_eq!(config.mail_parse_max_items, 5);
    assert_eq!(config.sieve_max_script_name, 512);
    assert_eq!(config.sieve_max_scripts, 256);
    assert_eq!(config.push_max_total, 100);
    assert_eq!(config.ws_client_timeout, 10000);
    assert_eq!(config.ws_heartbeat_interval, 5000);
    assert_eq!(config.ws_throttle, 1000);
    assert_eq!(config.event_source_throttle, 1000);
    assert_eq!(config.raft_commit_timeout, 1000);
    assert_eq!(config.default_language, "en");
    assert_eq!(config.rate_limit_authenticated, (1000, 60));
    assert_eq!(config.rate_limit_anonymous, (100, 60));
    assert_eq!(config.rate_limit_auth, (10, 60));
    assert!(!config.use_forwarded_header);
}

#[test]
fn limits_follow_the_settings() {
    let config = JMAPConfig::from_settings(&settings(&[
        ("max-size-upload", "1"),
        ("max-objects-in-get", "2"),
        ("mailbox-max-depth", "3"),
        ("raft-commit-timeout", "4"),
        ("default-language", "es"),
        ("rate-limit-auth", "nonsense"),
        ("rate-limit-anonymous", "7/8"),
        ("use-forwarded-header", "true"),
        ("mail-max-size", "lots"),
    ]));
    assert_eq!(config.max_size_upload, 1);
    assert_eq!(config.max_objects_in_get, 2);
    assert_eq!(config.mailbox_max_depth, 3);
    assert_eq!(config.raft_commit_timeout, 4);
    assert_eq!(config.default_language, "es");
    assert_eq!(config.rate_limit_auth, (100, 60));
    assert_eq!(config.rate_limit_anonymous, (7, 8));
    assert!(config.use_forwarded_header);
    assert_eq!(config.mail_max_size, 104857600);
}

#[test]
fn capabilities_take_their_limits_from_the_config() {
    let config = JMAPConfig::from_settings(&settings(&[
        ("max-size-upload", "11"),
        ("max-concurrent-uploads", "12"),
        ("max-size-request", "13"),
        ("max-concurrent-requests", "14"),
        ("max-calls-in-request", "15"),
        ("max-objects-in-get", "16"),
        ("max-objects-in-set", "17"),
        ("mailbox-max-depth", "18"),
        ("mailbox-name-max-len", "19"),
        ("mail-attachments-max-size", "20"),
    ]));
    let core = CoreCapabilities::new(&config);
    assert_eq!(core.max_size_upload, 11);
    assert_eq!(core.max_concurrent_upload, 12);
    assert_eq!(core.max_size_request, 13);
    assert_eq!(core.max_concurrent_requests, 14);
    assert_eq!(core.max_calls_in_request, 15);
    assert_eq!(core.max_objects_in_get, 16);
    assert_eq!(core.max_objects_in_set, 17);
    assert_eq!(
        core.collation_algorithms,
        vec!["i;ascii-numeric", "i;ascii-casemap", "i;unicode-casemap"]
    );
    let mail = MailCapabilities::new(&config);
    assert_eq!(mail.max_mailboxes_per_email, None);
    assert_eq!(mail.max_mailbox_depth, 18);
    assert_eq!(mail.max_size_mailbox_name, 19);
    assert_eq!(mail.max_size_attachments_per_email, 20);
    assert!(mail.may_create_top_level_mailbox);
    assert_eq!(
        mail.email_query_sort_options,
        vec![
            "receivedAt",
            "size",
            "from",
            "to",
            "subject",
            "sentAt",
            "hasKeyword",
            "allInThreadHaveKeyword",
            "someInThreadHaveKeyword"
        ]
    );
}

#[test]
fn the_web_socket_lives_at_the_address_of_the_server() {
    let socket = WebSocketCapabilities::new("https://mail.example.org");
    assert_eq!(socket.url, "wss://mail.example.org/jmap/ws");
    assert!(socket.supports_push);
    assert_eq!(WebSocketCapabilities::new("http://localhost:8080").url, "ws://localhost:8080/jmap/ws");
    assert_eq!(WebSocketCapabilities::new("http").url, "ws/jmap/ws");
}

#[test]
fn sieve_capabilities_list_the_ways_of_notification() {
    let config = JMAPConfig::from_settings(&settings(&[("sieve-max-scripts", "3")]));
    let extensions = vec!["body".to_string(), "fileinto".to_string()];
    let sieve = SieveCapabilities::new(&EnvSettings::new(), &config, extensions.clone());
    assert_eq!(sieve.max_script_name, 512);
    assert_eq!(sieve.max_script_size, 1024 * 1024);
    assert_eq!(sieve.max_scripts, 3);
    assert_eq!(sieve.max_redirects, 1);
    assert_eq!(sieve.extensions, extensions);
    assert_eq!(sieve.notification_methods, Some(vec!["mailto".to_string()]));
    assert_eq!(sieve.ext_lists, None);
    let custom = settings(&[
        ("sieve-notification-uris", "  mailto \t xmpp\nsms  "),
        ("sieve-max-script-size", "100"),
        ("sieve-max-redirects", "5"),
    ]);
    let sieve = SieveCapabilities::new(&custom, &config, vec![]);
    assert_eq!(
        sieve.notification_methods,
        Some(vec!["mailto".to_string(), "xmpp".to_string(), "sms".to_string()])
    );
    assert_eq!(sieve.max_script_size, 100);
    assert_eq!(sieve.max_redirects, 5);
    let none = settings(&[("sieve-notification-uris", " \t ")]);
    assert_eq!(SieveCapabilities::new(&none, &config, vec![]).notification_methods, None);
}

fn server_capabilities() -> VecMap<URI, Capabilities> {
    let config = JMAPConfig::from_settings(&EnvSettings::new());
    let mut capabilities = VecMap::new();
    capabilities.append(URI::Core, Capabilities::Core(CoreCapabilities::new(&config)));
    capabilities.append(URI::Mail, Capabilities::Mail(MailCapabilities::new(&config)));
    capabilities.append(
        URI::WebSocket,
        Capabilities::WebSocket(WebSocketCapabilities::new("https://x")),
    );
    capabilities
}

#[test]
fn an_account_gets_the_capabilities_it_is_given() {
    let server = server_capabilities();
    let account = Account::new("Jane".to_string(), true, false);
    assert_eq!(account.name, "Jane");
    assert!(account.is_personal && !account.is_read_only);
    assert!(account.account_capabilities.is_empty());
    let account = account.add_capabilities(Some(&[URI::WebSocket, URI::Core]), &server);
    assert_eq!(account.account_capabilities.len(), 2);
    assert_eq!(account.account_capabilities.entry(0).key, URI::WebSocket);
    match &account.account_capabilities.entry(0).value {
        Capabilities::WebSocket(socket) => assert_eq!(socket.url, "wss://x/jmap/ws"),
        other => panic!("{:?}", other),
    }
    assert_eq!(account.account_capabilities.entry(1).key, URI::Core);
    let account = account.add_capabilities(Some(&[URI::Mail]), &server);
    assert_eq!(account.account_capabilities.len(), 3);
    let account = account.add_capabilities(None, &server);
    assert_eq!(account.account_capabilities.len(), 3);
    assert_eq!(account.account_capabilities.entry(0).key, URI::Core);
    assert_eq!(account.account_capabilities.entry(2).key, URI::WebSocket);
    assert_eq!(account.name, "Jane");
    assert!(get_capability(&server, URI::Sieve).is_none());
    assert!(matches!(get_capability(&server, URI::Mail), Some(Capabilities::Mail(_))));
    let copy = get_capability(&server, URI::Core).unwrap().duplicate();
    match copy {
        Capabilities::Core(core) => assert_eq!(core.collation_algorithms.len(), 3),
        other => panic!("{:?}", other),
    }
    assert_eq!(clone_strings(&vec!["a".to_string(), "b".to_string()]), vec!["a", "b"]);
}

#[test]
fn a_session_is_built_from_the_address_of_the_server() {
    let settings = settings(&[("jmap-url", "https://jmap.example.org")]);
    let config = JMAPConfig::from_settings(&settings);
    let session = Session::new(&settings, &config, vec!["vacation".to_string()]);
    assert_eq!(session.base_url(), "https://jmap.example.org");
    assert_eq!(session.api_url(), "https://jmap.example.org/jmap/");
    assert_eq!(
        session.download_url,
        "https://jmap.example.org/jmap/download/{accountId}/{blobId}/{name}?accept={type}"
    );
    assert_eq!(session.upload_url, "https://jmap.example.org/jmap/upload/{accountId}/");
    assert_eq!(
        session.event_source_url,
        "https://jmap.example.org/jmap/eventsource/?types={types}&closeafter={closeafter}&ping={ping}"
    );
    assert_eq!(session.username, "");
    assert_eq!(session.state, 0);
    assert!(session.accounts.is_empty());
    assert!(session.primary_accounts.is_empty());
    let uris: Vec<URI> = session.capabilities.inner.iter().map(|entry| entry.key).collect();
    assert_eq!(uris, vec![URI::Core, URI::Mail, URI::WebSocket, URI::Sieve]);
    match &session.capabilities.entry(3).value {
        Capabilities::Sieve(sieve) => assert_eq!(sieve.extensions, vec!["vacation"]),
        other => panic!("{:?}", other),
    }
}

#[test]
fn accounts_of_a_session_are_set_by_id() {
    let settings = settings(&[("jmap-url", "http://localhost")]);
    let config = JMAPConfig::from_settings(&settings);
    let mut session = Session::new(&settings, &config, vec![]);
    session.set_state(77);
    assert_eq!(session.state, 77);
    session.set_primary_account(5, "jane@example.org".to_string(), "Jane".to_string(), None);
    assert_eq!(session.username, "jane@example.org");
    let primaries: Vec<(URI, u64)> =
        session.primary_accounts.inner.iter().map(|entry| (entry.key, entry.value)).collect();
    assert_eq!(
        primaries,
        vec![(URI::Core, 5), (URI::Mail, 5), (URI::WebSocket, 5), (URI::Sieve, 5)]
    );
    assert_eq!(session.accounts.len(), 1);
    assert_eq!(session.accounts.entry(0).key, 5);
    assert_eq!(session.accounts.entry(0).value.name, "Jane");
    assert!(session.accounts.entry(0).value.is_personal);
    assert!(!session.accounts.entry(0).value.is_read_only);
    assert_eq!(session.accounts.entry(0).value.account_capabilities.len(), 4);
    session.add_account(9, "Team".to_string(), false, true, Some(&[URI::Core, URI::Mail]));
    assert_eq!(session.accounts.len(), 2);
    assert_eq!(session.accounts.entry(1).value.account_capabilities.len(), 2);
    assert!(session.accounts.entry(1).value.is_read_only);
    session.add_account(5, "Jane again".to_string(), true, false, Some(&[URI::Core]));
    assert_eq!(session.accounts.len(), 2);
    assert_eq!(session.accounts.entry(0).value.name, "Jane again");
    assert_eq!(session.accounts.entry(0).value.account_capabilities.len(), 1);
    session.set_primary_account(9, "team".to_string(), "Team".to_string(), Some(&[URI::Mail]));
    assert_eq!(session.primary_accounts.len(), 5);
    assert_eq!(session.primary_accounts.entry(4).key, URI::Mail);
    assert_eq!(session.primary_accounts.entry(4).value, 9);
    assert!(session.accounts.entry(1).value.is_personal);
    let mut accounts = VecMap::new();
    set_account(&mut accounts, 1, Account::new("a".to_string(), true, true));
    set_account(&mut accounts, 1, Account::new("b".to_string(), true, true));
    assert_eq!(accounts.len(), 1);
    assert_eq!(accounts.entry(0).value.name, "b");
}

fn names(names: &[&str]) -> Vec<String> {
    names.iter().map(|name| name.to_string()).collect()
}

#[test]
fn offered_extensions_come_in_order_and_once() {
    assert_eq!(
        sieve_extensions(names(&["vacation", "body", "fileinto", "body", "envelope"]), ""),
        names(&["body", "envelope", "fileinto", "vacation"])
    );
    assert_eq!(sieve_extensions(names(&["b", "a"]), " \t "), names(&["a", "b"]));
    assert_eq!(sieve_extensions(vec![], "body"), Vec::<String>::new());
    assert_eq!(sieve_extensions(names(&["same", "same", "same"]), ""), names(&["same"]));
}

#[test]
fn disabled_extensions_are_not_offered() {
    assert_eq!(
        sieve_extensions(
            names(&["vacation", "body", "fileinto", "envelope"]),
            "  fileinto\tnothing vacation\n"
        ),
        names(&["body", "envelope"])
    );
    assert_eq!(sieve_extensions(names(&["body"]), "bod body2 Body"), names(&["body"]));
    assert_eq!(sieve_extensions(names(&["body", "regex"]), "regex body"), Vec::<String>::new());
}

#[test]
fn extensions_are_ordered_as_texts_are() {
    assert_eq!(
        sieve_extensions(names(&["b", "ab", "a", "", "B", "abc", "aa", "\u{e9}", "z"]), ""),
        names(&["", "B", "a", "aa", "ab", "abc", "b", "z", "\u{e9}"])
    );
    assert_eq!(
        sieve_extensions(names(&["\u{10000}", "\u{ffff}", "\u{e000}"]), ""),
        names(&["\u{e000}", "\u{ffff}", "\u{10000}"])
    );
}

#[test]
fn sieve_capabilities_offer_what_is_not_disabled() {
    let config = JMAPConfig::from_settings(&EnvSettings::new());
    let all = names(&["vacation", "body", "fileinto", "body"]);
    let sieve = SieveCapabilities::new(&EnvSettings::new(), &config, all.clone());
    assert_eq!(sieve.extensions, names(&["body", "fileinto", "vacation"]));
    let disabled = settings(&[("sieve-disable-capabilities", "body unknown")]);
    let sieve = SieveCapabilities::new(&disabled, &config, all.clone());
    assert_eq!(sieve.extensions, names(&["fileinto", "vacation"]));
    let with_url = settings(&[
        ("jmap-url", "http://localhost"),
        ("sieve-disable-capabilities", "vacation"),
    ]);
    let session = Session::new(&with_url, &config, all);
    match &session.capabilities.entry(3).value {
        Capabilities::Sieve(sieve) => assert_eq!(sieve.extensions, names(&["body", "fileinto"])),
        other => panic!("{:?}", other),
    }
}

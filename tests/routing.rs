use slack_cmd_core::{
    bot_marker, completion_reply, tokenize, Dispatch, Dispatcher, EventError, HandlerIndex, HandlerInfo,
    InboundMessage, StartupError,
};

fn handler(name: &str, description: &str, channels: &[&str]) -> HandlerInfo {
    HandlerInfo::new(name.to_string(), description.to_string(), channels.iter().map(|c| c.to_string()).collect())
}

fn message(text: &str) -> InboundMessage {
    InboundMessage {
        subtype: None,
        text: Some(text.to_string()),
        channel: Some("C1".to_string()),
        ts: "100.1".to_string(),
        thread_ts: None,
    }
}

fn strings(v: &[&str]) -> Vec<String> {
    v.iter().map(|s| s.to_string()).collect()
}

#[test]
fn tokenize_empty_is_empty() {
    assert_eq!(tokenize("").ok().unwrap(), Vec::<String>::new());
}

#[test]
fn tokenize_groups_quoted_words() {
    assert_eq!(tokenize("a \"b c\" d").ok().unwrap(), strings(&["a", "b c", "d"]));
}

#[test]
fn tokenize_rejects_unterminated_quote() {
    let r = tokenize("a \"unterminated");
    assert!(r.is_err());
    assert_eq!(r.err().unwrap().message(), "Fail to parse arguments: Invalid quoting");
}

#[test]
fn channel_handler_wins_over_all_channels_handler() {
    let hs = vec![handler("jira", "global", &["*"]), handler("jira", "scoped", &["dev"]), handler("x", "", &["*"])];
    let index = HandlerIndex::new(&hs);
    assert_eq!(index.get(Some("dev"), "jira"), Some(1));
    let hs = vec![handler("jira", "scoped", &["dev"]), handler("jira", "global", &["*"])];
    let index = HandlerIndex::new(&hs);
    assert_eq!(index.get(Some("dev"), "jira"), Some(0));
}

#[test]
fn all_channels_handler_reached_everywhere() {
    let hs = vec![handler("foo", "", &["dev"]), handler("info", "Print bot info", &["*"])];
    let index = HandlerIndex::new(&hs);
    assert_eq!(index.get(Some("dev"), "info"), Some(1));
    assert_eq!(index.get(Some("ops"), "info"), Some(1));
    assert_eq!(index.get(None, "info"), Some(1));
    assert_eq!(index.get(Some("ops"), "foo"), None);
    assert_eq!(index.get(None, "foo"), None);
}

#[test]
fn known_channel_without_command_falls_through() {
    let hs = vec![handler("foo", "", &["dev"]), handler("bar", "", &["*"])];
    let index = HandlerIndex::new(&hs);
    assert_eq!(index.get(Some("dev"), "bar"), Some(1));
    assert_eq!(index.get(Some("dev"), "foo"), Some(0));
}

#[test]
fn later_registration_wins() {
    let hs = vec![handler("a", "1", &["dev"]), handler("a", "2", &["dev", "ops"]), handler("b", "", &["*"]),
        handler("b", "", &["*", "dev"])];
    let index = HandlerIndex::new(&hs);
    assert_eq!(index.get(Some("dev"), "a"), Some(1));
    assert_eq!(index.get(Some("ops"), "a"), Some(1));
    assert_eq!(index.get(Some("dev"), "b"), Some(3));
}

#[test]
fn marker_overrides_other_channels() {
    let hs = vec![handler("a", "", &["dev", "*"])];
    let index = HandlerIndex::new(&hs);
    assert_eq!(index.get(Some("ops"), "a"), Some(0));
    assert_eq!(index.get(None, "a"), Some(0));
}

#[test]
fn empty_scope_reaches_nothing() {
    let hs = vec![handler("a", "", &[])];
    let index = HandlerIndex::new(&hs);
    assert_eq!(index.get(Some("dev"), "a"), None);
    assert_eq!(index.get(None, "a"), None);
}

fn dispatcher() -> Dispatcher {
    Dispatcher::new(
        "<@U1>".to_string(),
        vec![handler("jira", "Create jira ticket", &["general"]), handler("info", "Print bot info", &["*"])],
    )
}

#[test]
fn unaddressed_message_is_ignored() {
    let d = dispatcher();
    assert!(matches!(d.route(&message("hello"), Some("general")), Ok(Dispatch::Ignore)));
}

#[test]
fn message_with_subtype_is_ignored() {
    let d = dispatcher();
    let mut m = message("<@U1> info");
    m.subtype = Some("message_changed".to_string());
    assert!(matches!(d.route(&m, Some("general")), Ok(Dispatch::Ignore)));
}

#[test]
fn message_without_text_is_an_error() {
    let d = dispatcher();
    let mut m = message("");
    m.text = None;
    assert!(matches!(d.route(&m, None), Err(EventError::TextMissing)));
}

#[test]
fn addressed_message_without_channel_is_an_error() {
    let d = dispatcher();
    let mut m = message("<@U1> info");
    m.channel = None;
    assert!(matches!(d.route(&m, None), Err(EventError::ChannelMissing)));
}

#[test]
fn addressed_command_runs_its_handler() {
    let d = dispatcher();
    match d.route(&message("<@U1> jira --project X"), Some("general")) {
        Ok(Dispatch::Execute { handler, args, channel, thread }) => {
            assert_eq!(handler, 0);
            assert_eq!(args, strings(&["jira", "--project", "X"]));
            assert_eq!(channel, "C1");
            assert_eq!(thread, "100.1");
        },
        _ => panic!("expected a handler run"),
    }
}

#[test]
fn reply_goes_to_parent_thread() {
    let d = dispatcher();
    let mut m = message("<@U1>   info  ");
    m.thread_ts = Some("99.0".to_string());
    match d.route(&m, None) {
        Ok(Dispatch::Execute { handler, args, thread, .. }) => {
            assert_eq!(handler, 1);
            assert_eq!(args, strings(&["info"]));
            assert_eq!(thread, "99.0");
        },
        _ => panic!("expected a handler run"),
    }
}

#[test]
fn unknown_command_gets_help() {
    let d = dispatcher();
    match d.route(&message("<@U1> nope"), Some("general")) {
        Ok(Dispatch::Reply { channel, thread, text }) => {
            assert_eq!(channel, "C1");
            assert_eq!(thread, "100.1");
            assert_eq!(
                text,
                "Unknown command: `nope`\nAvailable commands:\n\u{2022} `help`: Prints this help message\n\u{2022} `info`: Print bot info\n\u{2022} `jira`: Create jira ticket"
            );
        },
        _ => panic!("expected a reply"),
    }
}

#[test]
fn unknown_channel_sees_global_help_only() {
    let d = dispatcher();
    match d.route(&message("<@U1> jira"), None) {
        Ok(Dispatch::Reply { text, .. }) => {
            assert_eq!(
                text,
                "Unknown command: `jira`\nAvailable commands:\n\u{2022} `help`: Prints this help message\n\u{2022} `info`: Print bot info"
            );
        },
        _ => panic!("expected a reply"),
    }
}

#[test]
fn bare_marker_gets_help_without_notice() {
    let d = dispatcher();
    match d.route(&message("<@U1>"), Some("general")) {
        Ok(Dispatch::Reply { text, .. }) => {
            assert!(text.starts_with("Available commands:\n"));
        },
        _ => panic!("expected a reply"),
    }
}

#[test]
fn unbalanced_quotes_reply_with_diagnostic() {
    let d = dispatcher();
    match d.route(&message("<@U1> jira \"oops"), Some("general")) {
        Ok(Dispatch::Reply { text, channel, .. }) => {
            assert_eq!(text, "Fail to parse arguments: Invalid quoting");
            assert_eq!(channel, "C1");
        },
        _ => panic!("expected a reply"),
    }
}

#[test]
fn failed_handler_gets_one_fallback_reply() {
    assert_eq!(completion_reply(false), Some("Error occurred during handling. Check logs for details.".to_string()));
    assert_eq!(completion_reply(true), None);
}

#[test]
fn marker_from_user_id() {
    assert_eq!(bot_marker(Some("U1")).ok(), Some("<@U1>".to_string()));
    assert_eq!(bot_marker(None).err(), Some(StartupError::BotUserIdMissing));
}

#[test]
fn command_with_given_words_runs_handler() {
    let d = dispatcher();
    let r = d.dispatch_command(
        "jira -p X",
        Ok(strings(&["jira", "-p", "X"])),
        "C9".to_string(),
        "7.7".to_string(),
        Some("general"),
    );
    match r {
        Dispatch::Execute { handler, args, channel, thread } => {
            assert_eq!(handler, 0);
            assert_eq!(args, strings(&["jira", "-p", "X"]));
            assert_eq!(channel, "C9");
            assert_eq!(thread, "7.7");
        },
        _ => panic!("expected a handler run"),
    }
}

#[test]
fn command_with_failed_words_replies_diagnostic() {
    let d = dispatcher();
    let words = tokenize("\"").map(|_| Vec::new());
    match d.dispatch_command("\"", words, "C9".to_string(), "7.7".to_string(), None) {
        Dispatch::Reply { text, .. } => assert_eq!(text, "Fail to parse arguments: Invalid quoting"),
        _ => panic!("expected a reply"),
    }
}

#[test]
fn empty_body_means_help() {
    let d = Dispatcher::new("<@U1>".to_string(), vec![handler("help", "custom help", &["*"])]);
    match d.dispatch_command("", Ok(vec![]), "C".to_string(), "T".to_string(), None) {
        Dispatch::Execute { handler, args, .. } => {
            assert_eq!(handler, 0);
            assert!(args.is_empty());
        },
        _ => panic!("expected the help handler"),
    }
}

#[test]
fn dispatcher_resolves_through_channel_name() {
    let d = dispatcher();
    assert_eq!(d.get_msg_handler(Some("general"), "jira"), Some(0));
    assert_eq!(d.get_msg_handler(Some("random"), "jira"), None);
    assert_eq!(d.get_msg_handler(None, "info"), Some(1));
    assert_eq!(d.bot_marker(), "<@U1>");
}

#[test]
fn command_ends_at_newline() {
    let d = dispatcher();
    match d.route(&message("<@U1> info\nmore"), None) {
        Ok(Dispatch::Execute { handler, args, .. }) => {
            assert_eq!(handler, 1);
            assert_eq!(args, strings(&["info", "more"]));
        },
        _ => panic!("expected a handler run"),
    }
}

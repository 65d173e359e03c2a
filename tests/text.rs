use slack_cmd_core::text::{first_word_of, str_eq, str_le, strip_prefix, trim};
use slack_cmd_core::utils::{extract_channel_thread, extract_msg_body, extract_msg_ts, extract_thread_ts};
use slack_cmd_core::{EventError, InboundMessage};

#[test]
fn trim_strips_unicode_white_space() {
    assert_eq!(trim("  \t a b \n\u{3000}"), "a b");
    assert_eq!(trim("   "), "");
    assert_eq!(trim(""), "");
}

#[test]
fn prefix_stripping() {
    assert_eq!(strip_prefix("<@U1> hi", "<@U1>"), Some(" hi"));
    assert_eq!(strip_prefix("<@U2> hi", "<@U1>"), None);
    assert_eq!(strip_prefix("<@U", "<@U1>"), None);
}

#[test]
fn first_word_stops_at_space() {
    assert_eq!(first_word_of("jira --project X"), "jira");
    assert_eq!(first_word_of("info"), "info");
    assert_eq!(first_word_of(" x"), "");
}

#[test]
fn lexicographic_comparison() {
    assert!(str_le("Zeta", "alpha"));
    assert!(str_le("ab", "abc"));
    assert!(!str_le("b", "ab"));
    assert!(str_le("same", "same"));
    assert!(str_eq("x\u{e9}", "x\u{e9}"));
    assert!(!str_eq("x", "xy"));
}

#[test]
fn routing_fields_of_a_message() {
    let m = InboundMessage {
        subtype: None,
        text: Some("hi".to_string()),
        channel: Some("C1".to_string()),
        ts: "1.0".to_string(),
        thread_ts: Some("0.5".to_string()),
    };
    assert_eq!(extract_msg_body(&m), Ok("hi".to_string()));
    assert_eq!(extract_thread_ts(&m), "0.5");
    assert_eq!(extract_msg_ts(&m), "1.0");
    assert_eq!(extract_channel_thread(&m), Ok(("C1".to_string(), "0.5".to_string())));
    let bare = InboundMessage { subtype: None, text: None, channel: None, ts: "2.0".to_string(), thread_ts: None };
    assert_eq!(extract_msg_body(&bare), Err(EventError::TextMissing));
    assert_eq!(extract_thread_ts(&bare), "2.0");
    assert_eq!(extract_channel_thread(&bare), Err(EventError::ChannelMissing));
}

#[test]
fn first_word_stops_at_any_white_space() {
    assert_eq!(first_word_of("info\nfoo"), "info");
    assert_eq!(first_word_of("info\tfoo"), "info");
    assert_eq!(first_word_of("info\u{a0}foo"), "info");
}

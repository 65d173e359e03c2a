use slack_cmd_core::{InfoHandler, JiraHandler, JiraHandlerArgs};

#[test]
fn info_report() {
    let h = InfoHandler::new();
    let channels = vec!["general".to_string(), "dev".to_string()];
    assert_eq!(
        h.render(Some("U1"), "bot", "5s", &channels),
        "Bot info:\n- Bot user_id: U1\n- Bot user_name: bot\n- Uptime: 5s\n- Known channels:\ngeneral\ndev"
    );
    assert_eq!(h.render(None, "bot", "1s", &vec![]), "Bot info:\n- Bot user_id: N/A\n- Bot user_name: bot\n- Uptime: 1s\n- Known channels:\n");
    let info = h.info();
    assert_eq!(info.name, "info");
    assert_eq!(info.channels, vec!["*".to_string()]);
}

#[test]
fn jira_host_loses_trailing_slashes() {
    let h = JiraHandler::make("https://x.atlassian.net//", "me@x", "tok", vec!["dev".to_string()]);
    assert_eq!(h.host(), "https://x.atlassian.net");
    assert_eq!(h.issue_url("AB-1"), "https://x.atlassian.net/browse/AB-1");
    assert_eq!(h.issue_endpoint(), "https://x.atlassian.net/rest/api/3/issue");
    assert_eq!(h.info().channels, vec!["dev".to_string()]);
    assert_eq!(JiraHandler::created_reply("u"), "Issue created: u");
}

#[test]
fn jira_defaults_from_thread_root() {
    let args = JiraHandlerArgs { project: "ab".to_string(), title: None, description: None };
    let filled = args.with_defaults("<@U1> the printer is on fire", "<@U1>");
    assert_eq!(filled.title.unwrap(), "slack:  the printer is on fire");
    assert_eq!(filled.description.unwrap(), "Slack message:\n the printer is on fire\n\n");
    let long = "x".repeat(60);
    let args = JiraHandlerArgs { project: "ab".to_string(), title: None, description: Some("d".to_string()) };
    let filled = args.with_defaults(&long, "<@U1>");
    assert_eq!(filled.title.unwrap(), format!("slack: {}", "x".repeat(50)));
    assert_eq!(filled.description.unwrap(), "d");
}

#[test]
fn jira_project_key_is_upper_case() {
    let args = JiraHandlerArgs { project: "ab-x".to_string(), title: None, description: None };
    assert_eq!(args.project_key(), "AB-X");
}

#[test]
fn jira_default_title_cut_within_fifty_bytes() {
    let two_byte = "\u{e9}".repeat(30);
    let args = JiraHandlerArgs { project: "p".to_string(), title: None, description: None };
    assert_eq!(args.with_defaults(&two_byte, "<@U1>").title.unwrap(), format!("slack: {}", "\u{e9}".repeat(25)));
    let odd = format!("a{}", "\u{e9}".repeat(30));
    let args = JiraHandlerArgs { project: "p".to_string(), title: None, description: None };
    assert_eq!(args.with_defaults(&odd, "<@U1>").title.unwrap(), format!("slack: a{}", "\u{e9}".repeat(24)));
}

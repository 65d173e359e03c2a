use slack_cmd_core::{DefaultHelpHandler, HandlerInfo};

fn handler(name: &str, description: &str, channels: &[&str]) -> HandlerInfo {
    HandlerInfo::new(name.to_string(), description.to_string(), channels.iter().map(|c| c.to_string()).collect())
}

#[test]
fn help_same_in_either_registration_order() {
    let a = DefaultHelpHandler::new(&vec![handler("foo", "Foo", &["general"]), handler("bar", "Bar", &["*"])]);
    let b = DefaultHelpHandler::new(&vec![handler("bar", "Bar", &["*"]), handler("foo", "Foo", &["general"])]);
    let expected = "Available commands:\n\u{2022} `help`: Prints this help message\n\u{2022} `bar`: Bar\n\u{2022} `foo`: Foo";
    assert_eq!(a.render(Some("general"), None), expected);
    assert_eq!(b.render(Some("general"), None), expected);
    assert_eq!(a.render(Some("general"), Some("help")), expected);
}

#[test]
fn help_entries_sorted_case_sensitively() {
    let h = DefaultHelpHandler::new(&vec![
        handler("zeta", "z", &["*"]),
        handler("Alpha", "a", &["*"]),
        handler("beta", "b", &["*"]),
        handler("c", "3", &["dev", "dev"]),
        handler("a", "1", &["dev"]),
    ]);
    assert_eq!(
        h.render(Some("dev"), Some("x")),
        "Unknown command: `x`\nAvailable commands:\n\u{2022} `help`: Prints this help message\n\u{2022} `Alpha`: a\n\u{2022} `beta`: b\n\u{2022} `zeta`: z\n\u{2022} `a`: 1\n\u{2022} `c`: 3"
    );
}

#[test]
fn help_without_entries_has_no_bullets_after_synopsis() {
    let h = DefaultHelpHandler::new(&vec![]);
    assert_eq!(h.render(None, None), "Available commands:\n\u{2022} `help`: Prints this help message");
    assert_eq!(h.name(), "help");
    assert_eq!(h.description(), "Prints this help message");
}

#[test]
fn empty_unknown_name_gets_no_notice() {
    let h = DefaultHelpHandler::new(&vec![handler("bar", "Bar", &["*"])]);
    let expected = "Available commands:\n\u{2022} `help`: Prints this help message\n\u{2022} `bar`: Bar";
    assert_eq!(h.render(None, Some("")), expected);
    assert_eq!(h.render(None, Some("nope")), format!("Unknown command: `nope`\n{}", expected));
}

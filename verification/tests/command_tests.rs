use uptime_ledger::command::{chars_of, is_whitespace, parse_command, text_is, Command};

#[test]
fn plain_commands_are_read() {
    assert_eq!(parse_command("/uptime"), Some(Command::Uptime));
    assert_eq!(parse_command("/unclaimed"), Some(Command::Unclaimed));
    assert_eq!(parse_command("/claim"), Some(Command::Claim));
    assert_eq!(parse_command("/deregister"), Some(Command::Deregister));
    assert_eq!(parse_command("/menu"), Some(Command::Menu));
}

#[test]
fn register_takes_the_next_word_as_identifier() {
    assert_eq!(parse_command("/register vm-42"), Some(Command::Register("vm-42".to_string())));
    assert_eq!(
        parse_command("  /register\t\tvm-42  trailing words"),
        Some(Command::Register("vm-42".to_string()))
    );
    assert_eq!(parse_command("/register /uptime"), Some(Command::Register("/uptime".to_string())));
    assert_eq!(parse_command("/register \u{4f60}\u{597d}"), Some(Command::Register("\u{4f60}\u{597d}".to_string())));
}

#[test]
fn register_without_identifier_is_no_command() {
    assert_eq!(parse_command("/register"), None);
    assert_eq!(parse_command("/register "), None);
    assert_eq!(parse_command("/register \n\t "), None);
    assert_eq!(parse_command("@bot /register"), None);
}

#[test]
fn a_leading_mention_is_passed_over() {
    assert_eq!(parse_command("@TestBot /claim"), Some(Command::Claim));
    assert_eq!(parse_command("@TestBot   /register  abc"), Some(Command::Register("abc".to_string())));
    assert_eq!(parse_command("@ /menu"), Some(Command::Menu));
    assert_eq!(parse_command("@TestBot"), None);
    assert_eq!(parse_command("@TestBot claim"), None);
    assert_eq!(parse_command("@a @b /claim"), None);
}

#[test]
fn words_after_a_command_are_ignored() {
    assert_eq!(parse_command("/uptime please"), Some(Command::Uptime));
    assert_eq!(parse_command("\n/claim now\n"), Some(Command::Claim));
}

#[test]
fn other_text_is_no_command() {
    assert_eq!(parse_command(""), None);
    assert_eq!(parse_command("   \t\n"), None);
    assert_eq!(parse_command("hello"), None);
    assert_eq!(parse_command("uptime"), None);
    assert_eq!(parse_command("/"), None);
    assert_eq!(parse_command("/start"), None);
    assert_eq!(parse_command("/Uptime"), None);
    assert_eq!(parse_command("/uptimes"), None);
    assert_eq!(parse_command("/upt"), None);
    assert_eq!(parse_command("/uptime@TestBot"), None);
    assert_eq!(parse_command("hello /uptime"), None);
    assert_eq!(parse_command("/ uptime"), None);
}

#[test]
fn unicode_white_space_separates_words() {
    assert_eq!(parse_command("\u{a0}/register\u{3000}vm\u{2003}x"), Some(Command::Register("vm".to_string())));
    assert_eq!(parse_command("\u{2028}/claim\u{85}"), Some(Command::Claim));
    assert_eq!(parse_command("/register\u{200b}vm"), None);
    assert_eq!(parse_command("/register \u{200b}"), Some(Command::Register("\u{200b}".to_string())));
}

#[test]
fn white_space_is_what_std_calls_white_space() {
    let mut code: u32 = 0;
    while code <= 0x11_0000 {
        if let Some(c) = char::from_u32(code) {
            assert_eq!(is_whitespace(c), c.is_whitespace(), "U+{:04X}", code);
        }
        code += 1;
    }
}

#[test]
fn parse_agrees_with_splitting_at_white_space() {
    for text in [
        "/register a b",
        " @x /register   id ",
        "@x",
        "/menu x",
        "@ /claim",
        "\t/deregister\u{1680}",
        "x /claim",
        "/register\u{a0}\u{a0}q",
    ] {
        let mut words = text.split_whitespace();
        let first = words.next();
        let expected = match first {
            Some(w) if w.starts_with('/') => Some(w),
            Some(w) if w.starts_with('@') => words.next(),
            _ => None,
        }
        .and_then(|name| match name {
            "/register" => words.next().map(|id| Command::Register(id.to_string())),
            "/uptime" => Some(Command::Uptime),
            "/unclaimed" => Some(Command::Unclaimed),
            "/claim" => Some(Command::Claim),
            "/deregister" => Some(Command::Deregister),
            "/menu" => Some(Command::Menu),
            _ => None,
        });
        assert_eq!(parse_command(text), expected, "{:?}", text);
    }
}

#[test]
fn chars_of_gives_every_character() {
    assert_eq!(chars_of(""), Vec::<char>::new());
    assert_eq!(chars_of("a\u{e9}\u{4f60}\u{1f600}z"), vec!['a', '\u{e9}', '\u{4f60}', '\u{1f600}', 'z']);
}

#[test]
fn text_is_compares_whole_lines() {
    assert!(text_is("/start", "/start"));
    assert!(!text_is("/start ", "/start"));
    assert!(!text_is("/star", "/start"));
    assert!(!text_is("", "/start"));
    assert!(text_is("", ""));
}

#[test]
fn a_command_can_be_cloned() {
    let command = Command::Register("vm".to_string());
    assert_eq!(command.clone(), command);
    assert_eq!(Command::Claim.clone(), Command::Claim);
}

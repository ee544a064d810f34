use one_word_story::command::{parse, parse_error_text, Command, ParseError};

#[test]
fn ban_command_parses() {
    match parse("one-word ban silly") {
        Some(Ok(Command::BanWord(w))) => assert_eq!(w, "silly"),
        other => panic!("unexpected: {:?}", other),
    }
}

#[test]
fn unban_command_parses() {
    match parse("one-word unban silly") {
        Some(Ok(Command::UnbanWord(w))) => assert_eq!(w, "silly"),
        other => panic!("unexpected: {:?}", other),
    }
}

#[test]
fn set_channel_mention_parses() {
    match parse("one-word set-channel <#123>") {
        Some(Ok(Command::SetChannel(id))) => assert_eq!(id, 123),
        other => panic!("unexpected: {:?}", other),
    }
}

#[test]
fn set_channel_raw_integer_parses() {
    match parse("one-word set-channel 42") {
        Some(Ok(Command::SetChannel(id))) => assert_eq!(id, 42),
        other => panic!("unexpected: {:?}", other),
    }
}

#[test]
fn set_channel_plus_sign_accepted() {
    match parse("one-word set-channel +5") {
        Some(Ok(Command::SetChannel(id))) => assert_eq!(id, 5),
        other => panic!("unexpected: {:?}", other),
    }
}

#[test]
fn set_channel_non_numeric_rejected() {
    match parse("one-word set-channel abc") {
        Some(Err(ParseError::InvalidChannel)) => {},
        other => panic!("unexpected: {:?}", other),
    }
}

#[test]
fn set_channel_overflow_rejected() {
    match parse("one-word set-channel 99999999999999999999999") {
        Some(Err(ParseError::InvalidChannel)) => {},
        other => panic!("unexpected: {:?}", other),
    }
}

#[test]
fn bare_prefix_is_usage_error() {
    match parse("one-word") {
        Some(Err(ParseError::Usage)) => {},
        other => panic!("unexpected: {:?}", other),
    }
}

#[test]
fn two_tokens_is_usage_error() {
    match parse("one-word ban") {
        Some(Err(ParseError::Usage)) => {},
        other => panic!("unexpected: {:?}", other),
    }
}

#[test]
fn non_command_is_none() {
    assert!(parse("hello").is_none());
    assert!(parse("").is_none());
    assert!(parse(" one-word ban x").is_none());
}

#[test]
fn unknown_subcommand_rejected() {
    match parse("one-word frobnicate x") {
        Some(Err(ParseError::InvalidCommand)) => {},
        other => panic!("unexpected: {:?}", other),
    }
}

#[test]
fn keyword_is_case_insensitive() {
    match parse("one-word BAN Silly") {
        Some(Ok(Command::BanWord(w))) => assert_eq!(w, "Silly"),
        other => panic!("unexpected: {:?}", other),
    }
    match parse("one-word Set-Channel 7") {
        Some(Ok(Command::SetChannel(id))) => assert_eq!(id, 7),
        other => panic!("unexpected: {:?}", other),
    }
}

#[test]
fn error_texts() {
    assert_eq!(
        parse_error_text(&ParseError::Usage),
        "Usage: one-word <set-channel|ban|unban> <arg>"
    );
    assert_eq!(parse_error_text(&ParseError::InvalidCommand), "Invalid command");
    assert_eq!(parse_error_text(&ParseError::InvalidChannel), "Invalid channel");
}

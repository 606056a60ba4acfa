use bors::parser::{BorsCommand, CommandParseError, CommandParser, CommitSha};

const PREFIX: &str = "@bors";

fn parse_commands(text: &str) -> Vec<Result<BorsCommand, CommandParseError>> {
    CommandParser::new(PREFIX.to_string()).parse_commands(text)
}

#[test]
fn no_commands() {
    let cmds = parse_commands(r#"Hi, this PR looks nice!"#);
    assert_eq!(cmds.len(), 0);
}

#[test]
fn missing_command() {
    let cmds = parse_commands(PREFIX);
    assert_eq!(cmds.len(), 1);
    assert!(matches!(cmds[0], Err(CommandParseError::MissingCommand)));
}

#[test]
fn unknown_command() {
    let command = format!("{} foo", PREFIX);
    let cmds = parse_commands(&command);
    assert_eq!(cmds.len(), 1);
    assert!(matches!(
        &cmds[0],
        Err(CommandParseError::UnknownCommand(name)) if name == "foo"
    ));
}

#[test]
fn parse_arg_no_value() {
    let command = format!("{} ping a=", PREFIX);
    let cmds = parse_commands(&command);
    assert_eq!(cmds.len(), 1);
    assert!(matches!(
        &cmds[0],
        Err(CommandParseError::MissingArgValue { arg }) if arg == "a"
    ));
}

#[test]
fn parse_duplicate_key() {
    let command = format!("{} ping a=b a=c", PREFIX);
    let cmds = parse_commands(&command);
    assert_eq!(cmds.len(), 1);
    assert!(matches!(
        &cmds[0],
        Err(CommandParseError::DuplicateArg(key)) if key == "a"
    ));
}

#[test]
fn parse_ping() {
    let command = format!("{} ping", PREFIX);
    let cmds = parse_commands(&command);
    assert_eq!(cmds.len(), 1);
    assert!(matches!(cmds[0], Ok(BorsCommand::Ping)));
}

#[test]
fn parse_ping_unknown_arg() {
    let command = format!("{} ping a", PREFIX);
    let cmds = parse_commands(&command);
    assert_eq!(cmds.len(), 1);
    assert!(matches!(cmds[0], Ok(BorsCommand::Ping)));
}

#[test]
fn parse_command_multiline() {
    let command = format!(
        r#"
line one
{} try
line two"#,
        PREFIX
    );
    let cmds = parse_commands(&command);
    assert_eq!(cmds.len(), 1);
    assert!(matches!(cmds[0], Ok(BorsCommand::Try { parent: None })));
}

#[test]
fn parse_try() {
    let command = format!("{} try", PREFIX);
    let cmds = parse_commands(&command);
    assert_eq!(cmds.len(), 1);
    assert!(matches!(cmds[0], Ok(BorsCommand::Try { parent: None })));
}

#[test]
fn parse_try_parent() {
    let command = format!(
        "{} try parent=ea9c1b050cc8b420c2c211d2177811e564a4dc60",
        PREFIX
    );
    let cmds = parse_commands(&command);
    assert_eq!(cmds.len(), 1);
    assert_eq!(
        cmds[0],
        Ok(BorsCommand::Try {
            parent: Some(CommitSha(
                "ea9c1b050cc8b420c2c211d2177811e564a4dc60".to_string()
            ))
        })
    );
}

#[test]
fn parse_try_parent_invalid() {
    let command = format!("{} try parent=foo", PREFIX);
    let cmds = parse_commands(&command);
    assert_eq!(cmds.len(), 1);
    assert_eq!(
        cmds[0],
        Err(CommandParseError::ValidationError(
            "Try parent has to be a valid commit SHA: SHA must have exactly 40 characters"
                .to_string()
        ))
    );
}

#[test]
fn parse_try_unknown_arg() {
    let command = format!("{} try a", PREFIX);
    let cmds = parse_commands(&command);
    assert_eq!(cmds.len(), 1);
    assert!(matches!(
        &cmds[0],
        Err(CommandParseError::UnknownArg(arg)) if arg == "a"
    ));
}

#[test]
fn parse_try_unknown_kv_arg() {
    let command = format!("{} try a=b", PREFIX);
    let cmds = parse_commands(&command);
    assert_eq!(cmds.len(), 1);
    assert!(matches!(
        &cmds[0],
        Err(CommandParseError::UnknownArg(arg)) if arg == "a"
    ));
}

#[test]
fn parse_try_with_rust_timer() {
    let command = format!(
        r#"
{} try @rust-timer queue
        "#,
        PREFIX
    );
    let cmds = parse_commands(&command);
    assert_eq!(cmds.len(), 1);
    assert!(matches!(cmds[0], Ok(BorsCommand::Try { parent: None })));
}

#[test]
fn parse_try_cancel() {
    let command = format!("{} try cancel", PREFIX);
    let cmds = parse_commands(&command);
    assert_eq!(cmds.len(), 1);
    assert!(matches!(cmds[0], Ok(BorsCommand::TryCancel)));
}

#[test]
fn parse_empty_text() {
    let cmds = parse_commands("");
    assert_eq!(cmds.len(), 0);
}

#[test]
fn parse_prefix_mid_line() {
    let command = format!("some words first {} ping", PREFIX);
    let cmds = parse_commands(&command);
    assert_eq!(cmds.len(), 1);
    assert!(matches!(cmds[0], Ok(BorsCommand::Ping)));
}

#[test]
fn parse_crlf_line_ending() {
    let command = format!("{} ping\r\nno command here", PREFIX);
    let cmds = parse_commands(&command);
    assert_eq!(cmds.len(), 1);
    assert!(matches!(cmds[0], Ok(BorsCommand::Ping)));
}

#[test]
fn parse_key_value_as_command() {
    let command = format!("{} a=b", PREFIX);
    let cmds = parse_commands(&command);
    assert_eq!(cmds.len(), 1);
    assert!(matches!(cmds[0], Err(CommandParseError::MissingCommand)));
}

#[test]
fn parse_two_commands_two_lines() {
    let command = format!("{} ping\n{} try cancel", PREFIX, PREFIX);
    let cmds = parse_commands(&command);
    assert_eq!(cmds.len(), 2);
    assert!(matches!(cmds[0], Ok(BorsCommand::Ping)));
    assert!(matches!(cmds[1], Ok(BorsCommand::TryCancel)));
}

#[test]
fn parse_error_does_not_affect_other_lines() {
    let command = format!("{} foo\n{} ping", PREFIX, PREFIX);
    let cmds = parse_commands(&command);
    assert_eq!(cmds.len(), 2);
    assert!(matches!(
        &cmds[0],
        Err(CommandParseError::UnknownCommand(name)) if name == "foo"
    ));
    assert!(matches!(cmds[1], Ok(BorsCommand::Ping)));
}

#[test]
fn parse_twice_same_results() {
    let command = format!("hello\n{} try parent=foo\n{} ping a=b a=c", PREFIX, PREFIX);
    let first = parse_commands(&command);
    let second = parse_commands(&command);
    assert_eq!(first, second);
}

#[test]
fn parse_triple_duplicate_key_reports_first_repeat() {
    let command = format!("{} ping a=b a=c a=d", PREFIX);
    let cmds = parse_commands(&command);
    assert_eq!(cmds.len(), 1);
    assert_eq!(cmds[0], Err(CommandParseError::DuplicateArg("a".to_string())));
}

#[test]
fn parse_mention_truncates_for_ping() {
    let command = format!("{} ping @rust-timer a=", PREFIX);
    let cmds = parse_commands(&command);
    assert_eq!(cmds.len(), 1);
    assert!(matches!(cmds[0], Ok(BorsCommand::Ping)));
}

#[test]
fn parse_try_parent_sha_too_short() {
    let command = format!(
        "{} try parent=ea9c1b050cc8b420c2c211d2177811e564a4dc6",
        PREFIX
    );
    let cmds = parse_commands(&command);
    assert_eq!(cmds.len(), 1);
    assert_eq!(
        cmds[0],
        Err(CommandParseError::ValidationError(
            "Try parent has to be a valid commit SHA: SHA must have exactly 40 characters"
                .to_string()
        ))
    );
}

#[test]
fn parse_try_parent_sha_too_long() {
    let command = format!(
        "{} try parent=ea9c1b050cc8b420c2c211d2177811e564a4dc601",
        PREFIX
    );
    let cmds = parse_commands(&command);
    assert_eq!(cmds.len(), 1);
    assert!(matches!(cmds[0], Err(CommandParseError::ValidationError(_))));
}

#[test]
fn parse_try_parent_last_wins() {
    let command = format!(
        "{} try parent=ea9c1b050cc8b420c2c211d2177811e564a4dc60 parent2=x",
        PREFIX
    );
    let cmds = parse_commands(&command);
    assert_eq!(cmds.len(), 1);
    assert!(matches!(
        &cmds[0],
        Err(CommandParseError::UnknownArg(arg)) if arg == "parent2"
    ));
}

use weecord::command::{
    command_print, parse_command, set_option, unquote, user_set_option, COMMAND, UserCommand,
};
use weecord::host::{Command, Host};

#[test]
fn command_name() {
    assert_eq!(COMMAND, "discord");
}

#[test]
fn parse_plain_commands() {
    assert_eq!(parse_command(""), UserCommand::Help);
    assert_eq!(parse_command("connect"), UserCommand::Connect);
    assert_eq!(parse_command("disconnect"), UserCommand::Disconnect);
    assert_eq!(parse_command("connect "), UserCommand::Unknown);
    assert_eq!(parse_command("Connect"), UserCommand::Unknown);
    assert_eq!(parse_command("connec"), UserCommand::Unknown);
    assert_eq!(parse_command("disconnected"), UserCommand::Unknown);
    assert_eq!(parse_command("token"), UserCommand::Unknown);
    assert_eq!(parse_command("help"), UserCommand::Unknown);
}

#[test]
fn parse_commands_with_an_argument() {
    assert_eq!(parse_command("token abc"), UserCommand::Token("abc".to_string()));
    assert_eq!(parse_command("token \"abc\""), UserCommand::Token("abc".to_string()));
    assert_eq!(parse_command("token \"\"a\"b\"\""), UserCommand::Token("a\"b".to_string()));
    assert_eq!(parse_command("token \"\""), UserCommand::Token("".to_string()));
    assert_eq!(parse_command("token "), UserCommand::Token("".to_string()));
    assert_eq!(parse_command("query Bob Smith"), UserCommand::Query("Bob Smith".to_string()));
    assert_eq!(parse_command("query \"Bob\""), UserCommand::Query("\"Bob\"".to_string()));
    assert_eq!(parse_command("debug replace"), UserCommand::Debug("replace".to_string()));
    assert_eq!(parse_command("debug "), UserCommand::Debug("".to_string()));
}

#[test]
fn unquote_strips_both_ends_only() {
    let v: Vec<char> = "\"\"a\"b\"".chars().collect();
    let r: String = unquote(&v).into_iter().collect();
    assert_eq!(r, "a\"b");
    let all: Vec<char> = "\"\"\"".chars().collect();
    assert!(unquote(&all).is_empty());
}

#[test]
fn set_option_messages() {
    let old = "old".to_string();
    assert_eq!(set_option(0, Some(&old), "token", "new"), "option successfully changed from old to new");
    assert_eq!(set_option(0, None, "token", "new"), "option successfully set to new");
    assert_eq!(set_option(1, None, "token", "new"), "option successfully set to new");
    assert_eq!(set_option(1, Some(&old), "token", "new"), "option already contained old");
    assert_eq!(set_option(2, Some(&old), "token", "new"), "option token not found");
    assert_eq!(set_option(2, None, "token", "new"), "option token not found");
    assert_eq!(
        set_option(-1, Some(&old), "token", "new"),
        "error when setting option token to new (was old)"
    );
    assert_eq!(set_option(3, None, "token", "new"), "error when setting option token to new");
}

#[test]
fn command_print_goes_to_the_main_buffer() {
    let mut h = Host::new();
    command_print(&mut h, "disconnected");
    user_set_option(&mut h, 0, None, "token", "abc");
    assert_eq!(
        h.take_commands(),
        vec![
            Command::Print { name: "".to_string(), message: "discord: disconnected".to_string() },
            Command::Print {
                name: "".to_string(),
                message: "discord: option successfully set to abc".to_string()
            },
        ]
    );
    assert!(h.take_commands().is_empty());
}

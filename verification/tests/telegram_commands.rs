use infrabot::telegram::{command, TelegramCommand};

#[test]
fn parses_commands() {
    assert_eq!(command("/start"), Some(TelegramCommand::Subscribe));
    assert_eq!(command("/start abc"), Some(TelegramCommand::Approve("abc")));
    assert_eq!(command("/start@infra_bot abc"), Some(TelegramCommand::Approve("abc")));
    assert_eq!(command("/stop"), Some(TelegramCommand::Unsubscribe));
    assert_eq!(command("/status"), Some(TelegramCommand::Status));
    assert_eq!(command("hello"), None);
}

#[test]
fn rejects_extra_arguments_and_unknown_commands() {
    assert_eq!(command("/start a b"), None);
    assert_eq!(command("/stop now"), None);
    assert_eq!(command(""), None);
    assert_eq!(command("  /status  "), Some(TelegramCommand::Status));
    assert_eq!(command("/starting"), None);
}

use music_bot::command::{parse_command, parse_trimmed, queue_reply, same_text, Command};

#[test]
fn parses_each_command() {
    assert_eq!(parse_command("!join"), Some(Command::Join));
    assert_eq!(parse_command("  !pause \n"), Some(Command::Pause));
    assert_eq!(parse_command("!resume"), Some(Command::Resume));
    assert_eq!(parse_command("!skip"), Some(Command::Skip));
    assert_eq!(parse_command("!stop"), Some(Command::Stop));
    assert_eq!(parse_command("!queue"), Some(Command::Queue));
    assert_eq!(parse_command("!leave"), Some(Command::Leave));
    assert_eq!(parse_command("!shutdown"), Some(Command::Shutdown));
}

#[test]
fn play_takes_rest_of_message() {
    assert_eq!(
        parse_command(" !play never gonna give  "),
        Some(Command::Play("never gonna give".to_string()))
    );
    assert_eq!(parse_command("!play"), Some(Command::PlayUsage));
    assert_eq!(parse_trimmed("!play "), Some(Command::Play(String::new())));
}

#[test]
fn ignores_other_messages() {
    assert_eq!(parse_command("hello"), None);
    assert_eq!(parse_command("!dance"), None);
    assert_eq!(parse_command("!playx"), None);
    assert_eq!(parse_command(""), None);
    assert_eq!(parse_trimmed(" !join"), None);
}

#[test]
fn queue_reply_lists_songs() {
    assert_eq!(queue_reply(&Vec::new()), "Queue is empty!");
    let songs = vec!["a".to_string(), "b".to_string(), "c".to_string()];
    assert_eq!(queue_reply(&songs), "**Queue:**\n\u{25b6}\u{fe0f} a\n1. b\n2. c");
    assert_eq!(queue_reply(&vec!["x".to_string()]), "**Queue:**\n\u{25b6}\u{fe0f} x");
}

#[test]
fn text_comparison() {
    assert!(same_text("abc", "abc"));
    assert!(!same_text("abc", "abd"));
    assert!(!same_text("ab", "abc"));
}

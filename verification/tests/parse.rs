use poker::player::Command;
use poker::ui::parse_command;

#[test]
fn plain_words_parse() {
    assert_eq!(parse_command("post blind".to_string()), Ok(Command::PostBlind));
    assert_eq!(parse_command("fold".to_string()), Ok(Command::Fold));
    assert_eq!(parse_command("check".to_string()), Ok(Command::Check));
    assert_eq!(parse_command("call".to_string()), Ok(Command::Call));
    assert_eq!(parse_command("leave".to_string()), Ok(Command::Leave));
}

#[test]
fn raises_parse_with_positive_amounts() {
    assert_eq!(parse_command("raise 50".to_string()), Ok(Command::Raise(50)));
    assert_eq!(parse_command("raise +7".to_string()), Ok(Command::Raise(7)));
    assert_eq!(parse_command("raise 007".to_string()), Ok(Command::Raise(7)));
    assert_eq!(parse_command("raise 2147483647".to_string()), Ok(Command::Raise(2147483647)));
}

#[test]
fn bad_lines_are_rejected() {
    assert_eq!(parse_command("".to_string()), Err(()));
    assert_eq!(parse_command("raise".to_string()), Err(()));
    assert_eq!(parse_command("raise ".to_string()), Err(()));
    assert_eq!(parse_command("raise 0".to_string()), Err(()));
    assert_eq!(parse_command("raise -5".to_string()), Err(()));
    assert_eq!(parse_command("raise +".to_string()), Err(()));
    assert_eq!(parse_command("raise ten".to_string()), Err(()));
    assert_eq!(parse_command("raise 2147483648".to_string()), Err(()));
    assert_eq!(parse_command("raise 99999999999999999999".to_string()), Err(()));
    assert_eq!(parse_command("bet 5".to_string()), Err(()));
    assert_eq!(parse_command("FOLD".to_string()), Err(()));
}

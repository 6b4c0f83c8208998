use server::command::{parse, Command};

#[test]
fn spacing_between_words_does_not_count() {
    assert_eq!(parse("  go \t  north  "), parse("go north"));
    assert_eq!(parse(" say   hello    there "), Command::Say { message: "hello there".to_string() });
    assert_eq!(parse("   "), Command::Invalid("Empty command".to_string()));
}

#[test]
fn command_words_ignore_case() {
    assert_eq!(parse("LOOK"), Command::Look);
    assert_eq!(parse("Attack Snake"), Command::Attack { target: "Snake".to_string() });
    assert_eq!(parse("N"), Command::Go { direction: "north".to_string() });
    assert_eq!(parse("Dance"), Command::Unknown("Dance".to_string()));
}

#[test]
fn directions_come_lowercase_and_spelled_out() {
    assert_eq!(parse("go N"), Command::Go { direction: "north".to_string() });
    assert_eq!(parse("go NorthEast"), Command::Go { direction: "northeast".to_string() });
    assert_eq!(parse("d"), Command::Go { direction: "down".to_string() });
    assert_eq!(parse("go"), Command::Invalid("Go where?".to_string()));
}

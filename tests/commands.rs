use lockframe::commands::{parse, Command};

#[test]
fn parse_message() {
    assert_eq!(parse("hello world"), Command::Message { content: "hello world".into() });
}

#[test]
fn parse_connect() {
    assert_eq!(parse("/connect"), Command::Connect);
}

#[test]
fn parse_create_room() {
    assert_eq!(parse("/create 100"), Command::CreateRoom { room_id: 100 });
}

#[test]
fn parse_create_room_missing_id() {
    assert!(
        matches!(parse("/create"), Command::InvalidArgs { command, .. } if command == "create")
    );
}

#[test]
fn parse_join_room() {
    assert_eq!(parse("/join 200"), Command::JoinRoom { room_id: 200 });
}

#[test]
fn parse_leave() {
    assert_eq!(parse("/leave"), Command::LeaveActiveRoom);
}

#[test]
fn parse_add_member() {
    assert_eq!(parse("/add 42"), Command::AddMember { user_id: 42 });
}

#[test]
fn parse_quit() {
    assert_eq!(parse("/quit"), Command::Quit);
    assert_eq!(parse("/q"), Command::Quit);
}

#[test]
fn parse_unknown_command() {
    assert!(matches!(parse("/unknown"), Command::Unknown { .. }));
}

#[test]
fn parse_empty() {
    assert_eq!(parse(""), Command::Message { content: String::new() });
}

#[test]
fn parse_trims_surrounding_white_space() {
    assert_eq!(parse("  \t hi there \n"), Command::Message { content: "hi there".into() });
    assert_eq!(parse("   "), Command::Message { content: String::new() });
    assert_eq!(parse("\u{3000}/leave\u{a0}"), Command::LeaveActiveRoom);
}

#[test]
fn parse_skips_space_between_words() {
    assert_eq!(parse("/create    7   extra"), Command::CreateRoom { room_id: 7 });
    assert_eq!(parse("/ connect"), Command::Connect);
}

#[test]
fn parse_invalid_arguments() {
    assert_eq!(
        parse("/create abc"),
        Command::InvalidArgs { command: "create".into(), error: "Invalid room ID".into() }
    );
    assert_eq!(
        parse("/join"),
        Command::InvalidArgs { command: "join".into(), error: "Usage: /join <room_id>".into() }
    );
    assert_eq!(
        parse("/add"),
        Command::InvalidArgs { command: "add".into(), error: "Usage: /add <user_id>".into() }
    );
    assert_eq!(
        parse("/add 18446744073709551616"),
        Command::InvalidArgs { command: "add".into(), error: "Invalid user ID".into() }
    );
    assert_eq!(
        parse("/create 340282366920938463463374607431768211456"),
        Command::InvalidArgs { command: "create".into(), error: "Invalid room ID".into() }
    );
}

#[test]
fn parse_number_edges() {
    assert_eq!(parse("/add 18446744073709551615"), Command::AddMember { user_id: u64::MAX });
    assert_eq!(
        parse("/create 340282366920938463463374607431768211455"),
        Command::CreateRoom { room_id: u128::MAX }
    );
    assert_eq!(parse("/join +12"), Command::JoinRoom { room_id: 12 });
    assert!(matches!(parse("/join +"), Command::InvalidArgs { .. }));
    assert!(matches!(parse("/join -1"), Command::InvalidArgs { .. }));
}

#[test]
fn parse_publish_and_unknown_keeps_input() {
    assert_eq!(parse("/publish"), Command::PublishKeyPackage);
    assert_eq!(parse("  /frobnicate now "), Command::Unknown { input: "/frobnicate now".into() });
    assert_eq!(parse("/"), Command::Unknown { input: "/".into() });
}

use chat_core::commands::{parse, Command};
use chat_core::text::{join_from, tokenize};

#[test]
fn tokenize_splits_on_whitespace() {
    let toks = tokenize("  hello \t world  ");
    assert_eq!(toks.len(), 2);
    assert_eq!(toks[0], "hello");
    assert_eq!(toks[1], "world");
}

#[test]
fn tokenize_empty_line() {
    let toks = tokenize("");
    assert_eq!(toks.len(), 0);
    let toks = tokenize("   \t ");
    assert_eq!(toks.len(), 0);
}

#[test]
fn join_from_normalizes_spacing() {
    let toks = tokenize("/pm bob  secret   plan");
    let msg = join_from(&toks, 2);
    assert_eq!(msg, "secret plan");
    let empty = join_from(&toks, 4);
    assert_eq!(empty, "");
}

#[test]
fn parse_known_commands() {
    assert!(matches!(parse("/list"), Command::List));
    assert!(matches!(parse("/view_rooms"), Command::ViewRooms));
    assert!(matches!(parse("/exit"), Command::Exit));
    match parse("/join_room team") {
        Command::JoinRoom(n) => assert_eq!(n, "team"),
        _ => panic!("expected JoinRoom"),
    }
    match parse("/leave_room team") {
        Command::LeaveRoom(n) => assert_eq!(n, "team"),
        _ => panic!("expected LeaveRoom"),
    }
    match parse("/create_room team") {
        Command::CreateRoom(n) => assert_eq!(n, "team"),
        _ => panic!("expected CreateRoom"),
    }
    match parse("/view_users team") {
        Command::ViewUsers(n) => assert_eq!(n, "team"),
        _ => panic!("expected ViewUsers"),
    }
    match parse("/report bob") {
        Command::Report(u) => assert_eq!(u, "bob"),
        _ => panic!("expected Report"),
    }
}

#[test]
fn parse_pm_collects_message() {
    match parse("/pm bob secret  plan") {
        Command::Pm(u, m) => {
            assert_eq!(u, "bob");
            assert_eq!(m, "secret plan");
        }
        _ => panic!("expected Pm"),
    }
}

#[test]
fn parse_m_room_collects_message() {
    match parse("/m_room team hello there") {
        Command::MRoom(n, m) => {
            assert_eq!(n, "team");
            assert_eq!(m, "hello there");
        }
        _ => panic!("expected MRoom"),
    }
}

#[test]
fn parse_help_variants() {
    assert!(matches!(parse("/help"), Command::Help(None)));
    match parse("/help /pm") {
        Command::Help(Some(c)) => assert_eq!(c, "/pm"),
        _ => panic!("expected Help with argument"),
    }
}

#[test]
fn parse_missing_argument_is_malformed() {
    match parse("/pm") {
        Command::Malformed(c) => assert_eq!(c, "/pm"),
        _ => panic!("expected Malformed"),
    }
    assert!(matches!(parse("/join_room"), Command::Malformed(_)));
    assert!(matches!(parse("/leave_room"), Command::Malformed(_)));
    assert!(matches!(parse("/create_room"), Command::Malformed(_)));
    assert!(matches!(parse("/view_users"), Command::Malformed(_)));
    assert!(matches!(parse("/m_room"), Command::Malformed(_)));
    assert!(matches!(parse("/report"), Command::Malformed(_)));
}

#[test]
fn parse_unknown_line_is_global() {
    assert!(matches!(parse("hello everyone"), Command::Global));
    assert!(matches!(parse(""), Command::Global));
    // Command matching is case-sensitive.
    assert!(matches!(parse("/LIST"), Command::Global));
}

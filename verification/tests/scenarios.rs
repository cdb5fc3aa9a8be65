use chat_core::dispatch::{handle_disconnect, handle_line, Action};
use chat_core::envelope::{should_deliver, Envelope, RouteTag};
use chat_core::state::ServerState;

fn connect_three() -> ServerState {
    let mut st = ServerState::new();
    assert!(st.register(String::from("alice"), 1).is_ok());
    assert!(st.register(String::from("bob"), 2).is_ok());
    assert!(st.register(String::from("carol"), 3).is_ok());
    st
}

fn only_reply(acts: &[Action]) -> &String {
    assert_eq!(acts.len(), 1);
    match &acts[0] {
        Action::Reply(t) => t,
        _ => panic!("expected a reply"),
    }
}

fn only_publish(acts: &[Action]) -> &Envelope {
    assert_eq!(acts.len(), 1);
    match &acts[0] {
        Action::Publish(e) => e,
        _ => panic!("expected a publication"),
    }
}

#[test]
fn room_message_scenario() {
    let mut st = connect_three();
    assert_eq!(handle_line(&mut st, "alice", 1, "/create_room team").len(), 0);
    let acts = handle_line(&mut st, "bob", 2, "/join_room team");
    assert_eq!(only_reply(&acts), "You joined room team\n");
    let acts = handle_line(&mut st, "alice", 1, "/join_room team");
    assert_eq!(only_reply(&acts), "You joined room team\n");

    let acts = handle_line(&mut st, "alice", 1, "/m_room team hello");
    let env = only_publish(&acts);
    assert_eq!(env.text, "[team] [alice] hello\n");
    assert_eq!(env.origin, 1);
    assert!(matches!(&env.tag, RouteTag::Room(n) if n == "team"));
    // bob receives it; alice does not observe her own message; carol, not
    // a member, does not observe it either.
    assert!(should_deliver(&st, 2, env));
    assert!(!should_deliver(&st, 1, env));
    assert!(!should_deliver(&st, 3, env));

    // Member lists are private to members.
    let acts = handle_line(&mut st, "carol", 3, "/view_users team");
    assert_eq!(only_reply(&acts), "[i] Member lists are private. Join room to view.\n");
}

#[test]
fn private_message_scenario() {
    let mut st = connect_three();
    let acts = handle_line(&mut st, "alice", 1, "/pm bob secret");
    let env = only_publish(&acts);
    assert_eq!(env.text, "[PM] [alice] secret\n");
    assert!(matches!(env.tag, RouteTag::Private(2)));
    assert!(should_deliver(&st, 2, env));
    // carol receives nothing; neither does the sender.
    assert!(!should_deliver(&st, 3, env));
    assert!(!should_deliver(&st, 1, env));
}

#[test]
fn pm_to_unknown_user() {
    let mut st = connect_three();
    let acts = handle_line(&mut st, "alice", 1, "/pm dave hello");
    assert_eq!(only_reply(&acts), "User not found\n");
}

#[test]
fn disconnect_scenario() {
    let mut st = connect_three();
    let env = handle_disconnect(&mut st, "alice", 1);
    assert_eq!(env.text, "[i] alice disconnected\n");
    assert_eq!(env.origin, 1);
    assert!(matches!(env.tag, RouteTag::System));
    // All other connected users observe the notice.
    assert!(should_deliver(&st, 2, &env));
    assert!(should_deliver(&st, 3, &env));
    assert!(!should_deliver(&st, 1, &env));
    // A subsequent /list no longer includes alice.
    let acts = handle_line(&mut st, "bob", 2, "/list");
    let lines: Vec<&String> = acts
        .iter()
        .map(|a| match a {
            Action::Reply(t) => t,
            _ => panic!("expected replies"),
        })
        .collect();
    assert_eq!(lines.len(), 2);
    assert_eq!(lines[0], "[bob]\n");
    assert_eq!(lines[1], "[carol]\n");
}

#[test]
fn exit_publishes_notice_and_disconnects() {
    let mut st = connect_three();
    let acts = handle_line(&mut st, "alice", 1, "/exit");
    assert_eq!(acts.len(), 2);
    match &acts[0] {
        Action::Publish(env) => {
            assert_eq!(env.text, "[i] alice disconnected\n");
            assert!(matches!(env.tag, RouteTag::System));
            assert_eq!(env.origin, 1);
        }
        _ => panic!("expected a publication first"),
    }
    assert!(matches!(acts[1], Action::Disconnect));
    assert_eq!(st.list().len(), 2);
}

#[test]
fn global_broadcast_of_unmatched_line() {
    let mut st = connect_three();
    let acts = handle_line(&mut st, "bob", 2, "hello everyone");
    let env = only_publish(&acts);
    assert_eq!(env.text, "[glb] [bob] hello everyone\n");
    assert!(matches!(env.tag, RouteTag::Global));
    assert_eq!(env.origin, 2);
    assert!(should_deliver(&st, 1, env));
    assert!(!should_deliver(&st, 2, env));
    assert!(should_deliver(&st, 3, env));
}

#[test]
fn list_and_view_rooms_replies() {
    let mut st = connect_three();
    let acts = handle_line(&mut st, "alice", 1, "/list");
    assert_eq!(acts.len(), 3);
    match &acts[0] {
        Action::Reply(t) => assert_eq!(t, "[alice]\n"),
        _ => panic!("expected a reply"),
    }
    assert_eq!(handle_line(&mut st, "alice", 1, "/create_room team").len(), 0);
    assert_eq!(handle_line(&mut st, "alice", 1, "/create_room misc").len(), 0);
    let acts = handle_line(&mut st, "alice", 1, "/view_rooms");
    let lines: Vec<&String> = acts
        .iter()
        .map(|a| match a {
            Action::Reply(t) => t,
            _ => panic!("expected replies"),
        })
        .collect();
    assert_eq!(lines.len(), 2);
    assert_eq!(lines[0], "[team]\n");
    assert_eq!(lines[1], "[misc]\n");
}

#[test]
fn view_users_lists_members_to_a_member() {
    let mut st = connect_three();
    assert_eq!(handle_line(&mut st, "alice", 1, "/create_room team").len(), 0);
    handle_line(&mut st, "alice", 1, "/join_room team");
    handle_line(&mut st, "bob", 2, "/join_room team");
    let acts = handle_line(&mut st, "alice", 1, "/view_users team");
    let lines: Vec<&String> = acts
        .iter()
        .map(|a| match a {
            Action::Reply(t) => t,
            _ => panic!("expected replies"),
        })
        .collect();
    assert_eq!(lines.len(), 2);
    assert_eq!(lines[0], "[alice]\n");
    assert_eq!(lines[1], "[bob]\n");
}

#[test]
fn room_command_errors() {
    let mut st = connect_three();
    let acts = handle_line(&mut st, "alice", 1, "/join_room team");
    assert_eq!(only_reply(&acts), "Room team does not exist\n");
    let acts = handle_line(&mut st, "alice", 1, "/leave_room team");
    assert_eq!(only_reply(&acts), "Room team does not exist\n");
    let acts = handle_line(&mut st, "alice", 1, "/m_room team hi");
    assert_eq!(only_reply(&acts), "Room does not exist\n");
    let acts = handle_line(&mut st, "alice", 1, "/view_users team");
    assert_eq!(only_reply(&acts), "Room does not exist\n");
    assert_eq!(handle_line(&mut st, "alice", 1, "/create_room team").len(), 0);
    let acts = handle_line(&mut st, "alice", 1, "/m_room team hi");
    assert_eq!(only_reply(&acts), "[i] You are not a member of this room\n");
    let acts = handle_line(&mut st, "alice", 1, "/leave_room team");
    assert_eq!(only_reply(&acts), "[i] You are not a member of this room\n");
}

#[test]
fn create_room_errors_through_dispatch() {
    let mut st = connect_three();
    let acts = handle_line(&mut st, "alice", 1, "/create_room glb");
    assert_eq!(only_reply(&acts), "Room name 'glb' or 'adm' is reserved\n");
    let acts = handle_line(&mut st, "alice", 1, "/create_room adm");
    assert_eq!(only_reply(&acts), "Room name 'glb' or 'adm' is reserved\n");
    assert_eq!(handle_line(&mut st, "alice", 1, "/create_room team").len(), 0);
    let acts = handle_line(&mut st, "bob", 2, "/create_room team");
    assert_eq!(only_reply(&acts), "Room team already exists\n");
}

#[test]
fn report_known_and_unknown_user() {
    let mut st = connect_three();
    let acts = handle_line(&mut st, "alice", 1, "/report bob");
    assert_eq!(acts.len(), 0);
    let acts = handle_line(&mut st, "alice", 1, "/report dave");
    assert_eq!(only_reply(&acts), "User dave does not exist\n");
}

#[test]
fn malformed_commands_get_usage_lines() {
    let mut st = connect_three();
    let acts = handle_line(&mut st, "alice", 1, "/pm");
    assert_eq!(only_reply(&acts), "No recipient provided\n");
    let acts = handle_line(&mut st, "alice", 1, "/report");
    assert_eq!(only_reply(&acts), "No username provided\n");
    let acts = handle_line(&mut st, "alice", 1, "/create_room");
    assert_eq!(only_reply(&acts), "No room name provided\n");
    let acts = handle_line(&mut st, "alice", 1, "/join_room");
    assert_eq!(only_reply(&acts), "No room name provided\n");
}

#[test]
fn help_texts() {
    let mut st = connect_three();
    let acts = handle_line(&mut st, "alice", 1, "/help /exit");
    assert_eq!(only_reply(&acts), "/exit - Disconnect from the server\n");
    let acts = handle_line(&mut st, "alice", 1, "/help /nope");
    assert_eq!(only_reply(&acts), "Command not found\n");
    let acts = handle_line(&mut st, "alice", 1, "/help");
    let text = only_reply(&acts);
    assert!(text.starts_with("use /help <command> to get details on a specific command\n"));
    assert!(text.contains("/m_room      - Send a message to all users in a specific room\n"));
}

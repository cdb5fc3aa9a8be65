use chat_core::envelope::{should_deliver, Envelope, RouteTag};
use chat_core::state::ServerState;

fn three_user_state() -> ServerState {
    let mut st = ServerState::new();
    assert!(st.register(String::from("alice"), 1).is_ok());
    assert!(st.register(String::from("bob"), 2).is_ok());
    assert!(st.register(String::from("carol"), 3).is_ok());
    st
}

#[test]
fn global_reaches_everyone_but_origin() {
    let st = three_user_state();
    let env = Envelope {
        tag: RouteTag::Global,
        text: String::from("[glb] [alice] hi\n"),
        origin: 1,
    };
    assert!(!should_deliver(&st, 1, &env));
    assert!(should_deliver(&st, 2, &env));
    assert!(should_deliver(&st, 3, &env));
}

#[test]
fn system_reaches_everyone_but_origin() {
    let st = three_user_state();
    let env = Envelope {
        tag: RouteTag::System,
        text: String::from("[i] alice disconnected\n"),
        origin: 1,
    };
    assert!(!should_deliver(&st, 1, &env));
    assert!(should_deliver(&st, 2, &env));
    assert!(should_deliver(&st, 3, &env));
}

#[test]
fn private_reaches_exactly_the_recipient() {
    let st = three_user_state();
    let env = Envelope {
        tag: RouteTag::Private(2),
        text: String::from("[PM] [alice] secret\n"),
        origin: 1,
    };
    // Neither the sender nor any third party observes it.
    assert!(!should_deliver(&st, 1, &env));
    assert!(should_deliver(&st, 2, &env));
    assert!(!should_deliver(&st, 3, &env));
}

#[test]
fn room_reaches_current_members_except_origin() {
    let mut st = three_user_state();
    assert!(st.create_room("team").is_ok());
    assert!(st.join_room("team", "alice").is_ok());
    assert!(st.join_room("team", "bob").is_ok());
    let env = Envelope {
        tag: RouteTag::Room(String::from("team")),
        text: String::from("[team] [alice] hello\n"),
        origin: 1,
    };
    assert!(!should_deliver(&st, 1, &env));
    assert!(should_deliver(&st, 2, &env));
    assert!(!should_deliver(&st, 3, &env));
}

#[test]
fn room_membership_is_judged_at_delivery_time() {
    let mut st = three_user_state();
    assert!(st.create_room("team").is_ok());
    assert!(st.join_room("team", "alice").is_ok());
    assert!(st.join_room("team", "bob").is_ok());
    let env = Envelope {
        tag: RouteTag::Room(String::from("team")),
        text: String::from("[team] [alice] hello\n"),
        origin: 1,
    };
    assert!(should_deliver(&st, 2, &env));
    // A member who left between publish and delivery does not receive it.
    assert!(st.leave_room("team", "bob").is_ok());
    assert!(!should_deliver(&st, 2, &env));
    // One who joined in that window does.
    assert!(st.join_room("team", "carol").is_ok());
    assert!(should_deliver(&st, 3, &env));
}

#[test]
fn routing_ignores_payload_prefixes() {
    // Routing is decided by the structured tag, never by sniffing the
    // payload text: a global line that merely looks like a private one is
    // still delivered as global traffic.
    let st = three_user_state();
    let env = Envelope {
        tag: RouteTag::Global,
        text: String::from("[glb] [alice] [PM] [alice] fake\n"),
        origin: 1,
    };
    assert!(!should_deliver(&st, 1, &env));
    assert!(should_deliver(&st, 2, &env));
    assert!(should_deliver(&st, 3, &env));
}

#[test]
fn deregistered_connection_receives_no_room_traffic() {
    let mut st = three_user_state();
    assert!(st.create_room("team").is_ok());
    assert!(st.join_room("team", "bob").is_ok());
    let env = Envelope {
        tag: RouteTag::Room(String::from("team")),
        text: String::from("[team] [alice] hello\n"),
        origin: 1,
    };
    assert!(should_deliver(&st, 2, &env));
    st.deregister("bob");
    assert!(!should_deliver(&st, 2, &env));
}

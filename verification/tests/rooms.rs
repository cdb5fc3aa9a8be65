use chat_core::state::{ChatError, ServerState};

#[test]
fn reserved_names_always_fail() {
    let mut st = ServerState::new();
    assert_eq!(st.create_room("glb"), Err(ChatError::Reserved));
    assert_eq!(st.create_room("adm"), Err(ChatError::Reserved));
    // Still rejected after other rooms exist.
    assert!(st.create_room("team").is_ok());
    assert_eq!(st.create_room("glb"), Err(ChatError::Reserved));
    assert_eq!(st.create_room("adm"), Err(ChatError::Reserved));
}

#[test]
fn reservation_is_case_sensitive() {
    // The reservation check is an exact, case-sensitive comparison:
    // differently-cased spellings are ordinary room names.
    let mut st = ServerState::new();
    assert!(st.create_room("Glb").is_ok());
    assert!(st.create_room("ADM").is_ok());
    let rooms = st.list_rooms();
    assert_eq!(rooms.len(), 2);
    assert_eq!(rooms[0], "Glb");
    assert_eq!(rooms[1], "ADM");
}

#[test]
fn duplicate_room_is_rejected() {
    let mut st = ServerState::new();
    assert!(st.create_room("team").is_ok());
    assert_eq!(st.create_room("team"), Err(ChatError::AlreadyExists));
    assert_eq!(st.list_rooms().len(), 1);
}

#[test]
fn join_requires_existing_room() {
    let mut st = ServerState::new();
    assert!(st.register(String::from("alice"), 1).is_ok());
    assert_eq!(st.join_room("team", "alice"), Err(ChatError::RoomNotFound));
}

#[test]
fn join_and_leave_keep_both_sides_consistent() {
    let mut st = ServerState::new();
    assert!(st.register(String::from("alice"), 1).is_ok());
    assert!(st.register(String::from("bob"), 2).is_ok());
    assert!(st.create_room("team").is_ok());
    assert!(st.join_room("team", "alice").is_ok());
    assert!(st.join_room("team", "bob").is_ok());

    assert!(st.is_member("team", "alice"));
    assert!(st.is_member("team", "bob"));
    let members = st.members("team").expect("room exists");
    assert_eq!(members.len(), 2);
    assert_eq!(members[0], "alice");
    assert_eq!(members[1], "bob");
    // The user's own room list agrees with the member list.
    let alice = st.find("alice").expect("registered");
    assert_eq!(alice.rooms.len(), 1);
    assert_eq!(alice.rooms[0], "team");

    assert!(st.leave_room("team", "alice").is_ok());
    assert!(!st.is_member("team", "alice"));
    assert!(st.is_member("team", "bob"));
    let members = st.members("team").expect("room persists");
    assert_eq!(members.len(), 1);
    assert_eq!(members[0], "bob");
    let alice = st.find("alice").expect("still registered");
    assert_eq!(alice.rooms.len(), 0);
}

#[test]
fn join_twice_changes_nothing() {
    let mut st = ServerState::new();
    assert!(st.register(String::from("alice"), 1).is_ok());
    assert!(st.create_room("team").is_ok());
    assert!(st.join_room("team", "alice").is_ok());
    assert!(st.join_room("team", "alice").is_ok());
    assert_eq!(st.members("team").expect("room exists").len(), 1);
    assert_eq!(st.find("alice").expect("registered").rooms.len(), 1);
}

#[test]
fn leave_errors() {
    let mut st = ServerState::new();
    assert!(st.register(String::from("alice"), 1).is_ok());
    assert_eq!(st.leave_room("team", "alice"), Err(ChatError::RoomNotFound));
    assert!(st.create_room("team").is_ok());
    assert_eq!(st.leave_room("team", "alice"), Err(ChatError::NotAMember));
}

#[test]
fn members_of_missing_room() {
    let st = ServerState::new();
    assert!(matches!(st.members("team"), Err(ChatError::RoomNotFound)));
}

#[test]
fn rooms_persist_when_empty() {
    let mut st = ServerState::new();
    assert!(st.register(String::from("alice"), 1).is_ok());
    assert!(st.create_room("team").is_ok());
    assert!(st.join_room("team", "alice").is_ok());
    assert!(st.leave_room("team", "alice").is_ok());
    let rooms = st.list_rooms();
    assert_eq!(rooms.len(), 1);
    assert_eq!(rooms[0], "team");
}

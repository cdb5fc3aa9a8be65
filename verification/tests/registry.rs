use chat_core::state::{ChatError, ServerState};

#[test]
fn register_and_list_in_order() {
    let mut st = ServerState::new();
    assert!(st.register(String::from("alice"), 1).is_ok());
    assert!(st.register(String::from("bob"), 2).is_ok());
    let names = st.list();
    assert_eq!(names.len(), 2);
    assert_eq!(names[0], "alice");
    assert_eq!(names[1], "bob");
}

#[test]
fn duplicate_username_is_rejected() {
    let mut st = ServerState::new();
    assert!(st.register(String::from("alice"), 1).is_ok());
    assert_eq!(st.register(String::from("alice"), 2), Err(ChatError::DuplicateUsername));
    // The registry still holds exactly one `alice`.
    let names = st.list();
    assert_eq!(names.len(), 1);
    assert_eq!(names[0], "alice");
}

#[test]
fn deregister_then_register_again() {
    let mut st = ServerState::new();
    assert!(st.register(String::from("alice"), 1).is_ok());
    st.deregister("alice");
    assert_eq!(st.list().len(), 0);
    assert!(st.register(String::from("alice"), 3).is_ok());
    assert_eq!(st.list().len(), 1);
}

#[test]
fn deregister_is_idempotent() {
    let mut st = ServerState::new();
    assert!(st.register(String::from("alice"), 1).is_ok());
    st.deregister("nobody");
    assert_eq!(st.list().len(), 1);
    st.deregister("alice");
    st.deregister("alice");
    assert_eq!(st.list().len(), 0);
}

#[test]
fn find_reports_presence_and_address() {
    let mut st = ServerState::new();
    assert!(st.register(String::from("alice"), 7).is_ok());
    let id = st.find("alice").expect("alice is registered");
    assert_eq!(id.username, "alice");
    assert_eq!(id.addr, 7);
    assert_eq!(st.find_addr("alice"), Some(7));
    assert!(st.find("bob").is_none());
    assert_eq!(st.find_addr("bob"), None);
}

#[test]
fn deregister_withdraws_memberships() {
    let mut st = ServerState::new();
    assert!(st.register(String::from("alice"), 1).is_ok());
    assert!(st.create_room("team").is_ok());
    assert!(st.join_room("team", "alice").is_ok());
    assert!(st.is_member("team", "alice"));
    st.deregister("alice");
    // The room persists, but alice is no longer a member of it.
    assert!(!st.is_member("team", "alice"));
    let members = st.members("team").expect("room persists");
    assert_eq!(members.len(), 0);
}

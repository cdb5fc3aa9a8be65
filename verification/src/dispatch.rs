//! The command-dispatch step function of a connection actor.
//!
//! In the `Active` state an actor processes one event at a time: a line of
//! input is parsed and dispatched against the shared state, producing the
//! replies to write back to the issuing connection, the envelopes to
//! publish on the bus, and possibly the decision to close. [`spec_step`]
//! is the functional description of that transition; [`handle_line`]
//! computes it.

use vstd::prelude::*;
use crate::commands::{parse, parse_line, Command, CommandV};
use crate::envelope::{Envelope, EnvelopeV, RouteTag, RouteTagV};
use crate::state::{
    addr_of, members_of, room_named, room_names_of, spec_create_room, spec_deregister,
    spec_is_member, spec_join, spec_leave, user_named, usernames_of, wf, ChatError, ServerState,
    StateV,
};
use crate::text::{
    bracket_line, bracket_line_view, departure_text, departure_text_view, global_text,
    global_text_view, joined_text, joined_view, left_text, left_view, pm_text, pm_text_view,
    room_exists_text, room_exists_view, room_missing_text, room_missing_view, room_text,
    room_text_view, user_missing_text, user_missing_view,
};

verus! {

/// One effect of processing an event: a line written back to the issuing
/// connection, an envelope published on the bus, or closing the session.
pub enum Action {
    /// Written synchronously to the issuing connection alone.
    Reply(String),
    /// Published on the broadcast bus for every consumer to judge.
    Publish(Envelope),
    /// The session ends; the caller stops reading.
    Disconnect,
}

/// Mathematical image of an [`Action`].
#[verifier::ext_equal]
pub enum ActionV {
    Reply(Seq<char>),
    Publish(EnvelopeV),
    Disconnect,
}

impl View for Action {
    type V = ActionV;

    open spec fn view(&self) -> ActionV {
        match self {
            Action::Reply(t) => ActionV::Reply(t@),
            Action::Publish(e) => ActionV::Publish(e@),
            Action::Disconnect => ActionV::Disconnect,
        }
    }
}

impl DeepView for Action {
    type V = ActionV;

    open spec fn deep_view(&self) -> ActionV {
        self.view()
    }
}

/// The outcome of one dispatch step: the state afterwards and the actions
/// to perform, in order.
#[verifier::ext_equal]
pub struct StepV {
    pub state: StateV,
    pub actions: Seq<ActionV>,
}

/// The general help text, listing every command.
pub open spec fn help_general_view() -> Seq<char> {
    "use /help <command> to get details on a specific command\n/list        - List all connected users\n/pm          - Send a private message to any connected user\n/report      - Report a user to the server admin\n/exit        - Disconnect from the server\n/create_room - Create a new chat room\n/join_room   - Join an existing chat room\n/leave_room  - Leave a chat room\n/view_rooms  - View all chat rooms\n/view_users  - View users in a specific chat room\n/m_room      - Send a message to all users in a specific room\n"@
}

/// Builds the general help text.
pub fn help_general_text() -> (r: String)
    ensures
        r@ == help_general_view(),
{
    String::from_str(
        "use /help <command> to get details on a specific command\n/list        - List all connected users\n/pm          - Send a private message to any connected user\n/report      - Report a user to the server admin\n/exit        - Disconnect from the server\n/create_room - Create a new chat room\n/join_room   - Join an existing chat room\n/leave_room  - Leave a chat room\n/view_rooms  - View all chat rooms\n/view_users  - View users in a specific chat room\n/m_room      - Send a message to all users in a specific room\n",
    )
}

/// The detail help text for one command word; an unknown word is answered
/// with `Command not found`.
pub open spec fn help_detail_view(cmd: Seq<char>) -> Seq<char> {
    if cmd == "/create_room"@ {
        "/create_room <room_name> - Create a new chat room.\nUse an underscore between multi-word room names.\nRoom names 'glb' and 'adm' are reserved.\n"@
    } else if cmd == "/join_room"@ {
        "/join_room <room_name> - Join an existing chat room.\nYou must provide a valid room name.\nUse '/view_rooms' to list available rooms.\n"@
    } else if cmd == "/view_rooms"@ {
        "/view_rooms - View all chat rooms.\n"@
    } else if cmd == "/leave_room"@ {
        "/leave_room <room_name> - Leave a chat room.\nYou must be a member of the room to leave it.\n"@
    } else if cmd == "/m_room"@ {
        "/m_room <room_name> <message> - Send a message to all users in a specific room.\nYou must be a member of the room to send a message.\n"@
    } else if cmd == "/view_users"@ {
        "/view_users <room_name> - View users in a specific chat room.\nYou must be a member of the room to view its users.\n"@
    } else if cmd == "/list"@ {
        "/list - List all connected users.\n"@
    } else if cmd == "/report"@ {
        "/report <username> - Report a user to the server admin.\nYou must provide a valid username.\n"@
    } else if cmd == "/pm"@ {
        "/pm <username> <message> - Send a private message to any connected user.\nYou must provide a valid username and a message.\n"@
    } else if cmd == "/exit"@ {
        "/exit - Disconnect from the server\n"@
    } else {
        "Command not found\n"@
    }
}

/// Builds the detail help text for one command word.
pub fn help_detail_text(cmd: &str) -> (r: String)
    ensures
        r@ == help_detail_view(cmd@),
{
    if crate::state::str_eq(cmd, "/create_room") {
        String::from_str(
            "/create_room <room_name> - Create a new chat room.\nUse an underscore between multi-word room names.\nRoom names 'glb' and 'adm' are reserved.\n",
        )
    } else if crate::state::str_eq(cmd, "/join_room") {
        String::from_str(
            "/join_room <room_name> - Join an existing chat room.\nYou must provide a valid room name.\nUse '/view_rooms' to list available rooms.\n",
        )
    } else if crate::state::str_eq(cmd, "/view_rooms") {
        String::from_str("/view_rooms - View all chat rooms.\n")
    } else if crate::state::str_eq(cmd, "/leave_room") {
        String::from_str(
            "/leave_room <room_name> - Leave a chat room.\nYou must be a member of the room to leave it.\n",
        )
    } else if crate::state::str_eq(cmd, "/m_room") {
        String::from_str(
            "/m_room <room_name> <message> - Send a message to all users in a specific room.\nYou must be a member of the room to send a message.\n",
        )
    } else if crate::state::str_eq(cmd, "/view_users") {
        String::from_str(
            "/view_users <room_name> - View users in a specific chat room.\nYou must be a member of the room to view its users.\n",
        )
    } else if crate::state::str_eq(cmd, "/list") {
        String::from_str("/list - List all connected users.\n")
    } else if crate::state::str_eq(cmd, "/report") {
        String::from_str(
            "/report <username> - Report a user to the server admin.\nYou must provide a valid username.\n",
        )
    } else if crate::state::str_eq(cmd, "/pm") {
        String::from_str(
            "/pm <username> <message> - Send a private message to any connected user.\nYou must provide a valid username and a message.\n",
        )
    } else if crate::state::str_eq(cmd, "/exit") {
        String::from_str("/exit - Disconnect from the server\n")
    } else {
        String::from_str("Command not found\n")
    }
}

/// The usage line answering a command whose required argument is missing.
pub open spec fn usage_view(cmd: Seq<char>) -> Seq<char> {
    if cmd == "/pm"@ {
        "No recipient provided\n"@
    } else if cmd == "/report"@ {
        "No username provided\n"@
    } else {
        "No room name provided\n"@
    }
}

/// Builds the usage line for a command missing its argument.
pub fn usage_text(cmd: &str) -> (r: String)
    ensures
        r@ == usage_view(cmd@),
{
    if crate::state::str_eq(cmd, "/pm") {
        String::from_str("No recipient provided\n")
    } else if crate::state::str_eq(cmd, "/report") {
        String::from_str("No username provided\n")
    } else {
        String::from_str("No room name provided\n")
    }
}

/// One `[name]\n` reply per listed name, in order.
pub open spec fn bracket_replies_view(names: Seq<Seq<char>>) -> Seq<ActionV> {
    names.map_values(|u: Seq<char>| ActionV::Reply(bracket_line_view(u)))
}

/// Builds one bracketed reply line per name.
fn bracket_replies(names: &Vec<String>) -> (acts: Vec<Action>)
    ensures
        acts.deep_view() == bracket_replies_view(names.deep_view()),
{
    let ghost dv = names.deep_view();
    let mut acts: Vec<Action> = Vec::new();
    let mut i: usize = 0;
    while i < names.len()
        invariant
            0 <= i <= names@.len(),
            dv == names.deep_view(),
            dv.len() == names@.len(),
            acts.deep_view().len() == i as int,
            forall|k: int|
                0 <= k < i ==> #[trigger] acts.deep_view()[k] == ActionV::Reply(
                    bracket_line_view(dv[k]),
                ),
        decreases names@.len() - i,
    {
        let ghost pre_acts = acts.deep_view();
        let line = bracket_line(names[i].as_str());
        acts.push(Action::Reply(line));
        proof {
            assert(acts.deep_view() =~= pre_acts.push(ActionV::Reply(bracket_line_view(dv[i as int]))));
        }
        i = i + 1;
    }
    proof {
        assert(acts.deep_view() =~= bracket_replies_view(dv));
    }
    acts
}

/// The transition of the dispatch state machine on one line of input from
/// the user `me` connected at `addr`: the shared state afterwards and the
/// actions performed, in order.
pub open spec fn spec_step(pre: StateV, me: Seq<char>, addr: u64, line: Seq<char>) -> StepV {
    match parse_line(line) {
        CommandV::Help(arg) => StepV {
            state: pre,
            actions: seq![
                ActionV::Reply(
                    match arg {
                        Some(c) => help_detail_view(c),
                        None => help_general_view(),
                    },
                ),
            ],
        },
        CommandV::List => StepV { state: pre, actions: bracket_replies_view(usernames_of(pre)) },
        CommandV::Report(t) => StepV {
            state: pre,
            actions: if user_named(pre, t) {
                Seq::empty()
            } else {
                seq![ActionV::Reply(user_missing_view(t))]
            },
        },
        CommandV::Pm(t, msg) => StepV {
            state: pre,
            actions: if user_named(pre, t) {
                seq![
                    ActionV::Publish(
                        EnvelopeV {
                            tag: RouteTagV::Private(addr_of(pre, t)),
                            text: pm_text_view(me, msg),
                            origin: addr,
                        },
                    ),
                ]
            } else {
                seq![ActionV::Reply("User not found\n"@)]
            },
        },
        CommandV::CreateRoom(n) => match spec_create_room(pre, n) {
            Ok(s2) => StepV { state: s2, actions: Seq::empty() },
            Err(ChatError::Reserved) => StepV {
                state: pre,
                actions: seq![ActionV::Reply("Room name 'glb' or 'adm' is reserved\n"@)],
            },
            Err(_) => StepV { state: pre, actions: seq![ActionV::Reply(room_exists_view(n))] },
        },
        CommandV::JoinRoom(n) => match spec_join(pre, n, me) {
            Ok(s2) => StepV { state: s2, actions: seq![ActionV::Reply(joined_view(n))] },
            Err(_) => StepV { state: pre, actions: seq![ActionV::Reply(room_missing_view(n))] },
        },
        CommandV::LeaveRoom(n) => match spec_leave(pre, n, me) {
            Ok(s2) => StepV { state: s2, actions: seq![ActionV::Reply(left_view(n))] },
            Err(ChatError::RoomNotFound) => StepV {
                state: pre,
                actions: seq![ActionV::Reply(room_missing_view(n))],
            },
            Err(_) => StepV {
                state: pre,
                actions: seq![ActionV::Reply("[i] You are not a member of this room\n"@)],
            },
        },
        CommandV::ViewRooms => StepV {
            state: pre,
            actions: bracket_replies_view(room_names_of(pre)),
        },
        CommandV::ViewUsers(n) => StepV {
            state: pre,
            actions: if !room_named(pre, n) {
                seq![ActionV::Reply("Room does not exist\n"@)]
            } else if !spec_is_member(pre, n, me) {
                seq![ActionV::Reply("[i] Member lists are private. Join room to view.\n"@)]
            } else {
                bracket_replies_view(members_of(pre, n))
            },
        },
        CommandV::MRoom(n, msg) => StepV {
            state: pre,
            actions: if !room_named(pre, n) {
                seq![ActionV::Reply("Room does not exist\n"@)]
            } else if !spec_is_member(pre, n, me) {
                seq![ActionV::Reply("[i] You are not a member of this room\n"@)]
            } else {
                seq![
                    ActionV::Publish(
                        EnvelopeV {
                            tag: RouteTagV::Room(n),
                            text: room_text_view(n, me, msg),
                            origin: addr,
                        },
                    ),
                ]
            },
        },
        CommandV::Exit => StepV {
            state: spec_deregister(pre, me),
            actions: seq![
                ActionV::Publish(
                    EnvelopeV {
                        tag: RouteTagV::System,
                        text: departure_text_view(me),
                        origin: addr,
                    },
                ),
                ActionV::Disconnect,
            ],
        },
        CommandV::Global => StepV {
            state: pre,
            actions: seq![
                ActionV::Publish(
                    EnvelopeV {
                        tag: RouteTagV::Global,
                        text: global_text_view(me, line),
                        origin: addr,
                    },
                ),
            ],
        },
        CommandV::Malformed(c) => StepV {
            state: pre,
            actions: seq![ActionV::Reply(usage_view(c))],
        },
    }
}

/// Dispatches one line of input from the registered user `me` connected at
/// `addr`, mutating the shared state and returning the actions to perform,
/// exactly as [`spec_step`] describes.
pub fn handle_line(state: &mut ServerState, me: &str, addr: u64, line: &str) -> (acts: Vec<Action>)
    requires
        wf(old(state)@),
        user_named(old(state)@, me@),
    ensures
        wf(final(state)@),
        final(state)@ == spec_step(old(state)@, me@, addr, line@).state,
        acts.deep_view() == spec_step(old(state)@, me@, addr, line@).actions,
{
    let ghost pre = state@;
    let ghost expect = spec_step(pre, me@, addr, line@);
    let cmd = parse(line);
    let mut acts: Vec<Action> = Vec::new();
    match cmd {
        Command::Help(arg) => {
            let t = match &arg {
                Some(c) => help_detail_text(c.as_str()),
                None => help_general_text(),
            };
            acts.push(Action::Reply(t));
            proof {
                assert(acts.deep_view() =~= expect.actions);
            }
        },
        Command::List => {
            let names = state.list();
            acts = bracket_replies(&names);
            proof {
                assert(acts.deep_view() =~= expect.actions);
            }
        },
        Command::Report(t) => {
            match state.find(t.as_str()) {
                Some(_) => {
                    proof {
                        assert(acts.deep_view() =~= expect.actions);
                    }
                },
                None => {
                    acts.push(Action::Reply(user_missing_text(t.as_str())));
                    proof {
                        assert(acts.deep_view() =~= expect.actions);
                    }
                },
            }
        },
        Command::Pm(t, msg) => {
            match state.find_addr(t.as_str()) {
                Some(a) => {
                    let env = Envelope {
                        tag: RouteTag::Private(a),
                        text: pm_text(me, msg.as_str()),
                        origin: addr,
                    };
                    acts.push(Action::Publish(env));
                    proof {
                        assert(acts.deep_view() =~= expect.actions);
                    }
                },
                None => {
                    acts.push(Action::Reply(String::from_str("User not found\n")));
                    proof {
                        assert(acts.deep_view() =~= expect.actions);
                    }
                },
            }
        },
        Command::CreateRoom(n) => {
            match state.create_room(n.as_str()) {
                Ok(()) => {
                    proof {
                        assert(acts.deep_view() =~= expect.actions);
                    }
                },
                Err(ChatError::Reserved) => {
                    acts.push(
                        Action::Reply(String::from_str("Room name 'glb' or 'adm' is reserved\n")),
                    );
                    proof {
                        assert(acts.deep_view() =~= expect.actions);
                    }
                },
                Err(_) => {
                    acts.push(Action::Reply(room_exists_text(n.as_str())));
                    proof {
                        assert(acts.deep_view() =~= expect.actions);
                    }
                },
            }
        },
        Command::JoinRoom(n) => {
            match state.join_room(n.as_str(), me) {
                Ok(()) => {
                    acts.push(Action::Reply(joined_text(n.as_str())));
                    proof {
                        assert(acts.deep_view() =~= expect.actions);
                    }
                },
                Err(_) => {
                    acts.push(Action::Reply(room_missing_text(n.as_str())));
                    proof {
                        assert(acts.deep_view() =~= expect.actions);
                    }
                },
            }
        },
        Command::LeaveRoom(n) => {
            match state.leave_room(n.as_str(), me) {
                Ok(()) => {
                    acts.push(Action::Reply(left_text(n.as_str())));
                    proof {
                        assert(acts.deep_view() =~= expect.actions);
                    }
                },
                Err(ChatError::RoomNotFound) => {
                    acts.push(Action::Reply(room_missing_text(n.as_str())));
                    proof {
                        assert(acts.deep_view() =~= expect.actions);
                    }
                },
                Err(_) => {
                    acts.push(
                        Action::Reply(String::from_str("[i] You are not a member of this room\n")),
                    );
                    proof {
                        assert(acts.deep_view() =~= expect.actions);
                    }
                },
            }
        },
        Command::ViewRooms => {
            let names = state.list_rooms();
            acts = bracket_replies(&names);
            proof {
                assert(acts.deep_view() =~= expect.actions);
            }
        },
        Command::ViewUsers(n) => {
            if !state.room_exists(n.as_str()) {
                acts.push(Action::Reply(String::from_str("Room does not exist\n")));
                proof {
                    assert(acts.deep_view() =~= expect.actions);
                }
            } else if !state.is_member(n.as_str(), me) {
                acts.push(
                    Action::Reply(
                        String::from_str("[i] Member lists are private. Join room to view.\n"),
                    ),
                );
                proof {
                    assert(acts.deep_view() =~= expect.actions);
                }
            } else {
                match state.members(n.as_str()) {
                    Ok(ms) => {
                        acts = bracket_replies(&ms);
                        proof {
                            assert(acts.deep_view() =~= expect.actions);
                        }
                    },
                    Err(_) => {
                        // Unreachable: the room was just seen to exist.
                        proof {
                            assert(false);
                        }
                    },
                }
            }
        },
        Command::MRoom(n, msg) => {
            if !state.room_exists(n.as_str()) {
                acts.push(Action::Reply(String::from_str("Room does not exist\n")));
                proof {
                    assert(acts.deep_view() =~= expect.actions);
                }
            } else if !state.is_member(n.as_str(), me) {
                acts.push(
                    Action::Reply(String::from_str("[i] You are not a member of this room\n")),
                );
                proof {
                    assert(acts.deep_view() =~= expect.actions);
                }
            } else {
                let text = room_text(n.as_str(), me, msg.as_str());
                let env = Envelope { tag: RouteTag::Room(n), text, origin: addr };
                acts.push(Action::Publish(env));
                proof {
                    assert(acts.deep_view() =~= expect.actions);
                }
            }
        },
        Command::Exit => {
            state.deregister(me);
            let env = Envelope { tag: RouteTag::System, text: departure_text(me), origin: addr };
            acts.push(Action::Publish(env));
            acts.push(Action::Disconnect);
            proof {
                assert(acts.deep_view() =~= expect.actions);
            }
        },
        Command::Global => {
            let env = Envelope {
                tag: RouteTag::Global,
                text: global_text(me, line),
                origin: addr,
            };
            acts.push(Action::Publish(env));
            proof {
                assert(acts.deep_view() =~= expect.actions);
            }
        },
        Command::Malformed(c) => {
            acts.push(Action::Reply(usage_text(c.as_str())));
            proof {
                assert(acts.deep_view() =~= expect.actions);
            }
        },
    }
    proof {
        assert(state@ =~= expect.state);
    }
    acts
}

/// Handles the end of a connection's input stream: deregisters the user
/// and hands back the departure notice to publish, tagged with the
/// departing connection's address as origin.
pub fn handle_disconnect(state: &mut ServerState, me: &str, addr: u64) -> (env: Envelope)
    requires
        wf(old(state)@),
    ensures
        wf(final(state)@),
        final(state)@ == spec_deregister(old(state)@, me@),
        env@ == (EnvelopeV {
            tag: RouteTagV::System,
            text: departure_text_view(me@),
            origin: addr,
        }),
{
    state.deregister(me);
    Envelope { tag: RouteTag::System, text: departure_text(me), origin: addr }
}

} // verus!

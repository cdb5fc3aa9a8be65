//! Parsing one line of client input into a command.
//!
//! The first whitespace-delimited token selects the command,
//! case-sensitively; the remainder is command-specific argument text. A
//! line matching no known command is a global broadcast. A known command
//! missing its required argument parses to [`Command::Malformed`], which
//! the dispatcher answers with a usage line instead of failing.

use vstd::prelude::*;
use crate::text::{join_from, join_tokens, tokenize, tokens_of};

verus! {

/// One parsed line of client input.
pub enum Command {
    /// `/help`, with an optional command word to describe.
    Help(Option<String>),
    /// `/list`: one line per connected username.
    List,
    /// `/report <user>`.
    Report(String),
    /// `/pm <user> <message...>`.
    Pm(String, String),
    /// `/create_room <name>`.
    CreateRoom(String),
    /// `/join_room <name>`.
    JoinRoom(String),
    /// `/leave_room <name>`.
    LeaveRoom(String),
    /// `/view_rooms`: one line per room name.
    ViewRooms,
    /// `/view_users <name>`: one line per member.
    ViewUsers(String),
    /// `/m_room <name> <message...>`.
    MRoom(String, String),
    /// `/exit`: close this connection.
    Exit,
    /// Anything else: broadcast the line globally.
    Global,
    /// A known command word missing its required argument.
    Malformed(String),
}

/// Mathematical image of a [`Command`].
#[verifier::ext_equal]
pub enum CommandV {
    Help(Option<Seq<char>>),
    List,
    Report(Seq<char>),
    Pm(Seq<char>, Seq<char>),
    CreateRoom(Seq<char>),
    JoinRoom(Seq<char>),
    LeaveRoom(Seq<char>),
    ViewRooms,
    ViewUsers(Seq<char>),
    MRoom(Seq<char>, Seq<char>),
    Exit,
    Global,
    Malformed(Seq<char>),
}

impl View for Command {
    type V = CommandV;

    open spec fn view(&self) -> CommandV {
        match self {
            Command::Help(arg) => CommandV::Help(
                match arg {
                    Some(a) => Some(a@),
                    None => None,
                },
            ),
            Command::List => CommandV::List,
            Command::Report(u) => CommandV::Report(u@),
            Command::Pm(u, m) => CommandV::Pm(u@, m@),
            Command::CreateRoom(n) => CommandV::CreateRoom(n@),
            Command::JoinRoom(n) => CommandV::JoinRoom(n@),
            Command::LeaveRoom(n) => CommandV::LeaveRoom(n@),
            Command::ViewRooms => CommandV::ViewRooms,
            Command::ViewUsers(n) => CommandV::ViewUsers(n@),
            Command::MRoom(n, m) => CommandV::MRoom(n@, m@),
            Command::Exit => CommandV::Exit,
            Command::Global => CommandV::Global,
            Command::Malformed(c) => CommandV::Malformed(c@),
        }
    }
}

/// What one line of input means: the first token selects the command, the
/// second is its argument, and for the messaging commands the remaining
/// tokens joined by single spaces are the message text.
pub open spec fn parse_line(line: Seq<char>) -> CommandV {
    let ts = tokens_of(line);
    if ts.len() == 0 {
        CommandV::Global
    } else {
        let c = ts[0];
        if c == "/help"@ {
            CommandV::Help(
                if ts.len() >= 2 {
                    Some(ts[1])
                } else {
                    None
                },
            )
        } else if c == "/list"@ {
            CommandV::List
        } else if c == "/report"@ {
            if ts.len() >= 2 {
                CommandV::Report(ts[1])
            } else {
                CommandV::Malformed(c)
            }
        } else if c == "/pm"@ {
            if ts.len() >= 2 {
                CommandV::Pm(ts[1], join_tokens(ts.skip(2)))
            } else {
                CommandV::Malformed(c)
            }
        } else if c == "/create_room"@ {
            if ts.len() >= 2 {
                CommandV::CreateRoom(ts[1])
            } else {
                CommandV::Malformed(c)
            }
        } else if c == "/join_room"@ {
            if ts.len() >= 2 {
                CommandV::JoinRoom(ts[1])
            } else {
                CommandV::Malformed(c)
            }
        } else if c == "/leave_room"@ {
            if ts.len() >= 2 {
                CommandV::LeaveRoom(ts[1])
            } else {
                CommandV::Malformed(c)
            }
        } else if c == "/view_rooms"@ {
            CommandV::ViewRooms
        } else if c == "/view_users"@ {
            if ts.len() >= 2 {
                CommandV::ViewUsers(ts[1])
            } else {
                CommandV::Malformed(c)
            }
        } else if c == "/m_room"@ {
            if ts.len() >= 2 {
                CommandV::MRoom(ts[1], join_tokens(ts.skip(2)))
            } else {
                CommandV::Malformed(c)
            }
        } else if c == "/exit"@ {
            CommandV::Exit
        } else {
            CommandV::Global
        }
    }
}

/// Parses one line of client input.
pub fn parse(line: &str) -> (c: Command)
    ensures
        c@ == parse_line(line@),
{
    let toks = tokenize(line);
    let ghost ts = toks.deep_view();
    if toks.len() == 0 {
        return Command::Global;
    }
    proof {
        assert(ts[0] == toks@[0]@);
    }
    let head = &toks[0];
    if crate::state::str_eq(head.as_str(), "/help") {
        if toks.len() >= 2 {
            proof {
                assert(ts[1] == toks@[1]@);
            }
            Command::Help(Some(toks[1].clone()))
        } else {
            Command::Help(None)
        }
    } else if crate::state::str_eq(head.as_str(), "/list") {
        Command::List
    } else if crate::state::str_eq(head.as_str(), "/report") {
        if toks.len() >= 2 {
            proof {
                assert(ts[1] == toks@[1]@);
            }
            Command::Report(toks[1].clone())
        } else {
            Command::Malformed(head.clone())
        }
    } else if crate::state::str_eq(head.as_str(), "/pm") {
        if toks.len() >= 2 {
            let msg = join_from(&toks, 2);
            proof {
                assert(ts[1] == toks@[1]@);
            }
            Command::Pm(toks[1].clone(), msg)
        } else {
            Command::Malformed(head.clone())
        }
    } else if crate::state::str_eq(head.as_str(), "/create_room") {
        if toks.len() >= 2 {
            proof {
                assert(ts[1] == toks@[1]@);
            }
            Command::CreateRoom(toks[1].clone())
        } else {
            Command::Malformed(head.clone())
        }
    } else if crate::state::str_eq(head.as_str(), "/join_room") {
        if toks.len() >= 2 {
            proof {
                assert(ts[1] == toks@[1]@);
            }
            Command::JoinRoom(toks[1].clone())
        } else {
            Command::Malformed(head.clone())
        }
    } else if crate::state::str_eq(head.as_str(), "/leave_room") {
        if toks.len() >= 2 {
            proof {
                assert(ts[1] == toks@[1]@);
            }
            Command::LeaveRoom(toks[1].clone())
        } else {
            Command::Malformed(head.clone())
        }
    } else if crate::state::str_eq(head.as_str(), "/view_rooms") {
        Command::ViewRooms
    } else if crate::state::str_eq(head.as_str(), "/view_users") {
        if toks.len() >= 2 {
            proof {
                assert(ts[1] == toks@[1]@);
            }
            Command::ViewUsers(toks[1].clone())
        } else {
            Command::Malformed(head.clone())
        }
    } else if crate::state::str_eq(head.as_str(), "/m_room") {
        if toks.len() >= 2 {
            let msg = join_from(&toks, 2);
            proof {
                assert(ts[1] == toks@[1]@);
            }
            Command::MRoom(toks[1].clone(), msg)
        } else {
            Command::Malformed(head.clone())
        }
    } else if crate::state::str_eq(head.as_str(), "/exit") {
        Command::Exit
    } else {
        Command::Global
    }
}

} // verus!

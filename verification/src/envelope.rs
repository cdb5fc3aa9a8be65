//! Broadcast envelopes and the fan-out routing policy.
//!
//! The bus carries every published envelope to every live connection; each
//! connection decides for itself, against the live registry, whether the
//! envelope is addressed to it. [`spec_delivers`] is that decision, and
//! [`should_deliver`] computes it.

use vstd::prelude::*;
use crate::state::{room_named, spec_is_member, wf, Identity, ServerState, StateV};

verus! {

/// How an envelope is routed.
#[derive(Clone)]
pub enum RouteTag {
    /// To every connection but the origin.
    Global,
    /// To the current members of the named room, but not the origin.
    Room(String),
    /// To the one connection holding this address.
    Private(u64),
    /// A service notice: to every connection but the origin.
    System,
}

/// One message unit on the broadcast bus; transient, never persisted.
#[derive(Clone)]
pub struct Envelope {
    pub tag: RouteTag,
    /// The full payload line written to a receiving connection.
    pub text: String,
    /// Address of the originating connection.
    pub origin: u64,
}

/// Mathematical image of a [`RouteTag`].
#[verifier::ext_equal]
pub enum RouteTagV {
    Global,
    Room(Seq<char>),
    Private(u64),
    System,
}

/// Mathematical image of an [`Envelope`].
#[verifier::ext_equal]
pub struct EnvelopeV {
    pub tag: RouteTagV,
    pub text: Seq<char>,
    pub origin: u64,
}

impl View for RouteTag {
    type V = RouteTagV;

    open spec fn view(&self) -> RouteTagV {
        match self {
            RouteTag::Global => RouteTagV::Global,
            RouteTag::Room(n) => RouteTagV::Room(n@),
            RouteTag::Private(a) => RouteTagV::Private(*a),
            RouteTag::System => RouteTagV::System,
        }
    }
}

impl View for Envelope {
    type V = EnvelopeV;

    open spec fn view(&self) -> EnvelopeV {
        EnvelopeV { tag: self.tag@, text: self.text@, origin: self.origin }
    }
}

/// Whether the connection holding address `me` observes `env`, judged
/// against the live registry `s`: global and system traffic reaches
/// everyone but the origin, private traffic reaches exactly the recipient
/// address, and room traffic reaches the connections whose user is a
/// member of the room at delivery time, the origin excepted.
pub open spec fn spec_delivers(s: StateV, me: u64, env: EnvelopeV) -> bool {
    match env.tag {
        RouteTagV::Global => env.origin != me,
        RouteTagV::System => env.origin != me,
        RouteTagV::Private(rcpt) => me == rcpt,
        RouteTagV::Room(n) => env.origin != me && exists|i: int|
            0 <= i < s.users.len() && (#[trigger] s.users[i]).addr == me
                && s.users[i].rooms.contains(n),
    }
}

/// First position in the registry holding this connection address.
fn find_index_by_addr(users: &Vec<Identity>, addr: u64) -> (r: Option<usize>)
    ensures
        match r {
            Some(i) => i < users@.len() && users.deep_view()[i as int].addr == addr,
            None => forall|k: int|
                0 <= k < users.deep_view().len() ==> (#[trigger] users.deep_view()[k]).addr
                    != addr,
        },
{
    let ghost dv = users.deep_view();
    let mut i: usize = 0;
    while i < users.len()
        invariant
            0 <= i <= users@.len(),
            dv == users.deep_view(),
            dv.len() == users@.len(),
            forall|k: int| 0 <= k < i ==> (#[trigger] dv[k]).addr != addr,
        decreases users@.len() - i,
    {
        if users[i].addr == addr {
            proof {
                assert(dv[i as int].addr == addr);
            }
            return Some(i);
        }
        proof {
            assert(dv[i as int].addr != addr);
        }
        i = i + 1;
    }
    None
}

/// The per-connection routing decision, evaluated against the live
/// registry for every envelope received.
pub fn should_deliver(state: &ServerState, me: u64, env: &Envelope) -> (b: bool)
    requires
        wf(state@),
    ensures
        b == spec_delivers(state@, me, env@),
{
    match &env.tag {
        RouteTag::Global => env.origin != me,
        RouteTag::System => env.origin != me,
        RouteTag::Private(rcpt) => me == *rcpt,
        RouteTag::Room(n) => {
            if env.origin == me {
                false
            } else {
                match find_index_by_addr(&state.users, me) {
                    None => {
                        proof {
                            if spec_delivers(state@, me, env@) {
                                let i = choose|i: int|
                                    0 <= i < state@.users.len() && (
                                    #[trigger] state@.users[i]).addr == me
                                        && state@.users[i].rooms.contains(n@);
                                assert(state@.users[i].addr == me);
                            }
                        }
                        false
                    },
                    Some(i) => {
                        let b = crate::state::contains_name(&state.users[i].rooms, n.as_str());
                        proof {
                            if b {
                                assert(spec_delivers(state@, me, env@));
                            } else if spec_delivers(state@, me, env@) {
                                let k = choose|k: int|
                                    0 <= k < state@.users.len() && (
                                    #[trigger] state@.users[k]).addr == me
                                        && state@.users[k].rooms.contains(n@);
                                if k != i as int {
                                    assert(state@.users[k].addr != state@.users[i as int].addr);
                                }
                            }
                        }
                        b
                    },
                }
            }
        },
    }
}

/// A private envelope is observed by exactly one connection: the one whose
/// address is the recipient. The sender, when distinct from the recipient,
/// and every third party discard it.
pub proof fn lemma_private_exactly_one(s: StateV, env: EnvelopeV, rcpt: u64)
    requires
        env.tag == RouteTagV::Private(rcpt),
    ensures
        forall|a: u64| #[trigger] spec_delivers(s, a, env) <==> a == rcpt,
        env.origin != rcpt ==> !spec_delivers(s, env.origin, env),
        forall|a1: u64, a2: u64|
            spec_delivers(s, a1, env) && spec_delivers(s, a2, env) ==> a1 == a2,
{
}

/// A room envelope is observed by all and only the connections whose user
/// is a current member of the room, judged at delivery time, the sender
/// excepted.
pub proof fn lemma_room_delivery(s: StateV, env: EnvelopeV, n: Seq<char>, a: u64)
    requires
        wf(s),
        env.tag == RouteTagV::Room(n),
    ensures
        spec_delivers(s, a, env) <==> (a != env.origin && exists|i: int|
            0 <= i < s.users.len() && (#[trigger] s.users[i]).addr == a && spec_is_member(
                s,
                n,
                s.users[i].username,
            )),
{
    if spec_delivers(s, a, env) {
        let i = choose|i: int|
            0 <= i < s.users.len() && (#[trigger] s.users[i]).addr == a
                && s.users[i].rooms.contains(n);
        let id = s.users[i];
        let k = choose|k: int| 0 <= k < id.rooms.len() && id.rooms[k] == n;
        assert(room_named(s, id.rooms[k]));
        let j = choose|j: int| 0 <= j < s.rooms.len() && s.rooms[j].name == n;
        assert(s.rooms[j].members.contains(id.username) <==> id.rooms.contains(s.rooms[j].name));
        assert(s.rooms[j].members.contains(id.username));
        assert(spec_is_member(s, n, id.username));
    }
    if a != env.origin && exists|i: int|
        0 <= i < s.users.len() && (#[trigger] s.users[i]).addr == a && spec_is_member(
            s,
            n,
            s.users[i].username,
        ) {
        let i = choose|i: int|
            0 <= i < s.users.len() && (#[trigger] s.users[i]).addr == a && spec_is_member(
                s,
                n,
                s.users[i].username,
            );
        let id = s.users[i];
        let j = choose|j: int|
            0 <= j < s.rooms.len() && s.rooms[j].name == n && s.rooms[j].members.contains(
                id.username,
            );
        assert(s.rooms[j].members.contains(id.username) <==> id.rooms.contains(s.rooms[j].name));
        assert(id.rooms.contains(n));
        assert(spec_delivers(s, a, env));
    }
}

} // verus!

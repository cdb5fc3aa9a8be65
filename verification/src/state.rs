//! The shared chat state: the user registry and the room directory.
//!
//! Both structures are mutated together under one exclusion scope, so this
//! module models them as one [`ServerState`] value whose operations keep the
//! well-formedness invariant [`wf`]: usernames and connection addresses are
//! unique, room names are unique and never reserved, and a username appears
//! in a room's member list exactly when that room's name appears in the
//! user's own room list.

use vstd::prelude::*;
use vstd::seq_lib::*;

verus! {

/// Errors surfaced to the issuing client; they never terminate a connection.
#[derive(Clone, Copy, PartialEq, Eq, Structural, Debug)]
pub enum ChatError {
    /// A user with this username is already registered.
    DuplicateUsername,
    /// No registered user carries this username.
    UserNotFound,
    /// No room carries this name.
    RoomNotFound,
    /// The issuing user is not a member of the named room.
    NotAMember,
    /// The room name is reserved and can never be assigned.
    Reserved,
    /// A room with this name already exists.
    AlreadyExists,
}

/// The server-side record of one connected client.
pub struct Identity {
    /// Unique among currently connected users.
    pub username: String,
    /// Opaque connection endpoint identifier, unique per connection.
    pub addr: u64,
    /// Names of the rooms this user is currently a member of.
    pub rooms: Vec<String>,
}

/// A named group with its own membership list; rooms persist for the
/// process lifetime even when empty.
pub struct Room {
    /// Unique, case-sensitive; `"glb"` and `"adm"` are reserved.
    pub name: String,
    /// Usernames of the current members.
    pub members: Vec<String>,
}

/// The registry of connected users and the directory of rooms.
pub struct ServerState {
    pub users: Vec<Identity>,
    pub rooms: Vec<Room>,
}

/// Mathematical image of an [`Identity`].
#[verifier::ext_equal]
pub struct IdentityV {
    pub username: Seq<char>,
    pub addr: u64,
    pub rooms: Seq<Seq<char>>,
}

/// Mathematical image of a [`Room`].
#[verifier::ext_equal]
pub struct RoomV {
    pub name: Seq<char>,
    pub members: Seq<Seq<char>>,
}

/// Mathematical image of the whole shared state.
#[verifier::ext_equal]
pub struct StateV {
    pub users: Seq<IdentityV>,
    pub rooms: Seq<RoomV>,
}

impl View for Identity {
    type V = IdentityV;

    open spec fn view(&self) -> IdentityV {
        IdentityV { username: self.username@, addr: self.addr, rooms: self.rooms.deep_view() }
    }
}

impl DeepView for Identity {
    type V = IdentityV;

    open spec fn deep_view(&self) -> IdentityV {
        self.view()
    }
}

impl View for Room {
    type V = RoomV;

    open spec fn view(&self) -> RoomV {
        RoomV { name: self.name@, members: self.members.deep_view() }
    }
}

impl DeepView for Room {
    type V = RoomV;

    open spec fn deep_view(&self) -> RoomV {
        self.view()
    }
}

impl View for ServerState {
    type V = StateV;

    open spec fn view(&self) -> StateV {
        StateV { users: self.users.deep_view(), rooms: self.rooms.deep_view() }
    }
}

/// The names that can never be assigned to a room. The check is an exact,
/// case-sensitive string comparison.
pub open spec fn reserved_name(n: Seq<char>) -> bool {
    n == "glb"@ || n == "adm"@
}

/// Some registered user carries username `u`.
pub open spec fn user_named(s: StateV, u: Seq<char>) -> bool {
    exists|i: int| 0 <= i < s.users.len() && s.users[i].username == u
}

/// Some registered user holds connection address `a`.
pub open spec fn addr_in_use(s: StateV, a: u64) -> bool {
    exists|i: int| 0 <= i < s.users.len() && s.users[i].addr == a
}

/// Some room carries name `n`.
pub open spec fn room_named(s: StateV, n: Seq<char>) -> bool {
    exists|j: int| 0 <= j < s.rooms.len() && s.rooms[j].name == n
}

/// Username `u` is a member of the room named `n`.
pub open spec fn spec_is_member(s: StateV, n: Seq<char>, u: Seq<char>) -> bool {
    exists|j: int|
        0 <= j < s.rooms.len() && s.rooms[j].name == n && s.rooms[j].members.contains(u)
}

pub open spec fn usernames_unique(users: Seq<IdentityV>) -> bool {
    forall|i: int, j: int|
        0 <= i < users.len() && 0 <= j < users.len() && i != j ==> users[i].username
            != users[j].username
}

pub open spec fn addrs_unique(users: Seq<IdentityV>) -> bool {
    forall|i: int, j: int|
        0 <= i < users.len() && 0 <= j < users.len() && i != j ==> users[i].addr
            != users[j].addr
}

pub open spec fn room_names_unique(rooms: Seq<RoomV>) -> bool {
    forall|i: int, j: int|
        0 <= i < rooms.len() && 0 <= j < rooms.len() && i != j ==> rooms[i].name
            != rooms[j].name
}

/// Every room name is unreserved and its member list holds no duplicates.
pub open spec fn rooms_each_wf(rooms: Seq<RoomV>) -> bool {
    forall|j: int|
        0 <= j < rooms.len() ==> !reserved_name(#[trigger] rooms[j].name)
            && rooms[j].members.no_duplicates()
}

/// Every user's own room list holds no duplicates.
pub open spec fn users_each_wf(users: Seq<IdentityV>) -> bool {
    forall|i: int| 0 <= i < users.len() ==> (#[trigger] users[i].rooms).no_duplicates()
}

/// Every name in a member list belongs to a registered user.
pub open spec fn members_registered(s: StateV) -> bool {
    forall|j: int, k: int|
        0 <= j < s.rooms.len() && 0 <= k < s.rooms[j].members.len() ==> user_named(
            s,
            #[trigger] s.rooms[j].members[k],
        )
}

/// Every name in a user's room list belongs to an existing room.
pub open spec fn user_rooms_exist(s: StateV) -> bool {
    forall|i: int, k: int|
        0 <= i < s.users.len() && 0 <= k < s.users[i].rooms.len() ==> room_named(
            s,
            #[trigger] s.users[i].rooms[k],
        )
}

/// A username stands in a room's member list exactly when the room's name
/// stands in that user's room list.
pub open spec fn membership_consistent(s: StateV) -> bool {
    forall|i: int, j: int|
        0 <= i < s.users.len() && 0 <= j < s.rooms.len() ==> (
        (#[trigger] s.rooms[j].members).contains(s.users[i].username) <==> (
        #[trigger] s.users[i].rooms).contains(s.rooms[j].name))
}

/// Well-formedness of the shared state. Every public operation preserves it.
pub open spec fn wf(s: StateV) -> bool {
    &&& usernames_unique(s.users)
    &&& addrs_unique(s.users)
    &&& room_names_unique(s.rooms)
    &&& rooms_each_wf(s.rooms)
    &&& users_each_wf(s.users)
    &&& members_registered(s)
    &&& user_rooms_exist(s)
    &&& membership_consistent(s)
}

/// The state with no users and no rooms, as at process start.
pub open spec fn empty_state() -> StateV {
    StateV { users: Seq::empty(), rooms: Seq::empty() }
}

/// The registered identity carrying username `u`; meaningful when
/// `user_named(s, u)` holds and usernames are unique.
pub open spec fn identity_of(s: StateV, u: Seq<char>) -> IdentityV {
    s.users[choose|i: int| 0 <= i < s.users.len() && s.users[i].username == u]
}

/// The connection address of the registered user named `u`.
pub open spec fn addr_of(s: StateV, u: Seq<char>) -> u64 {
    identity_of(s, u).addr
}

/// The member list of the room named `n`; meaningful when
/// `room_named(s, n)` holds and room names are unique.
pub open spec fn members_of(s: StateV, n: Seq<char>) -> Seq<Seq<char>> {
    s.rooms[choose|j: int| 0 <= j < s.rooms.len() && s.rooms[j].name == n].members
}

/// Registration: a fresh identity with an empty room set, rejected when the
/// username is already taken.
pub open spec fn spec_register(s: StateV, u: Seq<char>, a: u64) -> Result<StateV, ChatError> {
    if user_named(s, u) {
        Err(ChatError::DuplicateUsername)
    } else {
        Ok(
            StateV {
                users: s.users.push(IdentityV { username: u, addr: a, rooms: Seq::empty() }),
                rooms: s.rooms,
            },
        )
    }
}

/// `s` with every occurrence of `u` removed, the order otherwise kept.
pub open spec fn remove_name_from(s: Seq<Seq<char>>, u: Seq<char>) -> Seq<Seq<char>>
    decreases s.len(),
{
    if s.len() == 0 {
        Seq::empty()
    } else if s.last() == u {
        remove_name_from(s.drop_last(), u)
    } else {
        remove_name_from(s.drop_last(), u).push(s.last())
    }
}

/// `users` without the identities whose username is `u`, the order
/// otherwise kept.
pub open spec fn remove_user_named(users: Seq<IdentityV>, u: Seq<char>) -> Seq<IdentityV>
    decreases users.len(),
{
    if users.len() == 0 {
        Seq::empty()
    } else if users.last().username == u {
        remove_user_named(users.drop_last(), u)
    } else {
        remove_user_named(users.drop_last(), u).push(users.last())
    }
}

/// `r` with username `u` removed from its member list.
pub open spec fn drop_member(r: RoomV, u: Seq<char>) -> RoomV {
    RoomV { name: r.name, members: remove_name_from(r.members, u) }
}

/// Deregistration: removes the identity and withdraws the username from
/// every member list; idempotent when the username is absent.
pub open spec fn spec_deregister(s: StateV, u: Seq<char>) -> StateV {
    StateV {
        users: remove_user_named(s.users, u),
        rooms: s.rooms.map_values(|r: RoomV| drop_member(r, u)),
    }
}

/// Room creation: rejects the reserved names, then duplicates.
pub open spec fn spec_create_room(s: StateV, n: Seq<char>) -> Result<StateV, ChatError> {
    if reserved_name(n) {
        Err(ChatError::Reserved)
    } else if room_named(s, n) {
        Err(ChatError::AlreadyExists)
    } else {
        Ok(StateV { users: s.users, rooms: s.rooms.push(RoomV { name: n, members: Seq::empty() }) })
    }
}

/// `id` with room name `n` added to its room list, if not already there.
pub open spec fn add_room_name(id: IdentityV, n: Seq<char>) -> IdentityV {
    if id.rooms.contains(n) {
        id
    } else {
        IdentityV { username: id.username, addr: id.addr, rooms: id.rooms.push(n) }
    }
}

/// `r` with username `u` added to its member list, if not already there.
pub open spec fn add_member(r: RoomV, u: Seq<char>) -> RoomV {
    if r.members.contains(u) {
        r
    } else {
        RoomV { name: r.name, members: r.members.push(u) }
    }
}

/// `id` with room name `n` withdrawn from its room list.
pub open spec fn drop_room_name(id: IdentityV, n: Seq<char>) -> IdentityV {
    IdentityV { username: id.username, addr: id.addr, rooms: remove_name_from(id.rooms, n) }
}

/// Joining: adds the username to the room and the room to the user's own
/// list, in one transition; joining a room twice changes nothing.
pub open spec fn spec_join(s: StateV, n: Seq<char>, u: Seq<char>) -> Result<StateV, ChatError> {
    if !room_named(s, n) {
        Err(ChatError::RoomNotFound)
    } else if !user_named(s, u) {
        Err(ChatError::UserNotFound)
    } else {
        Ok(
            StateV {
                users: s.users.map_values(
                    |id: IdentityV| if id.username == u {
                        add_room_name(id, n)
                    } else {
                        id
                    },
                ),
                rooms: s.rooms.map_values(
                    |r: RoomV| if r.name == n {
                        add_member(r, u)
                    } else {
                        r
                    },
                ),
            },
        )
    }
}

/// Leaving: withdraws the username from the room and the room from the
/// user's own list, in one transition.
pub open spec fn spec_leave(s: StateV, n: Seq<char>, u: Seq<char>) -> Result<StateV, ChatError> {
    if !room_named(s, n) {
        Err(ChatError::RoomNotFound)
    } else if !spec_is_member(s, n, u) {
        Err(ChatError::NotAMember)
    } else {
        Ok(
            StateV {
                users: s.users.map_values(
                    |id: IdentityV| if id.username == u {
                        drop_room_name(id, n)
                    } else {
                        id
                    },
                ),
                rooms: s.rooms.map_values(
                    |r: RoomV| if r.name == n {
                        drop_member(r, u)
                    } else {
                        r
                    },
                ),
            },
        )
    }
}

// ---------------------------------------------------------------------------
// General sequence lemmas used by the preservation proofs.
// ---------------------------------------------------------------------------
/// Pushing a fresh element onto a duplicate-free sequence keeps it
/// duplicate-free.
pub proof fn lemma_no_dup_push<A>(s: Seq<A>, x: A)
    requires
        s.no_duplicates(),
        !s.contains(x),
    ensures
        s.push(x).no_duplicates(),
{
    let p = s.push(x);
    assert forall|i: int, j: int|
        0 <= i < p.len() && 0 <= j < p.len() && i != j implies p[i] != p[j] by {
        if i < s.len() && j < s.len() {
            assert(s[i] != s[j]);
        } else if i == s.len() {
            if p[j] == x {
                assert(s[j] == x);
                assert(s.contains(x));
            }
        } else {
            if p[i] == x {
                assert(s[i] == x);
                assert(s.contains(x));
            }
        }
    }
}

/// A name survives [`remove_name_from`] exactly when it was present and is
/// not the removed one.
pub proof fn lemma_remove_name_contains(s: Seq<Seq<char>>, u: Seq<char>, x: Seq<char>)
    ensures
        remove_name_from(s, u).contains(x) <==> (s.contains(x) && x != u),
    decreases s.len(),
{
    broadcast use lemma_seq_contains_after_push;

    if s.len() > 0 {
        let rest = s.drop_last();
        lemma_remove_name_contains(rest, u, x);
        assert(s =~= rest.push(s.last()));
    }
}

/// Removing a name keeps a duplicate-free sequence duplicate-free.
pub proof fn lemma_remove_name_no_dup(s: Seq<Seq<char>>, u: Seq<char>)
    requires
        s.no_duplicates(),
    ensures
        remove_name_from(s, u).no_duplicates(),
    decreases s.len(),
{
    if s.len() > 0 {
        let rest = s.drop_last();
        let last = s.last();
        assert(rest.no_duplicates());
        lemma_remove_name_no_dup(rest, u);
        if last != u {
            assert(!rest.contains(last)) by {
                if rest.contains(last) {
                    let i = choose|i: int| 0 <= i < rest.len() && rest[i] == last;
                    assert(s[i] == s[s.len() - 1]);
                }
            }
            lemma_remove_name_contains(rest, u, last);
            lemma_no_dup_push(remove_name_from(rest, u), last);
        }
    }
}

/// An identity survives [`remove_user_named`] exactly when it was present
/// and does not carry the removed username.
pub proof fn lemma_remove_user_contains(users: Seq<IdentityV>, u: Seq<char>, id: IdentityV)
    ensures
        remove_user_named(users, u).contains(id) <==> (users.contains(id) && id.username != u),
    decreases users.len(),
{
    broadcast use lemma_seq_contains_after_push;

    if users.len() > 0 {
        let rest = users.drop_last();
        lemma_remove_user_contains(rest, u, id);
        assert(users =~= rest.push(users.last()));
    }
}

/// Removing a user keeps usernames and addresses pairwise distinct.
pub proof fn lemma_remove_user_unique(users: Seq<IdentityV>, u: Seq<char>)
    requires
        usernames_unique(users),
        addrs_unique(users),
    ensures
        usernames_unique(remove_user_named(users, u)),
        addrs_unique(remove_user_named(users, u)),
    decreases users.len(),
{
    if users.len() > 0 {
        let rest = users.drop_last();
        let last = users.last();
        assert(usernames_unique(rest)) by {
            assert forall|i: int, j: int|
                0 <= i < rest.len() && 0 <= j < rest.len() && i != j implies rest[i].username
                != rest[j].username by {
                assert(users[i].username != users[j].username);
            }
        }
        assert(addrs_unique(rest)) by {
            assert forall|i: int, j: int|
                0 <= i < rest.len() && 0 <= j < rest.len() && i != j implies rest[i].addr
                != rest[j].addr by {
                assert(users[i].addr != users[j].addr);
            }
        }
        lemma_remove_user_unique(rest, u);
        let r0 = remove_user_named(rest, u);
        if last.username != u {
            assert forall|i: int| 0 <= i < r0.len() implies r0[i].username != last.username
                && r0[i].addr != last.addr by {
                assert(r0.contains(r0[i]));
                lemma_remove_user_contains(rest, u, r0[i]);
                let k = choose|k: int| 0 <= k < rest.len() && rest[k] == r0[i];
                assert(users[k].username != users[users.len() - 1].username);
                assert(users[k].addr != users[users.len() - 1].addr);
            }
            let r = r0.push(last);
            assert forall|i: int, j: int|
                0 <= i < r.len() && 0 <= j < r.len() && i != j implies r[i].username
                != r[j].username && r[i].addr != r[j].addr by {
                if i < r0.len() && j < r0.len() {
                    assert(r0[i].username != r0[j].username);
                    assert(r0[i].addr != r0[j].addr);
                } else if i == r0.len() {
                    assert(r0[j].username != last.username && r0[j].addr != last.addr);
                } else {
                    assert(r0[i].username != last.username && r0[i].addr != last.addr);
                }
            }
        }
    }
}

// ---------------------------------------------------------------------------
// Preservation of well-formedness by each transition.
// ---------------------------------------------------------------------------
/// Registration keeps the state well-formed; in particular the registry
/// never holds two identities with the same username, over any sequence of
/// register and deregister operations.
pub proof fn lemma_register_preserves_wf(s: StateV, u: Seq<char>, a: u64)
    requires
        wf(s),
        !addr_in_use(s, a),
    ensures
        spec_register(s, u, a) matches Ok(s2) ==> wf(s2),
{
    if !user_named(s, u) {
        let s2 = spec_register(s, u, a)->Ok_0;
        let nu = IdentityV { username: u, addr: a, rooms: Seq::empty() };
        assert(s2.users == s.users.push(nu));
        assert forall|x: Seq<char>| user_named(s, x) implies user_named(s2, x) by {
            let i = choose|i: int| 0 <= i < s.users.len() && s.users[i].username == x;
            assert(s2.users[i].username == x);
        }
        assert(usernames_unique(s2.users)) by {
            assert forall|i: int, j: int|
                0 <= i < s2.users.len() && 0 <= j < s2.users.len() && i != j implies s2.users[i].username != s2.users[j].username by {
                if i < s.users.len() && j < s.users.len() {
                } else if i == s.users.len() {
                    if s2.users[j].username == u {
                        assert(s.users[j].username == u);
                        assert(user_named(s, u));
                    }
                } else {
                    if s2.users[i].username == u {
                        assert(s.users[i].username == u);
                        assert(user_named(s, u));
                    }
                }
            }
        }
        assert(addrs_unique(s2.users)) by {
            assert forall|i: int, j: int|
                0 <= i < s2.users.len() && 0 <= j < s2.users.len() && i != j implies s2.users[i].addr != s2.users[j].addr by {
                if i < s.users.len() && j < s.users.len() {
                } else if i == s.users.len() {
                    if s2.users[j].addr == a {
                        assert(s.users[j].addr == a);
                        assert(addr_in_use(s, a));
                    }
                } else {
                    if s2.users[i].addr == a {
                        assert(s.users[i].addr == a);
                        assert(addr_in_use(s, a));
                    }
                }
            }
        }
        // No member list can hold the new username: every member is
        // registered, and the new username was not.
        assert forall|j: int| 0 <= j < s2.rooms.len() implies !(#[trigger] s2.rooms[j].members).contains(u) by {
            if s.rooms[j].members.contains(u) {
                let k = choose|k: int| 0 <= k < s.rooms[j].members.len() && s.rooms[j].members[k] == u;
                assert(user_named(s, s.rooms[j].members[k]));
            }
        }
        assert(membership_consistent(s2)) by {
            assert forall|i: int, j: int|
                0 <= i < s2.users.len() && 0 <= j < s2.rooms.len() implies (
            (#[trigger] s2.rooms[j].members).contains(s2.users[i].username) <==> (
            #[trigger] s2.users[i].rooms).contains(s2.rooms[j].name)) by {
                if i < s.users.len() {
                    assert(s2.users[i] == s.users[i]);
                    assert(s2.rooms[j] == s.rooms[j]);
                } else {
                    assert(s2.users[i] == nu);
                    assert(!s2.rooms[j].members.contains(u));
                }
            }
        }
        assert(members_registered(s2)) by {
            assert forall|j: int, k: int|
                0 <= j < s2.rooms.len() && 0 <= k < s2.rooms[j].members.len() implies user_named(
                s2,
                #[trigger] s2.rooms[j].members[k],
            ) by {
                assert(user_named(s, s.rooms[j].members[k]));
            }
        }
        assert(user_rooms_exist(s2)) by {
            assert forall|i: int, k: int|
                0 <= i < s2.users.len() && 0 <= k < s2.users[i].rooms.len() implies room_named(
                s2,
                #[trigger] s2.users[i].rooms[k],
            ) by {
                if i < s.users.len() {
                    assert(s.users[i].rooms[k] == s2.users[i].rooms[k]);
                    assert(room_named(s, s.users[i].rooms[k]));
                }
            }
        }
    }
}

/// Deregistration keeps the state well-formed: the identity goes, and the
/// username is withdrawn from every member list in the same transition.
pub proof fn lemma_deregister_preserves_wf(s: StateV, u: Seq<char>)
    requires
        wf(s),
    ensures
        wf(spec_deregister(s, u)),
{
    let s2 = spec_deregister(s, u);
    assert(s2.users == remove_user_named(s.users, u));
    lemma_remove_user_unique(s.users, u);
    assert(usernames_unique(s2.users));
    assert(addrs_unique(s2.users));
    // Each remaining user, with its room list, is an unchanged element of
    // the old registry whose username is not the removed one.
    assert forall|i: int| 0 <= i < s2.users.len() implies s.users.contains(#[trigger] s2.users[i])
        && s2.users[i].username != u by {
        assert(s2.users.contains(s2.users[i]));
        lemma_remove_user_contains(s.users, u, s2.users[i]);
    }
    assert forall|x: Seq<char>| user_named(s, x) && x != u implies user_named(s2, x) by {
        let i = choose|i: int| 0 <= i < s.users.len() && s.users[i].username == x;
        assert(s.users.contains(s.users[i]));
        lemma_remove_user_contains(s.users, u, s.users[i]);
        assert(s2.users.contains(s.users[i]));
        let k = choose|k: int| 0 <= k < s2.users.len() && s2.users[k] == s.users[i];
        assert(s2.users[k].username == x);
    }
    assert(users_each_wf(s2.users)) by {
        assert forall|i: int| 0 <= i < s2.users.len() implies (
        #[trigger] s2.users[i].rooms).no_duplicates() by {
            let k = choose|k: int| 0 <= k < s.users.len() && s.users[k] == s2.users[i];
            assert(s.users[k].rooms.no_duplicates());
        }
    }
    assert(s2.rooms.len() == s.rooms.len());
    assert forall|j: int| 0 <= j < s.rooms.len() implies #[trigger] s2.rooms[j] == drop_member(
        s.rooms[j],
        u,
    ) by {}
    assert(rooms_each_wf(s2.rooms)) by {
        assert forall|j: int|
            0 <= j < s2.rooms.len() implies !reserved_name(#[trigger] s2.rooms[j].name)
            && s2.rooms[j].members.no_duplicates() by {
            assert(s2.rooms[j].name == s.rooms[j].name);
            assert(!reserved_name(s.rooms[j].name));
            assert(s.rooms[j].members.no_duplicates());
            lemma_remove_name_no_dup(s.rooms[j].members, u);
        }
    }
    assert(room_names_unique(s2.rooms));
    assert(members_registered(s2)) by {
        assert forall|j: int, k: int|
            0 <= j < s2.rooms.len() && 0 <= k < s2.rooms[j].members.len() implies user_named(
            s2,
            #[trigger] s2.rooms[j].members[k],
        ) by {
            let m = s.rooms[j].members;
            let x = s2.rooms[j].members[k];
            assert(s2.rooms[j].members.contains(x));
            lemma_remove_name_contains(m, u, x);
            assert(m.contains(x) && x != u);
            let k0 = choose|k0: int| 0 <= k0 < m.len() && m[k0] == x;
            assert(user_named(s, s.rooms[j].members[k0]));
        }
    }
    assert(user_rooms_exist(s2)) by {
        assert forall|i: int, k: int|
            0 <= i < s2.users.len() && 0 <= k < s2.users[i].rooms.len() implies room_named(
            s2,
            #[trigger] s2.users[i].rooms[k],
        ) by {
            let k0 = choose|k0: int| 0 <= k0 < s.users.len() && s.users[k0] == s2.users[i];
            assert(s.users[k0].rooms[k] == s2.users[i].rooms[k]);
            assert(room_named(s, s.users[k0].rooms[k]));
            let j = choose|j: int| 0 <= j < s.rooms.len() && s.rooms[j].name == s.users[k0].rooms[k];
            assert(s2.rooms[j].name == s.rooms[j].name);
        }
    }
    assert(membership_consistent(s2)) by {
        assert forall|i: int, j: int|
            0 <= i < s2.users.len() && 0 <= j < s2.rooms.len() implies (
        (#[trigger] s2.rooms[j].members).contains(s2.users[i].username) <==> (
        #[trigger] s2.users[i].rooms).contains(s2.rooms[j].name)) by {
            let id = s2.users[i];
            let k0 = choose|k0: int| 0 <= k0 < s.users.len() && s.users[k0] == id;
            assert(id.username != u);
            lemma_remove_name_contains(s.rooms[j].members, u, id.username);
            assert(s2.rooms[j].members.contains(id.username) <==> s.rooms[j].members.contains(
                id.username,
            ));
            assert(s.rooms[j].members.contains(id.username) <==> id.rooms.contains(
                s.rooms[j].name,
            ));
        }
    }
}

/// Over any sequence of operations from the empty state, the registry
/// never holds two identities with the same username: the empty state is
/// well-formed, every operation preserves well-formedness, and
/// well-formedness includes username uniqueness, stated here directly.
pub proof fn lemma_no_duplicate_usernames(s: StateV)
    requires
        wf(s),
    ensures
        forall|i: int, j: int|
            0 <= i < s.users.len() && 0 <= j < s.users.len() && i != j ==> s.users[i].username
                != s.users[j].username,
{
}

/// In every well-formed state the two sides of the membership relation
/// agree: a username stands in a room's member list exactly when that
/// room's name stands in the user's own room list. Join and leave keep
/// this, as [`lemma_join_preserves_wf`] and [`lemma_leave_preserves_wf`]
/// show.
pub proof fn lemma_membership_mutually_consistent(s: StateV)
    requires
        wf(s),
    ensures
        forall|i: int, j: int|
            0 <= i < s.users.len() && 0 <= j < s.rooms.len() ==> (
            (#[trigger] s.rooms[j].members).contains(s.users[i].username) <==> (
            #[trigger] s.users[i].rooms).contains(s.rooms[j].name)),
{
}

/// Creating a room named `"glb"` or `"adm"` always fails with
/// [`ChatError::Reserved`], whatever the state. The comparison is exact
/// and case-sensitive: differently-cased spellings are ordinary names.
pub proof fn lemma_reserved_room_always_fails(s: StateV, n: Seq<char>)
    requires
        n == "glb"@ || n == "adm"@,
    ensures
        spec_create_room(s, n) == Err::<StateV, ChatError>(ChatError::Reserved),
{
}

/// The initial state is well-formed.
pub proof fn lemma_empty_state_wf()
    ensures
        wf(empty_state()),
{
}

/// Unfolds [`remove_name_from`] over a push at the tail.
pub proof fn lemma_remove_name_push(s: Seq<Seq<char>>, u: Seq<char>, e: Seq<char>)
    ensures
        remove_name_from(s.push(e), u) == if e == u {
            remove_name_from(s, u)
        } else {
            remove_name_from(s, u).push(e)
        },
{
    let p = s.push(e);
    assert(p.drop_last() =~= s);
    assert(p.last() == e);
}

/// Removing an absent username changes nothing.
pub proof fn lemma_remove_user_absent(users: Seq<IdentityV>, u: Seq<char>)
    requires
        forall|k: int| 0 <= k < users.len() ==> (#[trigger] users[k]).username != u,
    ensures
        remove_user_named(users, u) == users,
    decreases users.len(),
{
    if users.len() > 0 {
        let rest = users.drop_last();
        assert(forall|k: int| 0 <= k < rest.len() ==> (#[trigger] rest[k]).username != u);
        lemma_remove_user_absent(rest, u);
        assert(users.last().username != u) by {
            assert(users[users.len() - 1].username != u);
        }
        assert(remove_user_named(users, u) =~= users);
    } else {
        assert(remove_user_named(users, u) =~= users);
    }
}

/// When exactly one identity carries the username, removing by name is
/// removing that one position.
pub proof fn lemma_remove_user_at_index(users: Seq<IdentityV>, u: Seq<char>, idx: int)
    requires
        0 <= idx < users.len(),
        users[idx].username == u,
        forall|k: int| 0 <= k < users.len() && k != idx ==> (#[trigger] users[k]).username != u,
    ensures
        remove_user_named(users, u) == users.remove(idx),
    decreases users.len(),
{
    let rest = users.drop_last();
    let last = users.last();
    if idx == users.len() - 1 {
        assert(forall|k: int| 0 <= k < rest.len() ==> (#[trigger] rest[k]).username != u);
        lemma_remove_user_absent(rest, u);
        assert(users.remove(idx) =~= rest);
    } else {
        assert(last.username != u) by {
            assert(users[users.len() - 1].username != u);
        }
        assert(rest[idx].username == u);
        assert(forall|k: int| 0 <= k < rest.len() && k != idx ==> (#[trigger] rest[k]).username != u);
        lemma_remove_user_at_index(rest, u, idx);
        assert(users.remove(idx) =~= rest.remove(idx).push(last));
    }
}

// ---------------------------------------------------------------------------
// Runtime helpers.
// ---------------------------------------------------------------------------
/// String equality, stated over the character views.
pub fn str_eq(a: &str, b: &str) -> (r: bool)
    ensures
        r == (a@ == b@),
{
    let sa: String = a.to_owned();
    let sb: String = b.to_owned();
    sa == sb
}

/// Whether `x` occurs in a list of names.
pub fn contains_name(v: &Vec<String>, x: &str) -> (b: bool)
    ensures
        b == v.deep_view().contains(x@),
{
    let ghost dv = v.deep_view();
    let mut i: usize = 0;
    while i < v.len()
        invariant
            0 <= i <= v@.len(),
            dv == v.deep_view(),
            dv.len() == v@.len(),
            forall|k: int| 0 <= k < i ==> dv[k] != x@,
        decreases v@.len() - i,
    {
        if str_eq(v[i].as_str(), x) {
            proof {
                assert(dv[i as int] == x@);
            }
            return true;
        }
        proof {
            assert(dv[i as int] != x@);
        }
        i = i + 1;
    }
    proof {
        if dv.contains(x@) {
            let k = choose|k: int| 0 <= k < dv.len() && dv[k] == x@;
            assert(dv[k] != x@);
        }
    }
    false
}

/// Copies a list of names.
fn clone_names(v: &Vec<String>) -> (out: Vec<String>)
    ensures
        out.deep_view() == v.deep_view(),
{
    let ghost dv = v.deep_view();
    let mut out: Vec<String> = Vec::new();
    let mut i: usize = 0;
    while i < v.len()
        invariant
            0 <= i <= v@.len(),
            dv == v.deep_view(),
            dv.len() == v@.len(),
            out.deep_view() == dv.take(i as int),
        decreases v@.len() - i,
    {
        let ghost pre_out = out.deep_view();
        out.push(v[i].clone());
        proof {
            assert(out.deep_view() =~= pre_out.push(dv[i as int]));
            assert(dv.take(i + 1 as int) =~= dv.take(i as int).push(dv[i as int]));
        }
        i = i + 1;
    }
    proof {
        assert(dv.take(dv.len() as int) =~= dv);
    }
    out
}

/// A copy of `v` with every occurrence of `x` removed.
fn remove_name_vec(v: &Vec<String>, x: &str) -> (out: Vec<String>)
    ensures
        out.deep_view() == remove_name_from(v.deep_view(), x@),
{
    let ghost dv = v.deep_view();
    let mut out: Vec<String> = Vec::new();
    let mut i: usize = 0;
    while i < v.len()
        invariant
            0 <= i <= v@.len(),
            dv == v.deep_view(),
            dv.len() == v@.len(),
            out.deep_view() == remove_name_from(dv.take(i as int), x@),
        decreases v@.len() - i,
    {
        let ghost pre_out = out.deep_view();
        let keep = !str_eq(v[i].as_str(), x);
        if keep {
            out.push(v[i].clone());
        }
        proof {
            lemma_remove_name_push(dv.take(i as int), x@, dv[i as int]);
            assert(dv.take(i + 1 as int) =~= dv.take(i as int).push(dv[i as int]));
            if keep {
                assert(out.deep_view() =~= pre_out.push(dv[i as int]));
            }
        }
        i = i + 1;
    }
    proof {
        assert(dv.take(dv.len() as int) =~= dv);
    }
    out
}

/// First position in the registry carrying this username.
fn find_user_index(users: &Vec<Identity>, name: &str) -> (r: Option<usize>)
    ensures
        match r {
            Some(i) => i < users@.len() && users.deep_view()[i as int].username == name@,
            None => forall|k: int|
                0 <= k < users.deep_view().len() ==> (#[trigger] users.deep_view()[k]).username
                    != name@,
        },
{
    let ghost dv = users.deep_view();
    let mut i: usize = 0;
    while i < users.len()
        invariant
            0 <= i <= users@.len(),
            dv == users.deep_view(),
            dv.len() == users@.len(),
            forall|k: int| 0 <= k < i ==> (#[trigger] dv[k]).username != name@,
        decreases users@.len() - i,
    {
        if str_eq(users[i].username.as_str(), name) {
            proof {
                assert(dv[i as int].username == name@);
            }
            return Some(i);
        }
        proof {
            assert(dv[i as int].username != name@);
        }
        i = i + 1;
    }
    None
}

/// First position in the directory carrying this room name.
fn find_room_index(rooms: &Vec<Room>, name: &str) -> (r: Option<usize>)
    ensures
        match r {
            Some(i) => i < rooms@.len() && rooms.deep_view()[i as int].name == name@,
            None => forall|k: int|
                0 <= k < rooms.deep_view().len() ==> (#[trigger] rooms.deep_view()[k]).name
                    != name@,
        },
{
    let ghost dv = rooms.deep_view();
    let mut i: usize = 0;
    while i < rooms.len()
        invariant
            0 <= i <= rooms@.len(),
            dv == rooms.deep_view(),
            dv.len() == rooms@.len(),
            forall|k: int| 0 <= k < i ==> (#[trigger] dv[k]).name != name@,
        decreases rooms@.len() - i,
    {
        if str_eq(rooms[i].name.as_str(), name) {
            proof {
                assert(dv[i as int].name == name@);
            }
            return Some(i);
        }
        proof {
            assert(dv[i as int].name != name@);
        }
        i = i + 1;
    }
    None
}

impl ServerState {
    /// The empty state, as at process start.
    pub fn new() -> (s: Self)
        ensures
            s@ == empty_state(),
            wf(s@),
    {
        let s = ServerState { users: Vec::new(), rooms: Vec::new() };
        proof {
            assert(s@ =~= empty_state());
        }
        s
    }

    /// Inserts a fresh identity with an empty room set; a username already
    /// present is rejected, so the registry never holds two identities with
    /// the same username.
    pub fn register(&mut self, username: String, addr: u64) -> (r: Result<(), ChatError>)
        requires
            wf(old(self)@),
            !addr_in_use(old(self)@, addr),
        ensures
            wf(final(self)@),
            match spec_register(old(self)@, username@, addr) {
                Ok(s2) => r == Ok::<(), ChatError>(()) && final(self)@ == s2,
                Err(e) => r == Err::<(), ChatError>(e) && final(self)@ == old(self)@,
            },
    {
        let ghost pre = self@;
        match find_user_index(&self.users, username.as_str()) {
            Some(i) => {
                proof {
                    assert(pre.users[i as int].username == username@);
                    assert(user_named(pre, username@));
                }
                Err(ChatError::DuplicateUsername)
            },
            None => {
                proof {
                    assert(!user_named(pre, username@));
                }
                let ghost uv = username@;
                let id = Identity { username, addr, rooms: Vec::new() };
                let ghost idv = id@;
                self.users.push(id);
                proof {
                    assert(idv =~= IdentityV { username: uv, addr, rooms: Seq::empty() });
                    assert(self@ =~= spec_register(pre, uv, addr)->Ok_0);
                    lemma_register_preserves_wf(pre, uv, addr);
                }
                Ok(())
            },
        }
    }

    /// Removes the identity carrying this username and withdraws the
    /// username from every room's member list; changes nothing when the
    /// username is absent.
    pub fn deregister(&mut self, username: &str)
        requires
            wf(old(self)@),
        ensures
            wf(final(self)@),
            final(self)@ == spec_deregister(old(self)@, username@),
    {
        let ghost pre = self@;
        match find_user_index(&self.users, username) {
            Some(i) => {
                self.users.remove(i);
                proof {
                    assert forall|k: int|
                        0 <= k < pre.users.len() && k != i as int implies (
                    #[trigger] pre.users[k]).username != username@ by {
                        if pre.users[k].username == username@ {
                            assert(pre.users[k].username == pre.users[i as int].username);
                        }
                    }
                    lemma_remove_user_at_index(pre.users, username@, i as int);
                    assert(self.users.deep_view() =~= pre.users.remove(i as int));
                }
            },
            None => {
                proof {
                    lemma_remove_user_absent(pre.users, username@);
                    assert(self.users.deep_view() =~= pre.users);
                }
            },
        }
        // Withdraw the username from every member list.
        let ghost mid_users = self.users.deep_view();
        let mut j: usize = 0;
        while j < self.rooms.len()
            invariant
                0 <= j <= self.rooms@.len(),
                self.rooms@.len() == pre.rooms.len(),
                self.users.deep_view() == mid_users,
                forall|k: int|
                    0 <= k < j ==> #[trigger] self.rooms.deep_view()[k] == drop_member(
                        pre.rooms[k],
                        username@,
                    ),
                forall|k: int|
                    j <= k < pre.rooms.len() ==> #[trigger] self.rooms.deep_view()[k]
                        == pre.rooms[k],
            decreases pre.rooms.len() - j,
        {
            let ghost rooms_before = self.rooms.deep_view();
            let mut room = self.rooms.remove(j);
            let ghost room_v = room@;
            proof {
                assert(room_v == rooms_before[j as int]);
                assert(self.rooms.deep_view() =~= rooms_before.remove(j as int));
            }
            let ghost rooms_mid = self.rooms.deep_view();
            let new_members = remove_name_vec(&room.members, username);
            room.members = new_members;
            proof {
                assert(room@ =~= drop_member(room_v, username@));
            }
            self.rooms.insert(j, room);
            proof {
                assert(self.rooms.deep_view() =~= rooms_mid.insert(j as int, room@));
                assert(self.rooms.deep_view() =~= rooms_before.update(
                    j as int,
                    drop_member(room_v, username@),
                ));
                assert(rooms_before[j as int] == pre.rooms[j as int]);
            }
            j = j + 1;
        }
        proof {
            assert(self@ =~= spec_deregister(pre, username@));
            lemma_deregister_preserves_wf(pre, username@);
        }
    }

    /// Creates an empty room; the reserved names `"glb"` and `"adm"` and
    /// names already in use are rejected.
    pub fn create_room(&mut self, name: &str) -> (r: Result<(), ChatError>)
        requires
            wf(old(self)@),
        ensures
            wf(final(self)@),
            match spec_create_room(old(self)@, name@) {
                Ok(s2) => r == Ok::<(), ChatError>(()) && final(self)@ == s2,
                Err(e) => r == Err::<(), ChatError>(e) && final(self)@ == old(self)@,
            },
    {
        let ghost pre = self@;
        if str_eq(name, "glb") || str_eq(name, "adm") {
            return Err(ChatError::Reserved);
        }
        match find_room_index(&self.rooms, name) {
            Some(j) => {
                proof {
                    assert(pre.rooms[j as int].name == name@);
                    assert(room_named(pre, name@));
                }
                Err(ChatError::AlreadyExists)
            },
            None => {
                proof {
                    assert(!room_named(pre, name@));
                }
                let room = Room { name: name.to_owned(), members: Vec::new() };
                let ghost rv = room@;
                self.rooms.push(room);
                proof {
                    assert(rv =~= RoomV { name: name@, members: Seq::empty() });
                    assert(self@ =~= spec_create_room(pre, name@)->Ok_0);
                    lemma_create_room_preserves_wf(pre, name@);
                }
                Ok(())
            },
        }
    }

    /// Adds the user to the room and the room to the user's own list in one
    /// transition; joining a room one is already in changes nothing.
    pub fn join_room(&mut self, name: &str, username: &str) -> (r: Result<(), ChatError>)
        requires
            wf(old(self)@),
        ensures
            wf(final(self)@),
            match spec_join(old(self)@, name@, username@) {
                Ok(s2) => r == Ok::<(), ChatError>(()) && final(self)@ == s2,
                Err(e) => r == Err::<(), ChatError>(e) && final(self)@ == old(self)@,
            },
    {
        let ghost pre = self@;
        let ri = match find_room_index(&self.rooms, name) {
            None => {
                proof {
                    assert(!room_named(pre, name@));
                }
                return Err(ChatError::RoomNotFound);
            },
            Some(ri) => ri,
        };
        let ui = match find_user_index(&self.users, username) {
            None => {
                proof {
                    assert(!user_named(pre, username@));
                    assert(pre.rooms[ri as int].name == name@);
                    assert(room_named(pre, name@));
                }
                return Err(ChatError::UserNotFound);
            },
            Some(ui) => ui,
        };
        proof {
            assert(pre.rooms[ri as int].name == name@);
            assert(room_named(pre, name@));
            assert(pre.users[ui as int].username == username@);
            assert(user_named(pre, username@));
        }
        let ghost s2 = spec_join(pre, name@, username@)->Ok_0;
        // Room side.
        let ghost rooms_before = self.rooms.deep_view();
        let mut room = self.rooms.remove(ri);
        let ghost room_v = room@;
        proof {
            assert(room_v == pre.rooms[ri as int]);
            assert(self.rooms.deep_view() =~= rooms_before.remove(ri as int));
        }
        let ghost rooms_mid = self.rooms.deep_view();
        if !contains_name(&room.members, username) {
            let ghost pre_members = room.members.deep_view();
            room.members.push(username.to_owned());
            proof {
                assert(room.members.deep_view() =~= pre_members.push(username@));
            }
        }
        proof {
            assert(room@ =~= add_member(room_v, username@));
        }
        self.rooms.insert(ri, room);
        proof {
            assert(self.rooms.deep_view() =~= rooms_mid.insert(
                ri as int,
                add_member(room_v, username@),
            ));
            assert(self.rooms.deep_view() =~= rooms_before.update(
                ri as int,
                add_member(room_v, username@),
            ));
            assert forall|j: int| 0 <= j < pre.rooms.len() implies #[trigger] self.rooms.deep_view()[j]
                == s2.rooms[j] by {
                if j != ri as int {
                    assert(pre.rooms[j].name != name@);
                }
            }
            assert(self.rooms.deep_view() =~= s2.rooms);
        }
        // User side.
        let ghost users_before = self.users.deep_view();
        let mut user = self.users.remove(ui);
        let ghost user_v = user@;
        proof {
            assert(user_v == pre.users[ui as int]);
            assert(self.users.deep_view() =~= users_before.remove(ui as int));
        }
        let ghost users_mid = self.users.deep_view();
        if !contains_name(&user.rooms, name) {
            let ghost pre_rooms = user.rooms.deep_view();
            user.rooms.push(name.to_owned());
            proof {
                assert(user.rooms.deep_view() =~= pre_rooms.push(name@));
            }
        }
        proof {
            assert(user@ =~= add_room_name(user_v, name@));
        }
        self.users.insert(ui, user);
        proof {
            assert(self.users.deep_view() =~= users_mid.insert(
                ui as int,
                add_room_name(user_v, name@),
            ));
            assert(self.users.deep_view() =~= users_before.update(
                ui as int,
                add_room_name(user_v, name@),
            ));
            assert forall|i: int| 0 <= i < pre.users.len() implies #[trigger] self.users.deep_view()[i]
                == s2.users[i] by {
                if i != ui as int {
                    assert(pre.users[i].username != username@);
                }
            }
            assert(self.users.deep_view() =~= s2.users);
            assert(self@ =~= s2);
            lemma_join_preserves_wf(pre, name@, username@);
        }
        Ok(())
    }

    /// Withdraws the user from the room and the room from the user's own
    /// list in one transition.
    pub fn leave_room(&mut self, name: &str, username: &str) -> (r: Result<(), ChatError>)
        requires
            wf(old(self)@),
        ensures
            wf(final(self)@),
            match spec_leave(old(self)@, name@, username@) {
                Ok(s2) => r == Ok::<(), ChatError>(()) && final(self)@ == s2,
                Err(e) => r == Err::<(), ChatError>(e) && final(self)@ == old(self)@,
            },
    {
        let ghost pre = self@;
        let ri = match find_room_index(&self.rooms, name) {
            None => {
                proof {
                    assert(!room_named(pre, name@));
                }
                return Err(ChatError::RoomNotFound);
            },
            Some(ri) => ri,
        };
        proof {
            assert(pre.rooms[ri as int].name == name@);
            assert(room_named(pre, name@));
        }
        if !contains_name(&self.rooms[ri].members, username) {
            proof {
                assert(!pre.rooms[ri as int].members.contains(username@));
                if spec_is_member(pre, name@, username@) {
                    let j = choose|j: int|
                        0 <= j < pre.rooms.len() && pre.rooms[j].name == name@
                            && pre.rooms[j].members.contains(username@);
                    if j != ri as int {
                        assert(pre.rooms[j].name != pre.rooms[ri as int].name);
                    }
                }
            }
            return Err(ChatError::NotAMember);
        }
        proof {
            assert(pre.rooms[ri as int].members.contains(username@));
            assert(spec_is_member(pre, name@, username@));
        }
        let ghost s2 = spec_leave(pre, name@, username@)->Ok_0;
        // Room side.
        let ghost rooms_before = self.rooms.deep_view();
        let mut room = self.rooms.remove(ri);
        let ghost room_v = room@;
        proof {
            assert(room_v == pre.rooms[ri as int]);
            assert(self.rooms.deep_view() =~= rooms_before.remove(ri as int));
        }
        let ghost rooms_mid = self.rooms.deep_view();
        let new_members = remove_name_vec(&room.members, username);
        room.members = new_members;
        proof {
            assert(room@ =~= drop_member(room_v, username@));
        }
        self.rooms.insert(ri, room);
        proof {
            assert(self.rooms.deep_view() =~= rooms_mid.insert(
                ri as int,
                drop_member(room_v, username@),
            ));
            assert(self.rooms.deep_view() =~= rooms_before.update(
                ri as int,
                drop_member(room_v, username@),
            ));
            assert forall|j: int| 0 <= j < pre.rooms.len() implies #[trigger] self.rooms.deep_view()[j]
                == s2.rooms[j] by {
                if j != ri as int {
                    assert(pre.rooms[j].name != name@);
                }
            }
            assert(self.rooms.deep_view() =~= s2.rooms);
        }
        // User side.
        match find_user_index(&self.users, username) {
            Some(ui) => {
                let ghost users_before = self.users.deep_view();
                let mut user = self.users.remove(ui);
                let ghost user_v = user@;
                proof {
                    assert(user_v == pre.users[ui as int]);
                    assert(self.users.deep_view() =~= users_before.remove(ui as int));
                }
                let ghost users_mid = self.users.deep_view();
                let new_rooms = remove_name_vec(&user.rooms, name);
                user.rooms = new_rooms;
                proof {
                    assert(user@ =~= drop_room_name(user_v, name@));
                }
                self.users.insert(ui, user);
                proof {
                    assert(self.users.deep_view() =~= users_mid.insert(
                        ui as int,
                        drop_room_name(user_v, name@),
                    ));
                    assert(self.users.deep_view() =~= users_before.update(
                        ui as int,
                        drop_room_name(user_v, name@),
                    ));
                    assert forall|i: int|
                        0 <= i < pre.users.len() implies #[trigger] self.users.deep_view()[i]
                        == s2.users[i] by {
                        if i != ui as int {
                            assert(pre.users[i].username != username@);
                        }
                    }
                    assert(self.users.deep_view() =~= s2.users);
                }
            },
            None => {
                proof {
                    assert forall|i: int|
                        0 <= i < pre.users.len() implies #[trigger] self.users.deep_view()[i]
                        == s2.users[i] by {
                        assert(pre.users[i].username != username@);
                    }
                    assert(self.users.deep_view() =~= s2.users);
                }
            },
        }
        proof {
            assert(self@ =~= s2);
            lemma_leave_preserves_wf(pre, name@, username@);
        }
        Ok(())
    }

    /// Looks up a registered user by username.
    pub fn find(&self, username: &str) -> (r: Option<&Identity>)
        requires
            wf(self@),
        ensures
            match r {
                Some(id) => user_named(self@, username@) && id@ == identity_of(self@, username@),
                None => !user_named(self@, username@),
            },
    {
        match find_user_index(&self.users, username) {
            Some(i) => {
                let id = &self.users[i];
                proof {
                    assert(id@ == self@.users[i as int]);
                    assert(user_named(self@, username@));
                    let c = choose|c: int|
                        0 <= c < self@.users.len() && self@.users[c].username == username@;
                    if c != i as int {
                        assert(self@.users[c].username != self@.users[i as int].username);
                    }
                }
                Some(id)
            },
            None => None,
        }
    }

    /// The connection address of the registered user named `username`.
    pub fn find_addr(&self, username: &str) -> (r: Option<u64>)
        requires
            wf(self@),
        ensures
            match r {
                Some(a) => user_named(self@, username@) && a == addr_of(self@, username@),
                None => !user_named(self@, username@),
            },
    {
        match self.find(username) {
            Some(id) => Some(id.addr),
            None => None,
        }
    }

    /// A snapshot of the connected usernames, in registration order.
    pub fn list(&self) -> (r: Vec<String>)
        ensures
            r.deep_view() == usernames_of(self@),
    {
        let ghost dv = self.users.deep_view();
        let mut out: Vec<String> = Vec::new();
        let mut i: usize = 0;
        while i < self.users.len()
            invariant
                0 <= i <= self.users@.len(),
                dv == self.users.deep_view(),
                dv.len() == self.users@.len(),
                out.deep_view().len() == i as int,
                forall|k: int| 0 <= k < i ==> #[trigger] out.deep_view()[k] == dv[k].username,
            decreases self.users@.len() - i,
        {
            let ghost pre_out = out.deep_view();
            out.push(self.users[i].username.clone());
            proof {
                assert(out.deep_view() =~= pre_out.push(dv[i as int].username));
            }
            i = i + 1;
        }
        proof {
            assert(out.deep_view() =~= usernames_of(self@));
        }
        out
    }

    /// A snapshot of the room names, in creation order.
    pub fn list_rooms(&self) -> (r: Vec<String>)
        ensures
            r.deep_view() == room_names_of(self@),
    {
        let ghost dv = self.rooms.deep_view();
        let mut out: Vec<String> = Vec::new();
        let mut i: usize = 0;
        while i < self.rooms.len()
            invariant
                0 <= i <= self.rooms@.len(),
                dv == self.rooms.deep_view(),
                dv.len() == self.rooms@.len(),
                out.deep_view().len() == i as int,
                forall|k: int| 0 <= k < i ==> #[trigger] out.deep_view()[k] == dv[k].name,
            decreases self.rooms@.len() - i,
        {
            let ghost pre_out = out.deep_view();
            out.push(self.rooms[i].name.clone());
            proof {
                assert(out.deep_view() =~= pre_out.push(dv[i as int].name));
            }
            i = i + 1;
        }
        proof {
            assert(out.deep_view() =~= room_names_of(self@));
        }
        out
    }

    /// Whether `username` is currently a member of the room named `name`.
    pub fn is_member(&self, name: &str, username: &str) -> (b: bool)
        requires
            wf(self@),
        ensures
            b == spec_is_member(self@, name@, username@),
    {
        match find_room_index(&self.rooms, name) {
            None => {
                proof {
                    if spec_is_member(self@, name@, username@) {
                        let j = choose|j: int|
                            0 <= j < self@.rooms.len() && self@.rooms[j].name == name@
                                && self@.rooms[j].members.contains(username@);
                        assert(self@.rooms[j].name == name@);
                    }
                }
                false
            },
            Some(ri) => {
                let b = contains_name(&self.rooms[ri].members, username);
                proof {
                    if b {
                        assert(spec_is_member(self@, name@, username@));
                    } else if spec_is_member(self@, name@, username@) {
                        let j = choose|j: int|
                            0 <= j < self@.rooms.len() && self@.rooms[j].name == name@
                                && self@.rooms[j].members.contains(username@);
                        if j != ri as int {
                            assert(self@.rooms[j].name != self@.rooms[ri as int].name);
                        }
                    }
                }
                b
            },
        }
    }

    /// Whether a room carrying this name exists.
    pub fn room_exists(&self, name: &str) -> (b: bool)
        ensures
            b == room_named(self@, name@),
    {
        match find_room_index(&self.rooms, name) {
            Some(i) => {
                proof {
                    assert(self@.rooms[i as int].name == name@);
                }
                true
            },
            None => {
                proof {
                    if room_named(self@, name@) {
                        let j = choose|j: int|
                            0 <= j < self@.rooms.len() && self@.rooms[j].name == name@;
                        assert(self@.rooms[j].name == name@);
                    }
                }
                false
            },
        }
    }

    /// The member usernames of the room named `name`.
    pub fn members(&self, name: &str) -> (r: Result<Vec<String>, ChatError>)
        requires
            wf(self@),
        ensures
            match r {
                Ok(v) => room_named(self@, name@) && v.deep_view() == members_of(self@, name@),
                Err(e) => e == ChatError::RoomNotFound && !room_named(self@, name@),
            },
    {
        match find_room_index(&self.rooms, name) {
            None => Err(ChatError::RoomNotFound),
            Some(ri) => {
                let out = clone_names(&self.rooms[ri].members);
                proof {
                    assert(self@.rooms[ri as int].name == name@);
                    assert(room_named(self@, name@));
                    let c = choose|c: int|
                        0 <= c < self@.rooms.len() && self@.rooms[c].name == name@;
                    if c != ri as int {
                        assert(self@.rooms[c].name != self@.rooms[ri as int].name);
                    }
                    assert(out.deep_view() == members_of(self@, name@));
                }
                Ok(out)
            },
        }
    }
}

/// The usernames of the registered users, in registration order.
pub open spec fn usernames_of(s: StateV) -> Seq<Seq<char>> {
    s.users.map_values(|id: IdentityV| id.username)
}

/// The names of the rooms, in creation order.
pub open spec fn room_names_of(s: StateV) -> Seq<Seq<char>> {
    s.rooms.map_values(|r: RoomV| r.name)
}

/// Room creation keeps the state well-formed.
pub proof fn lemma_create_room_preserves_wf(s: StateV, n: Seq<char>)
    requires
        wf(s),
    ensures
        spec_create_room(s, n) matches Ok(s2) ==> wf(s2),
{
    if !reserved_name(n) && !room_named(s, n) {
        let s2 = spec_create_room(s, n)->Ok_0;
        let nr = RoomV { name: n, members: Seq::empty() };
        assert(s2.rooms == s.rooms.push(nr));
        assert(room_names_unique(s2.rooms)) by {
            assert forall|i: int, j: int|
                0 <= i < s2.rooms.len() && 0 <= j < s2.rooms.len() && i != j implies s2.rooms[i].name != s2.rooms[j].name by {
                if i < s.rooms.len() && j < s.rooms.len() {
                } else if i == s.rooms.len() {
                    if s2.rooms[j].name == n {
                        assert(room_named(s, n));
                    }
                } else {
                    if s2.rooms[i].name == n {
                        assert(room_named(s, n));
                    }
                }
            }
        }
        assert forall|x: Seq<char>| room_named(s, x) implies room_named(s2, x) by {
            let j = choose|j: int| 0 <= j < s.rooms.len() && s.rooms[j].name == x;
            assert(s2.rooms[j].name == x);
        }
        // No user's room list can hold the new name: every listed room
        // exists, and this one did not.
        assert forall|i: int| 0 <= i < s2.users.len() implies !(
        #[trigger] s2.users[i].rooms).contains(n) by {
            if s.users[i].rooms.contains(n) {
                let k = choose|k: int| 0 <= k < s.users[i].rooms.len() && s.users[i].rooms[k] == n;
                assert(room_named(s, s.users[i].rooms[k]));
            }
        }
        assert(membership_consistent(s2)) by {
            assert forall|i: int, j: int|
                0 <= i < s2.users.len() && 0 <= j < s2.rooms.len() implies (
            (#[trigger] s2.rooms[j].members).contains(s2.users[i].username) <==> (
            #[trigger] s2.users[i].rooms).contains(s2.rooms[j].name)) by {
                if j < s.rooms.len() {
                    assert(s2.rooms[j] == s.rooms[j]);
                } else {
                    assert(s2.rooms[j] == nr);
                    assert(!s2.users[i].rooms.contains(n));
                }
            }
        }
        assert(members_registered(s2)) by {
            assert forall|j: int, k: int|
                0 <= j < s2.rooms.len() && 0 <= k < s2.rooms[j].members.len() implies user_named(
                s2,
                #[trigger] s2.rooms[j].members[k],
            ) by {
                assert(j < s.rooms.len());
                assert(user_named(s, s.rooms[j].members[k]));
            }
        }
        assert(user_rooms_exist(s2)) by {
            assert forall|i: int, k: int|
                0 <= i < s2.users.len() && 0 <= k < s2.users[i].rooms.len() implies room_named(
                s2,
                #[trigger] s2.users[i].rooms[k],
            ) by {
                assert(room_named(s, s.users[i].rooms[k]));
            }
        }
    }
}

/// Joining keeps the state well-formed: both sides of the membership
/// relation are updated in one transition.
pub proof fn lemma_join_preserves_wf(s: StateV, n: Seq<char>, u: Seq<char>)
    requires
        wf(s),
    ensures
        spec_join(s, n, u) matches Ok(s2) ==> wf(s2),
{
    broadcast use lemma_seq_contains_after_push;

    if room_named(s, n) && user_named(s, u) {
        let s2 = spec_join(s, n, u)->Ok_0;
        assert(s2.users.len() == s.users.len());
        assert(s2.rooms.len() == s.rooms.len());
        assert forall|i: int| 0 <= i < s.users.len() implies #[trigger] s2.users[i]
            == (if s.users[i].username == u {
            add_room_name(s.users[i], n)
        } else {
            s.users[i]
        }) by {}
        assert forall|j: int| 0 <= j < s.rooms.len() implies #[trigger] s2.rooms[j]
            == (if s.rooms[j].name == n {
            add_member(s.rooms[j], u)
        } else {
            s.rooms[j]
        }) by {}
        assert forall|i: int| 0 <= i < s.users.len() implies #[trigger] s2.users[i].username
            == s.users[i].username && s2.users[i].addr == s.users[i].addr by {}
        assert forall|j: int| 0 <= j < s.rooms.len() implies #[trigger] s2.rooms[j].name
            == s.rooms[j].name by {}
        assert(usernames_unique(s2.users));
        assert(addrs_unique(s2.users));
        assert(room_names_unique(s2.rooms));
        assert forall|x: Seq<char>| room_named(s, x) implies room_named(s2, x) by {
            let j = choose|j: int| 0 <= j < s.rooms.len() && s.rooms[j].name == x;
            assert(s2.rooms[j].name == x);
        }
        assert forall|x: Seq<char>| user_named(s, x) implies user_named(s2, x) by {
            let i = choose|i: int| 0 <= i < s.users.len() && s.users[i].username == x;
            assert(s2.users[i].username == x);
        }
        assert(users_each_wf(s2.users)) by {
            assert forall|i: int| 0 <= i < s2.users.len() implies (
            #[trigger] s2.users[i].rooms).no_duplicates() by {
                if s.users[i].username == u && !s.users[i].rooms.contains(n) {
                    lemma_no_dup_push(s.users[i].rooms, n);
                }
            }
        }
        assert(rooms_each_wf(s2.rooms)) by {
            assert forall|j: int|
                0 <= j < s2.rooms.len() implies !reserved_name(#[trigger] s2.rooms[j].name)
                && s2.rooms[j].members.no_duplicates() by {
                assert(!reserved_name(s.rooms[j].name));
                if s.rooms[j].name == n && !s.rooms[j].members.contains(u) {
                    lemma_no_dup_push(s.rooms[j].members, u);
                }
            }
        }
        assert(members_registered(s2)) by {
            assert forall|j: int, k: int|
                0 <= j < s2.rooms.len() && 0 <= k < s2.rooms[j].members.len() implies user_named(
                s2,
                #[trigger] s2.rooms[j].members[k],
            ) by {
                let x = s2.rooms[j].members[k];
                if k < s.rooms[j].members.len() {
                    assert(x == s.rooms[j].members[k]);
                    assert(user_named(s, s.rooms[j].members[k]));
                } else {
                    assert(x == u);
                }
            }
        }
        assert(user_rooms_exist(s2)) by {
            assert forall|i: int, k: int|
                0 <= i < s2.users.len() && 0 <= k < s2.users[i].rooms.len() implies room_named(
                s2,
                #[trigger] s2.users[i].rooms[k],
            ) by {
                let x = s2.users[i].rooms[k];
                if k < s.users[i].rooms.len() {
                    assert(x == s.users[i].rooms[k]);
                    assert(room_named(s, s.users[i].rooms[k]));
                } else {
                    assert(x == n);
                }
            }
        }
        assert(membership_consistent(s2)) by {
            assert forall|i: int, j: int|
                0 <= i < s2.users.len() && 0 <= j < s2.rooms.len() implies (
            (#[trigger] s2.rooms[j].members).contains(s2.users[i].username) <==> (
            #[trigger] s2.users[i].rooms).contains(s2.rooms[j].name)) by {
                let id = s.users[i];
                let r = s.rooms[j];
                if id.username == u && r.name == n {
                    assert(s2.rooms[j].members.contains(u));
                    assert(s2.users[i].rooms.contains(n));
                } else if id.username == u {
                    assert(s2.rooms[j] == r);
                    assert(s2.users[i].rooms.contains(r.name) <==> id.rooms.contains(r.name));
                } else if r.name == n {
                    assert(s2.users[i] == id);
                    assert(s2.rooms[j].members.contains(id.username) <==> r.members.contains(
                        id.username,
                    ));
                } else {
                    assert(s2.users[i] == id && s2.rooms[j] == r);
                }
            }
        }
    }
}

/// Leaving keeps the state well-formed: both sides of the membership
/// relation are updated in one transition.
pub proof fn lemma_leave_preserves_wf(s: StateV, n: Seq<char>, u: Seq<char>)
    requires
        wf(s),
    ensures
        spec_leave(s, n, u) matches Ok(s2) ==> wf(s2),
{
    if room_named(s, n) && spec_is_member(s, n, u) {
        let s2 = spec_leave(s, n, u)->Ok_0;
        assert(s2.users.len() == s.users.len());
        assert(s2.rooms.len() == s.rooms.len());
        assert forall|i: int| 0 <= i < s.users.len() implies #[trigger] s2.users[i]
            == (if s.users[i].username == u {
            drop_room_name(s.users[i], n)
        } else {
            s.users[i]
        }) by {}
        assert forall|j: int| 0 <= j < s.rooms.len() implies #[trigger] s2.rooms[j]
            == (if s.rooms[j].name == n {
            drop_member(s.rooms[j], u)
        } else {
            s.rooms[j]
        }) by {}
        assert forall|i: int| 0 <= i < s.users.len() implies #[trigger] s2.users[i].username
            == s.users[i].username && s2.users[i].addr == s.users[i].addr by {}
        assert forall|j: int| 0 <= j < s.rooms.len() implies #[trigger] s2.rooms[j].name
            == s.rooms[j].name by {}
        assert(usernames_unique(s2.users));
        assert(addrs_unique(s2.users));
        assert(room_names_unique(s2.rooms));
        assert forall|x: Seq<char>| room_named(s, x) implies room_named(s2, x) by {
            let j = choose|j: int| 0 <= j < s.rooms.len() && s.rooms[j].name == x;
            assert(s2.rooms[j].name == x);
        }
        assert forall|x: Seq<char>| user_named(s, x) implies user_named(s2, x) by {
            let i = choose|i: int| 0 <= i < s.users.len() && s.users[i].username == x;
            assert(s2.users[i].username == x);
        }
        assert(users_each_wf(s2.users)) by {
            assert forall|i: int| 0 <= i < s2.users.len() implies (
            #[trigger] s2.users[i].rooms).no_duplicates() by {
                if s.users[i].username == u {
                    lemma_remove_name_no_dup(s.users[i].rooms, n);
                }
            }
        }
        assert(rooms_each_wf(s2.rooms)) by {
            assert forall|j: int|
                0 <= j < s2.rooms.len() implies !reserved_name(#[trigger] s2.rooms[j].name)
                && s2.rooms[j].members.no_duplicates() by {
                assert(!reserved_name(s.rooms[j].name));
                if s.rooms[j].name == n {
                    lemma_remove_name_no_dup(s.rooms[j].members, u);
                }
            }
        }
        assert(members_registered(s2)) by {
            assert forall|j: int, k: int|
                0 <= j < s2.rooms.len() && 0 <= k < s2.rooms[j].members.len() implies user_named(
                s2,
                #[trigger] s2.rooms[j].members[k],
            ) by {
                let x = s2.rooms[j].members[k];
                if s.rooms[j].name == n {
                    assert(s2.rooms[j].members.contains(x));
                    lemma_remove_name_contains(s.rooms[j].members, u, x);
                    let k0 = choose|k0: int|
                        0 <= k0 < s.rooms[j].members.len() && s.rooms[j].members[k0] == x;
                    assert(user_named(s, s.rooms[j].members[k0]));
                } else {
                    assert(x == s.rooms[j].members[k]);
                    assert(user_named(s, s.rooms[j].members[k]));
                }
            }
        }
        assert(user_rooms_exist(s2)) by {
            assert forall|i: int, k: int|
                0 <= i < s2.users.len() && 0 <= k < s2.users[i].rooms.len() implies room_named(
                s2,
                #[trigger] s2.users[i].rooms[k],
            ) by {
                let x = s2.users[i].rooms[k];
                if s.users[i].username == u {
                    assert(s2.users[i].rooms.contains(x));
                    lemma_remove_name_contains(s.users[i].rooms, n, x);
                    let k0 = choose|k0: int|
                        0 <= k0 < s.users[i].rooms.len() && s.users[i].rooms[k0] == x;
                    assert(room_named(s, s.users[i].rooms[k0]));
                } else {
                    assert(x == s.users[i].rooms[k]);
                    assert(room_named(s, s.users[i].rooms[k]));
                }
            }
        }
        assert(membership_consistent(s2)) by {
            assert forall|i: int, j: int|
                0 <= i < s2.users.len() && 0 <= j < s2.rooms.len() implies (
            (#[trigger] s2.rooms[j].members).contains(s2.users[i].username) <==> (
            #[trigger] s2.users[i].rooms).contains(s2.rooms[j].name)) by {
                let id = s.users[i];
                let r = s.rooms[j];
                if id.username == u && r.name == n {
                    lemma_remove_name_contains(r.members, u, u);
                    lemma_remove_name_contains(id.rooms, n, n);
                    assert(!s2.rooms[j].members.contains(u));
                    assert(!s2.users[i].rooms.contains(n));
                } else if id.username == u {
                    assert(s2.rooms[j] == r);
                    lemma_remove_name_contains(id.rooms, n, r.name);
                    assert(s2.users[i].rooms.contains(r.name) <==> id.rooms.contains(r.name));
                } else if r.name == n {
                    assert(s2.users[i] == id);
                    lemma_remove_name_contains(r.members, u, id.username);
                    assert(s2.rooms[j].members.contains(id.username) <==> r.members.contains(
                        id.username,
                    ));
                } else {
                    assert(s2.users[i] == id && s2.rooms[j] == r);
                }
            }
        }
    }
}

} // verus!

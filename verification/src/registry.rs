//! The server's state: the live sessions, the live rooms, and what ties them together.

use crate::protocol::{ChatId, ChatTitle, InviteId, UserId, UserName, Version};
use crate::text::{opt_view, strs};
use crate::validator::{
    acceptable_name, acceptable_title, is_valid_name, MAX_NAME_LEN, MAX_TITLE_LEN, MIN_LEN,
};
use vstd::prelude::*;

verus! {

/// A registered connection: who it is, which room it is in, and whether its stream is up.
#[derive(Debug, Clone, PartialEq, Eq)]
pub struct Session {
    pub id: UserId,
    pub name: UserName,
    pub room: Option<ChatId>,
    pub bound: bool,
}

pub struct SessionView {
    pub id: Seq<char>,
    pub name: Seq<char>,
    pub room: Option<Seq<char>>,
    pub bound: bool,
}

impl View for Session {
    type V = SessionView;

    open spec fn view(&self) -> SessionView {
        SessionView {
            id: self.id@,
            name: self.name@,
            room: match self.room {
                Some(r) => Some(r@),
                None => None,
            },
            bound: self.bound,
        }
    }
}

/// A room: its owner, its members in the order in which they came, and the invites
/// that nobody has used yet.
#[derive(Debug, Clone, PartialEq, Eq)]
pub struct Room {
    pub id: ChatId,
    pub title: ChatTitle,
    pub owner: UserId,
    pub members: Vec<UserId>,
    pub invites: Vec<InviteId>,
}

pub struct RoomView {
    pub id: Seq<char>,
    pub title: Seq<char>,
    pub owner: Seq<char>,
    pub members: Seq<Seq<char>>,
    pub invites: Seq<Seq<char>>,
}

impl View for Room {
    type V = RoomView;

    open spec fn view(&self) -> RoomView {
        RoomView {
            id: self.id@,
            title: self.title@,
            owner: self.owner@,
            members: strs(self.members@),
            invites: strs(self.invites@),
        }
    }
}

impl RoomView {
    /// The title is acceptable, the owner is a member, and no member and no invite
    /// occurs twice.
    pub open spec fn ok(self) -> bool {
        &&& acceptable_title(self.title)
        &&& self.members.contains(self.owner)
        &&& self.members.no_duplicates()
        &&& self.invites.no_duplicates()
    }
}

/// The registries. Sessions and rooms stand in the order in which they were made.
#[derive(Debug)]
pub struct Server {
    pub(crate) version: Version,
    pub(crate) sessions: Vec<Session>,
    pub(crate) rooms: Vec<Room>,
}

pub struct ServerView {
    pub version: Seq<char>,
    pub sessions: Seq<SessionView>,
    pub rooms: Seq<RoomView>,
}

/// The views of the sessions of `v`, in order.
pub open spec fn session_views(v: Seq<Session>) -> Seq<SessionView> {
    Seq::new(v.len(), |i: int| v[i]@)
}

/// The views of the rooms of `v`, in order.
pub open spec fn room_views(v: Seq<Room>) -> Seq<RoomView> {
    Seq::new(v.len(), |i: int| v[i]@)
}

impl View for Server {
    type V = ServerView;

    open(crate) spec fn view(&self) -> ServerView {
        ServerView {
            version: self.version@,
            sessions: session_views(self.sessions@),
            rooms: room_views(self.rooms@),
        }
    }
}

impl ServerView {
    /// Whether a session with this id is registered.
    pub open spec fn has_session(self, id: Seq<char>) -> bool {
        exists|i: int| 0 <= i < self.sessions.len() && (#[trigger] self.sessions[i]).id == id
    }

    /// Where the session with this id stands.
    pub open spec fn session_pos(self, id: Seq<char>) -> int {
        choose|i: int| 0 <= i < self.sessions.len() && (#[trigger] self.sessions[i]).id == id
    }

    /// The session with this id.
    pub open spec fn session(self, id: Seq<char>) -> SessionView {
        self.sessions[self.session_pos(id)]
    }

    /// Whether a room with this id exists.
    pub open spec fn has_room(self, id: Seq<char>) -> bool {
        exists|r: int| 0 <= r < self.rooms.len() && (#[trigger] self.rooms[r]).id == id
    }

    /// Where the room with this id stands.
    pub open spec fn room_pos(self, id: Seq<char>) -> int {
        choose|r: int| 0 <= r < self.rooms.len() && (#[trigger] self.rooms[r]).id == id
    }

    /// The room with this id.
    pub open spec fn room(self, id: Seq<char>) -> RoomView {
        self.rooms[self.room_pos(id)]
    }

    /// Whether some room has this title.
    pub open spec fn has_title(self, title: Seq<char>) -> bool {
        exists|r: int| 0 <= r < self.rooms.len() && (#[trigger] self.rooms[r]).title == title
    }

    /// Whether the room at `r` is the first with this title.
    pub open spec fn is_first_titled(self, title: Seq<char>, r: int) -> bool {
        &&& 0 <= r < self.rooms.len()
        &&& self.rooms[r].title == title
        &&& forall|q: int| 0 <= q < r ==> (#[trigger] self.rooms[q]).title != title
    }

    /// Where the first room with this title stands.
    pub open spec fn first_titled(self, title: Seq<char>) -> int {
        choose|r: int| self.is_first_titled(title, r)
    }

    /// The room that the session with this id is in, if it is registered and in one.
    pub open spec fn room_of(self, id: Seq<char>) -> Option<Seq<char>> {
        if self.has_session(id) {
            self.session(id).room
        } else {
            None
        }
    }

    /// Whether the session with this id is registered and its stream is up.
    pub open spec fn is_bound(self, id: Seq<char>) -> bool {
        self.has_session(id) && self.session(id).bound
    }

    /// The ids of the sessions, in order.
    pub open spec fn session_ids(self) -> Seq<Seq<char>> {
        Seq::new(self.sessions.len(), |i: int| self.sessions[i].id)
    }

    /// The ids of the rooms, in order.
    pub open spec fn room_ids(self) -> Seq<Seq<char>> {
        Seq::new(self.rooms.len(), |r: int| self.rooms[r].id)
    }

    /// No two sessions share an id.
    pub open spec fn distinct_sessions(self) -> bool {
        forall|i: int, j: int|
            0 <= i < j < self.sessions.len() ==> (#[trigger] self.sessions[i]).id != (
            #[trigger] self.sessions[j]).id
    }

    /// No two rooms share an id.
    pub open spec fn distinct_rooms(self) -> bool {
        forall|r: int, q: int|
            0 <= r < q < self.rooms.len() ==> (#[trigger] self.rooms[r]).id != (
            #[trigger] self.rooms[q]).id
    }

    /// Every display name is acceptable.
    pub open spec fn names_ok(self) -> bool {
        forall|i: int|
            0 <= i < self.sessions.len() ==> acceptable_name((#[trigger] self.sessions[i]).name)
    }

    /// Every room is in order by itself.
    pub open spec fn rooms_ok(self) -> bool {
        forall|r: int| 0 <= r < self.rooms.len() ==> (#[trigger] self.rooms[r]).ok()
    }

    /// A session is in a room exactly if it is among the room's members.
    pub open spec fn linked(self) -> bool {
        forall|i: int, r: int|
            0 <= i < self.sessions.len() && 0 <= r < self.rooms.len() ==> ((
            #[trigger] self.sessions[i]).room == Some((#[trigger] self.rooms[r]).id)
                <==> self.rooms[r].members.contains(self.sessions[i].id))
    }

    /// Every member of a room is a registered session.
    pub open spec fn members_known(self) -> bool {
        forall|r: int, k: int|
            0 <= r < self.rooms.len() && 0 <= k < self.rooms[r].members.len()
                ==> self.has_session(#[trigger] self.rooms[r].members[k])
    }

    /// The room that a session is in exists.
    pub open spec fn rooms_known(self) -> bool {
        forall|i: int|
            0 <= i < self.sessions.len() && (#[trigger] self.sessions[i]).room is Some
                ==> self.has_room(self.sessions[i].room.unwrap())
    }

    /// What holds of the registries at all times.
    pub open spec fn wf(self) -> bool {
        &&& self.distinct_sessions()
        &&& self.distinct_rooms()
        &&& self.names_ok()
        &&& self.rooms_ok()
        &&& self.linked()
        &&& self.members_known()
        &&& self.rooms_known()
    }

    /// The registries of a server that has just started.
    pub open spec fn empty(version: Seq<char>) -> ServerView {
        ServerView { version: version, sessions: Seq::empty(), rooms: Seq::empty() }
    }
}

/// Where `x` stands in `s`.
pub open spec fn pos_of(s: Seq<Seq<char>>, x: Seq<char>) -> int {
    choose|k: int| 0 <= k < s.len() && s[k] == x
}

/// Where `x` first stands in `v`, if it is there.
pub fn find_str(v: &Vec<String>, x: &String) -> (r: Option<usize>)
    ensures
        match r {
            Some(k) => {
                &&& k < v.len()
                &&& v[k as int]@ == x@
                &&& forall|j: int| 0 <= j < k ==> (#[trigger] v[j])@ != x@
            },
            None => !strs(v@).contains(x@),
        },
{
    let mut k: usize = 0;
    while k < v.len()
        invariant
            k <= v.len(),
            forall|j: int| 0 <= j < k ==> (#[trigger] v[j])@ != x@,
        decreases v.len() - k,
    {
        if v[k] == *x {
            return Some(k);
        }
        k = k + 1;
    }
    proof {
        assert forall|j: int| 0 <= j < strs(v@).len() implies strs(v@)[j] != x@ by {
            assert(v[j]@ != x@);
        }
    }
    None
}

/// Where `x` first stands in `v`, which holds it.
pub fn str_at(v: &Vec<String>, x: &String) -> (k: usize)
    requires
        strs(v@).contains(x@),
    ensures
        k < v.len(),
        v[k as int]@ == x@,
        forall|j: int| 0 <= j < k ==> (#[trigger] v[j])@ != x@,
{
    proof {
        let q = choose|q: int| 0 <= q < strs(v@).len() && strs(v@)[q] == x@;
        assert(v[q]@ == x@);
    }
    let mut k: usize = 0;
    while !(v[k] == *x)
        invariant
            k < v.len(),
            exists|q: int| k <= q < v.len() && (#[trigger] v[q])@ == x@,
            forall|j: int| 0 <= j < k ==> (#[trigger] v[j])@ != x@,
        decreases v.len() - k,
    {
        k = k + 1;
    }
    k
}

impl Server {
    /// A server without sessions and rooms, which reports `version` as its version.
    pub fn new(version: Version) -> (s: Server)
        ensures
            s@ == ServerView::empty(version@),
            s@.wf(),
    {
        let s = Server { version: version, sessions: Vec::new(), rooms: Vec::new() };
        proof {
            assert(s@.sessions =~= Seq::<SessionView>::empty());
            assert(s@.rooms =~= Seq::<RoomView>::empty());
        }
        s
    }

    /// Where the session with this id stands, if it is registered.
    pub(crate) fn find_session(&self, id: &String) -> (r: Option<usize>)
        ensures
            match r {
                Some(i) => i < self.sessions.len() && self.sessions[i as int]@.id == id@,
                None => !self@.has_session(id@),
            },
            r is Some <==> self@.has_session(id@),
    {
        let mut i: usize = 0;
        while i < self.sessions.len()
            invariant
                i <= self.sessions.len(),
                forall|j: int| 0 <= j < i ==> (#[trigger] self.sessions[j])@.id != id@,
            decreases self.sessions.len() - i,
        {
            if self.sessions[i].id == *id {
                proof {
                    assert(self@.sessions[i as int].id == id@);
                }
                return Some(i);
            }
            i = i + 1;
        }
        proof {
            assert forall|j: int| 0 <= j < self@.sessions.len() implies (
            #[trigger] self@.sessions[j]).id != id@ by {
                assert(self.sessions[j]@.id != id@);
            }
        }
        None
    }

    /// Where the room with this id stands, if it exists.
    pub(crate) fn find_room(&self, id: &String) -> (r: Option<usize>)
        ensures
            match r {
                Some(i) => i < self.rooms.len() && self.rooms[i as int]@.id == id@,
                None => !self@.has_room(id@),
            },
            r is Some <==> self@.has_room(id@),
    {
        let mut i: usize = 0;
        while i < self.rooms.len()
            invariant
                i <= self.rooms.len(),
                forall|j: int| 0 <= j < i ==> (#[trigger] self.rooms[j])@.id != id@,
            decreases self.rooms.len() - i,
        {
            if self.rooms[i].id == *id {
                proof {
                    assert(self@.rooms[i as int].id == id@);
                }
                return Some(i);
            }
            i = i + 1;
        }
        proof {
            assert forall|j: int| 0 <= j < self@.rooms.len() implies (
            #[trigger] self@.rooms[j]).id != id@ by {
                assert(self.rooms[j]@.id != id@);
            }
        }
        None
    }

    /// Where the session with this id stands, which is registered.
    pub(crate) fn session_at(&self, id: &String) -> (i: usize)
        requires
            self@.has_session(id@),
        ensures
            i < self.sessions.len(),
            self.sessions[i as int]@.id == id@,
    {
        proof {
            let q = self@.session_pos(id@);
            assert(self.sessions[q]@.id == id@);
        }
        let mut i: usize = 0;
        while !(self.sessions[i].id == *id)
            invariant
                i < self.sessions.len(),
                exists|q: int|
                    i <= q < self.sessions.len() && (#[trigger] self.sessions[q])@.id == id@,
            decreases self.sessions.len() - i,
        {
            i = i + 1;
        }
        i
    }

    /// Where the room with this id stands, which exists.
    pub(crate) fn room_at(&self, id: &String) -> (r: usize)
        requires
            self@.has_room(id@),
        ensures
            r < self.rooms.len(),
            self.rooms[r as int]@.id == id@,
    {
        proof {
            let q = self@.room_pos(id@);
            assert(self.rooms[q]@.id == id@);
        }
        let mut r: usize = 0;
        while !(self.rooms[r].id == *id)
            invariant
                r < self.rooms.len(),
                exists|q: int| r <= q < self.rooms.len() && (#[trigger] self.rooms[q])@.id == id@,
            decreases self.rooms.len() - r,
        {
            r = r + 1;
        }
        r
    }

    /// Where the first room with this title stands, if there is one.
    pub(crate) fn find_titled(&self, title: &String) -> (r: Option<usize>)
        ensures
            match r {
                Some(i) => self@.is_first_titled(title@, i as int),
                None => !self@.has_title(title@),
            },
            r is Some <==> self@.has_title(title@),
    {
        let mut i: usize = 0;
        while i < self.rooms.len()
            invariant
                i <= self.rooms.len(),
                forall|j: int| 0 <= j < i ==> (#[trigger] self.rooms[j])@.title != title@,
            decreases self.rooms.len() - i,
        {
            if self.rooms[i].title == *title {
                proof {
                    assert(self@.rooms[i as int].title == title@);
                    assert forall|q: int| 0 <= q < i implies (#[trigger] self@.rooms[q]).title
                        != title@ by {
                        assert(self.rooms[q]@.title != title@);
                    }
                }
                return Some(i);
            }
            i = i + 1;
        }
        proof {
            assert forall|j: int| 0 <= j < self@.rooms.len() implies (
            #[trigger] self@.rooms[j]).title != title@ by {
                assert(self.rooms[j]@.title != title@);
            }
        }
        None
    }
}

impl ServerView {
    /// The registries with one more session, at the end.
    pub open spec fn with_session(self, s: SessionView) -> ServerView {
        ServerView { sessions: self.sessions.push(s), ..self }
    }

    /// The registries without the session with this id.
    pub open spec fn without_session(self, id: Seq<char>) -> ServerView {
        ServerView { sessions: self.sessions.remove(self.session_pos(id)), ..self }
    }

    /// The registries with the session with this id put into `room`, or into none.
    pub open spec fn with_room(self, id: Seq<char>, room: Option<Seq<char>>) -> ServerView {
        ServerView {
            sessions: Seq::new(
                self.sessions.len(),
                |i: int|
                    if self.sessions[i].id == id {
                        SessionView { room: room, ..self.sessions[i] }
                    } else {
                        self.sessions[i]
                    },
            ),
            ..self
        }
    }

    /// The registries with the stream of the session with this id up.
    pub open spec fn with_stream(self, id: Seq<char>) -> ServerView {
        ServerView {
            sessions: Seq::new(
                self.sessions.len(),
                |i: int|
                    if self.sessions[i].id == id {
                        SessionView { bound: true, ..self.sessions[i] }
                    } else {
                        self.sessions[i]
                    },
            ),
            ..self
        }
    }

    /// The registries with every session that is in the room `rid` put into none.
    pub open spec fn emptied(self, rid: Seq<char>) -> ServerView {
        ServerView {
            sessions: Seq::new(
                self.sessions.len(),
                |i: int|
                    if self.sessions[i].room == Some(rid) {
                        SessionView { room: None, ..self.sessions[i] }
                    } else {
                        self.sessions[i]
                    },
            ),
            ..self
        }
    }

    /// The registries with one more room, at the end.
    pub open spec fn with_new_room(self, r: RoomView) -> ServerView {
        ServerView { rooms: self.rooms.push(r), ..self }
    }

    /// The registries without the room with this id.
    pub open spec fn without_room(self, rid: Seq<char>) -> ServerView {
        ServerView { rooms: self.rooms.remove(self.room_pos(rid)), ..self }
    }

    /// The registries with `members` as the members of the room `rid`.
    pub open spec fn with_members(self, rid: Seq<char>, members: Seq<Seq<char>>) -> ServerView {
        ServerView {
            rooms: Seq::new(
                self.rooms.len(),
                |r: int|
                    if self.rooms[r].id == rid {
                        RoomView { members: members, ..self.rooms[r] }
                    } else {
                        self.rooms[r]
                    },
            ),
            ..self
        }
    }

    /// The registries with `invites` as the unused invites of the room `rid`.
    pub open spec fn with_invites(self, rid: Seq<char>, invites: Seq<Seq<char>>) -> ServerView {
        ServerView {
            rooms: Seq::new(
                self.rooms.len(),
                |r: int|
                    if self.rooms[r].id == rid {
                        RoomView { invites: invites, ..self.rooms[r] }
                    } else {
                        self.rooms[r]
                    },
            ),
            ..self
        }
    }
}

/// `s` without `x`, where `x` occurs in `s`.
pub open spec fn without(s: Seq<Seq<char>>, x: Seq<char>) -> Seq<Seq<char>> {
    s.remove(pos_of(s, x))
}

/// Among sessions with distinct ids, an id is found where it stands.
pub proof fn lemma_session_pos(v: ServerView, i: int)
    requires
        v.distinct_sessions(),
        0 <= i < v.sessions.len(),
    ensures
        v.has_session(v.sessions[i].id),
        v.session_pos(v.sessions[i].id) == i,
        v.session(v.sessions[i].id) == v.sessions[i],
{
    let id = v.sessions[i].id;
    let j = v.session_pos(id);
    assert(0 <= j < v.sessions.len() && v.sessions[j].id == id);
    if j < i {
        assert(v.sessions[j].id != v.sessions[i].id);
    } else if i < j {
        assert(v.sessions[i].id != v.sessions[j].id);
    }
}

/// Among rooms with distinct ids, an id is found where it stands.
pub proof fn lemma_room_pos(v: ServerView, r: int)
    requires
        v.distinct_rooms(),
        0 <= r < v.rooms.len(),
    ensures
        v.has_room(v.rooms[r].id),
        v.room_pos(v.rooms[r].id) == r,
        v.room(v.rooms[r].id) == v.rooms[r],
{
    let id = v.rooms[r].id;
    let q = v.room_pos(id);
    assert(0 <= q < v.rooms.len() && v.rooms[q].id == id);
    if q < r {
        assert(v.rooms[q].id != v.rooms[r].id);
    } else if r < q {
        assert(v.rooms[r].id != v.rooms[q].id);
    }
}

/// In a sequence without duplicates, an item is found where it stands.
pub proof fn lemma_pos_of(s: Seq<Seq<char>>, k: int)
    requires
        s.no_duplicates(),
        0 <= k < s.len(),
    ensures
        pos_of(s, s[k]) == k,
{
    let j = pos_of(s, s[k]);
    assert(0 <= j < s.len() && s[j] == s[k]);
}

/// The first room with a title is found where it stands.
pub proof fn lemma_first_titled(v: ServerView, title: Seq<char>, r: int)
    requires
        v.is_first_titled(title, r),
    ensures
        v.has_title(title),
        v.first_titled(title) == r,
{
    let q = v.first_titled(title);
    assert(v.is_first_titled(title, q));
    if q < r {
        assert(v.rooms[q].title != title);
    } else if r < q {
        assert(v.rooms[r].title != title);
    }
}

/// Where a room has a title, some room is the first with it.
pub proof fn lemma_first_exists(v: ServerView, title: Seq<char>, j: int)
    requires
        0 <= j < v.rooms.len(),
        v.rooms[j].title == title,
    ensures
        v.is_first_titled(title, v.first_titled(title)),
    decreases j,
{
    if forall|q: int| 0 <= q < j ==> (#[trigger] v.rooms[q]).title != title {
        assert(v.is_first_titled(title, j));
    } else {
        let q = choose|q: int| 0 <= q < j && (#[trigger] v.rooms[q]).title == title;
        lemma_first_exists(v, title, q);
    }
}

/// The views of the strings of a list that may be absent.
pub open spec fn list_view(v: Option<Vec<String>>) -> Option<Seq<Seq<char>>> {
    match v {
        Some(v) => Some(strs(v@)),
        None => None,
    }
}

fn copy_all(v: &Vec<String>) -> (out: Vec<String>)
    ensures
        strs(out@) == strs(v@),
{
    let mut out: Vec<String> = Vec::new();
    let mut j: usize = 0;
    while j < v.len()
        invariant
            j <= v.len(),
            out@.len() == j,
            forall|a: int| 0 <= a < j ==> (#[trigger] out@[a])@ == v@[a]@,
        decreases v.len() - j,
    {
        out.push(v[j].clone());
        j = j + 1;
    }
    proof {
        assert(strs(out@) =~= strs(v@));
    }
    out
}

impl ServerView {
    /// The members of the room with this id, if it exists.
    pub open spec fn members_of(self, rid: Seq<char>) -> Option<Seq<Seq<char>>> {
        if self.has_room(rid) {
            Some(self.room(rid).members)
        } else {
            None
        }
    }

    /// The unused invites of the room with this id, if it exists.
    pub open spec fn invites_of(self, rid: Seq<char>) -> Option<Seq<Seq<char>>> {
        if self.has_room(rid) {
            Some(self.room(rid).invites)
        } else {
            None
        }
    }

    /// The owner of the room with this id, if it exists.
    pub open spec fn owner_of(self, rid: Seq<char>) -> Option<Seq<char>> {
        if self.has_room(rid) {
            Some(self.room(rid).owner)
        } else {
            None
        }
    }

    /// The id of the first room with this title, if there is one.
    pub open spec fn id_of_title(self, title: Seq<char>) -> Option<Seq<char>> {
        if self.has_title(title) {
            Some(self.rooms[self.first_titled(title)].id)
        } else {
            None
        }
    }

    /// The display name of the session with this id, if it is registered.
    pub open spec fn name_of(self, id: Seq<char>) -> Option<Seq<char>> {
        if self.has_session(id) {
            Some(self.session(id).name)
        } else {
            None
        }
    }
}

impl Server {
    /// The version that the server reports.
    pub fn version(&self) -> (r: &Version)
        ensures
            r@ == self@.version,
    {
        &self.version
    }

    /// How many sessions are registered.
    pub fn session_count(&self) -> (n: usize)
        ensures
            n == self@.sessions.len(),
    {
        self.sessions.len()
    }

    /// How many rooms exist.
    pub fn room_count(&self) -> (n: usize)
        ensures
            n == self@.rooms.len(),
    {
        self.rooms.len()
    }

    /// Whether a session with this id is registered.
    pub fn has_session(&self, id: &UserId) -> (b: bool)
        ensures
            b == self@.has_session(id@),
    {
        self.find_session(id).is_some()
    }

    /// Whether a room with this id exists.
    pub fn has_room(&self, id: &ChatId) -> (b: bool)
        ensures
            b == self@.has_room(id@),
    {
        self.find_room(id).is_some()
    }

    /// Whether the session with this id is registered and its stream is up.
    pub fn is_bound(&self, id: &UserId) -> (b: bool)
        requires
            self@.wf(),
        ensures
            b == self@.is_bound(id@),
    {
        match self.find_session(id) {
            Some(i) => {
                proof {
                    lemma_session_pos(self@, i as int);
                }
                self.sessions[i].bound
            },
            None => false,
        }
    }

    /// The display name of the session with this id, if it is registered.
    pub fn user_name(&self, id: &UserId) -> (r: Option<UserName>)
        requires
            self@.wf(),
        ensures
            opt_view(r) == self@.name_of(id@),
    {
        match self.find_session(id) {
            Some(i) => {
                proof {
                    lemma_session_pos(self@, i as int);
                }
                Some(self.sessions[i].name.clone())
            },
            None => None,
        }
    }

    /// The room that the session with this id is in, if it is registered and in one.
    pub fn current_room(&self, id: &UserId) -> (r: Option<ChatId>)
        requires
            self@.wf(),
        ensures
            opt_view(r) == self@.room_of(id@),
    {
        match self.find_session(id) {
            Some(i) => {
                proof {
                    lemma_session_pos(self@, i as int);
                }
                match &self.sessions[i].room {
                    Some(rid) => Some(rid.clone()),
                    None => None,
                }
            },
            None => None,
        }
    }

    /// The members of the room with this id, in the order in which they came, if the
    /// room exists.
    pub fn members(&self, chat_id: &ChatId) -> (r: Option<Vec<UserId>>)
        requires
            self@.wf(),
        ensures
            list_view(r) == self@.members_of(chat_id@),
    {
        match self.find_room(chat_id) {
            Some(q) => {
                proof {
                    lemma_room_pos(self@, q as int);
                }
                Some(copy_all(&self.rooms[q].members))
            },
            None => None,
        }
    }

    /// The unused invites of the room with this id, oldest first, if the room exists.
    pub fn invites(&self, chat_id: &ChatId) -> (r: Option<Vec<InviteId>>)
        requires
            self@.wf(),
        ensures
            list_view(r) == self@.invites_of(chat_id@),
    {
        match self.find_room(chat_id) {
            Some(q) => {
                proof {
                    lemma_room_pos(self@, q as int);
                }
                Some(copy_all(&self.rooms[q].invites))
            },
            None => None,
        }
    }

    /// The owner of the room with this id, if the room exists.
    pub fn owner(&self, chat_id: &ChatId) -> (r: Option<UserId>)
        requires
            self@.wf(),
        ensures
            opt_view(r) == self@.owner_of(chat_id@),
    {
        match self.find_room(chat_id) {
            Some(q) => {
                proof {
                    lemma_room_pos(self@, q as int);
                }
                Some(self.rooms[q].owner.clone())
            },
            None => None,
        }
    }

    /// The id of the first room with this title, if there is one.
    pub fn room_titled(&self, title: &ChatTitle) -> (r: Option<ChatId>)
        ensures
            opt_view(r) == self@.id_of_title(title@),
    {
        match self.find_titled(title) {
            Some(q) => {
                proof {
                    lemma_first_titled(self@, title@, q as int);
                }
                Some(self.rooms[q].id.clone())
            },
            None => None,
        }
    }
}

/// A session that is in a room stands on the list of a room that exists.
pub proof fn lemma_room_of(v: ServerView, id: Seq<char>)
    requires
        v.wf(),
        v.room_of(id) is Some,
    ensures
        v.has_session(id),
        v.has_room(v.room_of(id).unwrap()),
        v.room(v.room_of(id).unwrap()).id == v.room_of(id).unwrap(),
        v.room(v.room_of(id).unwrap()).members.contains(id),
        0 <= v.session_pos(id) < v.sessions.len(),
        0 <= v.room_pos(v.room_of(id).unwrap()) < v.rooms.len(),
        v.session(id).id == id,
{
    let i = v.session_pos(id);
    assert(v.sessions[i].room is Some);
    let rid = v.room_of(id).unwrap();
    assert(v.has_room(rid));
    let r = v.room_pos(rid);
    assert(v.rooms[r].id == rid);
    assert(v.sessions[i].room == Some(v.rooms[r].id));
}

/// Taking a room out leaves every other room in place.
pub proof fn lemma_room_stays(v: ServerView, r: int, x: Seq<char>)
    requires
        0 <= r < v.rooms.len(),
        v.has_room(x),
        v.rooms[r].id != x,
    ensures
        (ServerView { rooms: v.rooms.remove(r), ..v }).has_room(x),
{
    let w = ServerView { rooms: v.rooms.remove(r), ..v };
    let q = v.room_pos(x);
    assert(v.rooms[q].id == x);
    if q < r {
        assert(w.rooms[q].id == x);
    } else {
        assert(w.rooms[q - 1].id == x);
    }
}

/// Taking a session out leaves every other session in place.
pub proof fn lemma_session_stays(v: ServerView, i: int, x: Seq<char>)
    requires
        0 <= i < v.sessions.len(),
        v.has_session(x),
        v.sessions[i].id != x,
    ensures
        (ServerView { sessions: v.sessions.remove(i), ..v }).has_session(x),
{
    let w = ServerView { sessions: v.sessions.remove(i), ..v };
    let j = v.session_pos(x);
    assert(v.sessions[j].id == x);
    if j < i {
        assert(w.sessions[j].id == x);
    } else {
        assert(w.sessions[j - 1].id == x);
    }
}

/// What a sequence without one of its items holds, where no item occurs twice.
pub proof fn lemma_without(s: Seq<Seq<char>>, x: Seq<char>)
    requires
        s.no_duplicates(),
        s.contains(x),
    ensures
        without(s, x).no_duplicates(),
        !without(s, x).contains(x),
        without(s, x).len() + 1 == s.len(),
        forall|y: Seq<char>| y != x ==> (without(s, x).contains(y) <==> s.contains(y)),
{
    let k = pos_of(s, x);
    assert(0 <= k < s.len() && s[k] == x);
    let rest = s.remove(k);
    assert forall|y: Seq<char>| y != x implies (rest.contains(y) <==> s.contains(y)) by {
        if s.contains(y) {
            let j = choose|j: int| 0 <= j < s.len() && s[j] == y;
            if j < k {
                assert(rest[j] == y);
            } else {
                assert(rest[j - 1] == y);
            }
        }
        if rest.contains(y) {
            let j = choose|j: int| 0 <= j < rest.len() && rest[j] == y;
            if j < k {
                assert(s[j] == y);
            } else {
                assert(s[j + 1] == y);
            }
        }
    }
    if rest.contains(x) {
        let j = choose|j: int| 0 <= j < rest.len() && rest[j] == x;
        if j < k {
            assert(s[j] == s[k]);
        } else {
            assert(s[j + 1] == s[k]);
        }
    }
    assert forall|a: int, b: int| 0 <= a < rest.len() && 0 <= b < rest.len() && a
        != b implies rest[a] != rest[b] by {
        let a0 = if a < k {
            a
        } else {
            a + 1
        };
        let b0 = if b < k {
            b
        } else {
            b + 1
        };
        assert(s[a0] != s[b0]);
    }
}

/// Whether no string occurs twice in `v`.
pub fn no_repeats(v: &Vec<String>) -> (b: bool)
    ensures
        b == strs(v@).no_duplicates(),
{
    let mut j: usize = 0;
    while j < v.len()
        invariant
            j <= v.len(),
            forall|a: int, c: int| 0 <= a < c < j ==> (#[trigger] v[a])@ != (#[trigger] v[c])@,
        decreases v.len() - j,
    {
        let mut a: usize = 0;
        while a < j
            invariant
                a <= j < v.len(),
                forall|c: int| 0 <= c < a ==> (#[trigger] v[c])@ != v[j as int]@,
            decreases j - a,
        {
            if v[a] == v[j] {
                proof {
                    assert(strs(v@)[a as int] == strs(v@)[j as int]);
                }
                return false;
            }
            a = a + 1;
        }
        j = j + 1;
    }
    proof {
        assert forall|a: int, c: int|
            0 <= a < strs(v@).len() && 0 <= c < strs(v@).len() && a != c implies strs(v@)[a]
            != strs(v@)[c] by {
            if a < c {
                assert(v[a]@ != v[c]@);
            } else {
                assert(v[c]@ != v[a]@);
            }
        }
    }
    true
}

impl Server {
    fn sessions_distinct(&self) -> (b: bool)
        ensures
            b == self@.distinct_sessions(),
    {
        let n: usize = self.sessions.len();
        let mut j: usize = 0;
        while j < n
            invariant
                j <= n,
                n == self.sessions.len(),
                forall|a: int, c: int|
                    0 <= a < c < j ==> (#[trigger] self.sessions[a]).id@ != (
                    #[trigger] self.sessions[c]).id@,
            decreases n - j,
        {
            let mut a: usize = 0;
            while a < j
                invariant
                    a <= j < n,
                    n == self.sessions.len(),
                    forall|c: int|
                        0 <= c < a ==> (#[trigger] self.sessions[c]).id@ != self.sessions[j as int].id@,
                decreases j - a,
            {
                if self.sessions[a].id == self.sessions[j].id {
                    proof {
                        assert(self@.sessions[a as int].id == self@.sessions[j as int].id);
                    }
                    return false;
                }
                a = a + 1;
            }
            j = j + 1;
        }
        proof {
            assert forall|a: int, c: int| 0 <= a < c < self@.sessions.len() implies (
            #[trigger] self@.sessions[a]).id != (#[trigger] self@.sessions[c]).id by {
                assert(self.sessions[a].id@ != self.sessions[c].id@);
            }
        }
        true
    }

    fn rooms_distinct(&self) -> (b: bool)
        ensures
            b == self@.distinct_rooms(),
    {
        let n: usize = self.rooms.len();
        let mut j: usize = 0;
        while j < n
            invariant
                j <= n,
                n == self.rooms.len(),
                forall|a: int, c: int|
                    0 <= a < c < j ==> (#[trigger] self.rooms[a]).id@ != (
                    #[trigger] self.rooms[c]).id@,
            decreases n - j,
        {
            let mut a: usize = 0;
            while a < j
                invariant
                    a <= j < n,
                    n == self.rooms.len(),
                    forall|c: int|
                        0 <= c < a ==> (#[trigger] self.rooms[c]).id@ != self.rooms[j as int].id@,
                decreases j - a,
            {
                if self.rooms[a].id == self.rooms[j].id {
                    proof {
                        assert(self@.rooms[a as int].id == self@.rooms[j as int].id);
                    }
                    return false;
                }
                a = a + 1;
            }
            j = j + 1;
        }
        proof {
            assert forall|a: int, c: int| 0 <= a < c < self@.rooms.len() implies (
            #[trigger] self@.rooms[a]).id != (#[trigger] self@.rooms[c]).id by {
                assert(self.rooms[a].id@ != self.rooms[c].id@);
            }
        }
        true
    }

    fn names_in_order(&self) -> (b: bool)
        ensures
            b == self@.names_ok(),
    {
        let mut i: usize = 0;
        while i < self.sessions.len()
            invariant
                i <= self.sessions.len(),
                forall|a: int| 0 <= a < i ==> acceptable_name((#[trigger] self.sessions[a]).name@),
            decreases self.sessions.len() - i,
        {
            let n: usize = self.sessions[i].name.as_str().unicode_len();
            if n < MIN_LEN || n > MAX_NAME_LEN || !is_valid_name(self.sessions[i].name.as_str()) {
                proof {
                    assert(!acceptable_name(self@.sessions[i as int].name));
                }
                return false;
            }
            i = i + 1;
        }
        proof {
            assert forall|a: int| 0 <= a < self@.sessions.len() implies acceptable_name(
                (#[trigger] self@.sessions[a]).name,
            ) by {
                assert(acceptable_name(self.sessions[a].name@));
            }
        }
        true
    }

    fn rooms_in_order(&self) -> (b: bool)
        ensures
            b == self@.rooms_ok(),
    {
        let mut r: usize = 0;
        while r < self.rooms.len()
            invariant
                r <= self.rooms.len(),
                forall|a: int| 0 <= a < r ==> (#[trigger] self.rooms[a])@.ok(),
            decreases self.rooms.len() - r,
        {
            let room = &self.rooms[r];
            let n: usize = room.title.as_str().unicode_len();
            let owner = find_str(&room.members, &room.owner);
            proof {
                if owner is Some {
                    assert(strs(room.members@)[owner.unwrap() as int] == room.owner@);
                }
            }
            if n < MIN_LEN || n > MAX_TITLE_LEN || !is_valid_name(room.title.as_str())
                || owner.is_none() || !no_repeats(&room.members) || !no_repeats(&room.invites) {
                proof {
                    assert(!self@.rooms[r as int].ok());
                }
                return false;
            }
            r = r + 1;
        }
        proof {
            assert forall|a: int| 0 <= a < self@.rooms.len() implies (#[trigger] self@.rooms[a]).ok() by {
                assert(self.rooms[a]@.ok());
            }
        }
        true
    }

    fn links_hold(&self) -> (b: bool)
        ensures
            b == self@.linked(),
    {
        let mut i: usize = 0;
        while i < self.sessions.len()
            invariant
                i <= self.sessions.len(),
                forall|a: int, q: int|
                    0 <= a < i && 0 <= q < self.rooms.len() ==> ((
                    #[trigger] self@.sessions[a]).room == Some((#[trigger] self@.rooms[q]).id)
                        <==> self@.rooms[q].members.contains(self@.sessions[a].id)),
            decreases self.sessions.len() - i,
        {
            let mut r: usize = 0;
            while r < self.rooms.len()
                invariant
                    r <= self.rooms.len(),
                    i < self.sessions.len(),
                    forall|q: int|
                        0 <= q < r ==> (self@.sessions[i as int].room == Some(
                            (#[trigger] self@.rooms[q]).id,
                        ) <==> self@.rooms[q].members.contains(self@.sessions[i as int].id)),
                decreases self.rooms.len() - r,
            {
                let inside = match &self.sessions[i].room {
                    Some(x) => *x == self.rooms[r].id,
                    None => false,
                };
                let found = find_str(&self.rooms[r].members, &self.sessions[i].id);
                proof {
                    if found is Some {
                        assert(strs(self.rooms[r as int].members@)[found.unwrap() as int]
                            == self.sessions[i as int].id@);
                    }
                    assert(inside == (self@.sessions[i as int].room == Some(
                        self@.rooms[r as int].id,
                    )));
                    assert(found.is_some() == self@.rooms[r as int].members.contains(
                        self@.sessions[i as int].id,
                    ));
                }
                if inside != found.is_some() {
                    return false;
                }
                r = r + 1;
            }
            i = i + 1;
        }
        true
    }

    fn members_registered(&self) -> (b: bool)
        ensures
            b == self@.members_known(),
    {
        let mut r: usize = 0;
        while r < self.rooms.len()
            invariant
                r <= self.rooms.len(),
                forall|q: int, k: int|
                    0 <= q < r && 0 <= k < self@.rooms[q].members.len() ==> self@.has_session(
                        #[trigger] self@.rooms[q].members[k],
                    ),
            decreases self.rooms.len() - r,
        {
            let mut k: usize = 0;
            while k < self.rooms[r].members.len()
                invariant
                    r < self.rooms.len(),
                    k <= self.rooms[r as int].members.len(),
                    forall|j: int|
                        0 <= j < k ==> self@.has_session(#[trigger] self@.rooms[r as int].members[j]),
                decreases self.rooms[r as int].members.len() - k,
            {
                proof {
                    assert(self@.rooms[r as int].members[k as int]
                        == self.rooms[r as int].members[k as int]@);
                }
                if self.find_session(&self.rooms[r].members[k]).is_none() {
                    return false;
                }
                k = k + 1;
            }
            r = r + 1;
        }
        true
    }

    fn rooms_exist(&self) -> (b: bool)
        ensures
            b == self@.rooms_known(),
    {
        let mut i: usize = 0;
        while i < self.sessions.len()
            invariant
                i <= self.sessions.len(),
                forall|a: int|
                    0 <= a < i && (#[trigger] self@.sessions[a]).room is Some ==> self@.has_room(
                        self@.sessions[a].room.unwrap(),
                    ),
            decreases self.sessions.len() - i,
        {
            match &self.sessions[i].room {
                Some(x) => {
                    if self.find_room(x).is_none() {
                        proof {
                            assert(self@.sessions[i as int].room == Some(x@));
                        }
                        return false;
                    }
                },
                None => {},
            }
            i = i + 1;
        }
        true
    }

    /// Whether the registries are in order. A server made by `new` and changed only by
    /// its own methods always is.
    pub fn is_wf(&self) -> (b: bool)
        ensures
            b == self@.wf(),
    {
        self.sessions_distinct() && self.rooms_distinct() && self.names_in_order()
            && self.rooms_in_order() && self.links_hold() && self.members_registered()
            && self.rooms_exist()
    }
}

/// Sessions that keep their ids and names keep them distinct and acceptable, and
/// whoever was registered still is.
pub proof fn lemma_sessions_kept(v: ServerView, w: ServerView)
    requires
        v.distinct_sessions(),
        v.names_ok(),
        w.sessions.len() == v.sessions.len(),
        forall|i: int|
            0 <= i < v.sessions.len() ==> (#[trigger] w.sessions[i]).id == v.sessions[i].id
                && w.sessions[i].name == v.sessions[i].name,
    ensures
        w.distinct_sessions(),
        w.names_ok(),
        forall|x: Seq<char>| v.has_session(x) ==> w.has_session(x),
{
    assert forall|a: int, b: int| 0 <= a < b < w.sessions.len() implies (
    #[trigger] w.sessions[a]).id != (#[trigger] w.sessions[b]).id by {
        assert(v.sessions[a].id != v.sessions[b].id);
    }
    assert forall|a: int| 0 <= a < w.sessions.len() implies acceptable_name(
        (#[trigger] w.sessions[a]).name,
    ) by {
        assert(acceptable_name(v.sessions[a].name));
    }
    assert forall|x: Seq<char>| v.has_session(x) implies w.has_session(x) by {
        assert(w.sessions[v.session_pos(x)].id == x);
    }
}

/// Rooms that keep their ids keep them distinct, and whatever room existed still does.
pub proof fn lemma_rooms_kept(v: ServerView, w: ServerView)
    requires
        v.distinct_rooms(),
        w.rooms.len() == v.rooms.len(),
        forall|r: int| 0 <= r < v.rooms.len() ==> (#[trigger] w.rooms[r]).id == v.rooms[r].id,
    ensures
        w.distinct_rooms(),
        forall|x: Seq<char>| v.has_room(x) ==> w.has_room(x),
{
    assert forall|a: int, b: int| 0 <= a < b < w.rooms.len() implies (#[trigger] w.rooms[a]).id
        != (#[trigger] w.rooms[b]).id by {
        assert(v.rooms[a].id != v.rooms[b].id);
    }
    assert forall|x: Seq<char>| v.has_room(x) implies w.has_room(x) by {
        assert(w.rooms[v.room_pos(x)].id == x);
    }
}

} // verus!

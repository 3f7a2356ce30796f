//! Sessions come and go: registration, the check before a stream is opened, and
//! unregistration with its cleanup.

use crate::chat::{lemma_left_wf, outs, Delivery, DeliveryView};
use crate::protocol::{
    Response, ResponseView, ServerConnectRequest, ServerConnectResponse,
    ServerDisconnectRequest, ServerDisconnectResponse, UserId, UserName,
};
use crate::registry::{
    lemma_room_of, lemma_session_pos, lemma_session_stays, Server, ServerView, Session,
    SessionView,
};
use crate::text::{decimal, decimal_string, trim, trimmed};
use crate::token::{fresh_token, is_id, lemma_at_least_drops, at_least};
use crate::validator::{acceptable_name, is_valid_name, valid_name, MAX_NAME_LEN, MIN_LEN};
use vstd::prelude::*;
use vstd::string::*;

verus! {

/// Why a stream cannot be opened.
#[derive(Debug, Clone, Copy, PartialEq, Eq, Structural)]
pub enum StreamError {
    /// No session has the id.
    NotFound,
}

/// Tells a user that a name of `found` characters is too short or too long.
pub open spec fn name_length_text(found: nat) -> Seq<char> {
    "name should be between 3 and 16 characters long, found "@ + decimal(found)
}

/// A session that has just registered: in no room, its stream not up yet.
pub open spec fn newcomer(id: Seq<char>, name: Seq<char>) -> SessionView {
    SessionView { id: id, name: name, room: None, bound: false }
}

impl ServerView {
    /// Whether a session may register as `raw`, without the white space around it,
    /// under the id `id`: the name is acceptable and no session has the id.
    pub open spec fn can_register(self, raw: Seq<char>, id: Seq<char>) -> bool {
        acceptable_name(trimmed(raw)) && !self.has_session(id)
    }

    /// The registries after a request to register as `raw`, for which the id `id` was
    /// drawn. Where it is granted, the session is the newest. Else nothing changes.
    pub open spec fn registered(self, raw: Seq<char>, id: Seq<char>) -> ServerView {
        if self.can_register(raw, id) {
            self.with_session(newcomer(id, trimmed(raw)))
        } else {
            self
        }
    }

    /// The answer to a request to register as `raw`, for which the id `id` was drawn:
    /// the first fault (the name's length, its characters, or that the id is in use),
    /// else the id and the server's version.
    pub open spec fn register_reply(self, raw: Seq<char>, id: Seq<char>) -> ResponseView<
        (Seq<char>, Seq<char>),
    > {
        let name = trimmed(raw);
        if name.len() < MIN_LEN || name.len() > MAX_NAME_LEN {
            ResponseView::Fail(name_length_text(name.len()))
        } else if !valid_name(name) {
            ResponseView::Fail("name is not valid"@)
        } else if self.has_session(id) {
            ResponseView::Fail("Session id is already in use"@)
        } else {
            ResponseView::Accept((id, self.version))
        }
    }

    /// The registries after the session `id` has gone: it has left its room, as if it
    /// had asked to, and then it is no longer registered. An unknown id changes nothing.
    pub open spec fn unregistered(self, id: Seq<char>) -> ServerView {
        if self.has_session(id) {
            self.left(id).without_session(id)
        } else {
            self
        }
    }

    /// The answer to a request to unregister the session `id`.
    pub open spec fn unregister_reply(self, id: Seq<char>) -> ResponseView<()> {
        if self.has_session(id) {
            ResponseView::Accept(())
        } else {
            ResponseView::Fail("Invalid user id"@)
        }
    }
}

/// A new session under a new id keeps the registries in order.
pub proof fn lemma_registered_wf(v: ServerView, raw: Seq<char>, id: Seq<char>)
    requires
        v.wf(),
    ensures
        v.registered(raw, id).wf(),
{
    if v.can_register(raw, id) {
        let w = v.registered(raw, id);
        let n = v.sessions.len() as int;
        assert(w.sessions[n] == newcomer(id, trimmed(raw)));
        assert(w.distinct_sessions()) by {
            assert forall|a: int, b: int| 0 <= a < b < w.sessions.len() implies (
            #[trigger] w.sessions[a]).id != (#[trigger] w.sessions[b]).id by {
                if b < n {
                    assert(v.sessions[a].id != v.sessions[b].id);
                } else {
                    assert(v.sessions[a].id != id);
                }
            }
        }
        assert(w.names_ok()) by {
            assert forall|a: int| 0 <= a < w.sessions.len() implies acceptable_name(
                (#[trigger] w.sessions[a]).name,
            ) by {
                if a < n {
                    assert(acceptable_name(v.sessions[a].name));
                }
            }
        }
        assert(w.linked()) by {
            assert forall|a: int, q: int|
                0 <= a < w.sessions.len() && 0 <= q < w.rooms.len() implies ((
            #[trigger] w.sessions[a]).room == Some((#[trigger] w.rooms[q]).id)
                <==> w.rooms[q].members.contains(w.sessions[a].id)) by {
                if a < n {
                    assert(v.sessions[a].room == Some(v.rooms[q].id)
                        <==> v.rooms[q].members.contains(v.sessions[a].id));
                } else {
                    if v.rooms[q].members.contains(id) {
                        let k = choose|k: int|
                            0 <= k < v.rooms[q].members.len() && v.rooms[q].members[k] == id;
                        assert(v.has_session(v.rooms[q].members[k]));
                    }
                }
            }
        }
        assert(w.members_known()) by {
            assert forall|q: int, j: int|
                0 <= q < w.rooms.len() && 0 <= j < w.rooms[q].members.len()
                    implies w.has_session(#[trigger] w.rooms[q].members[j]) by {
                let m = v.rooms[q].members[j];
                assert(v.has_session(m));
                let p = v.session_pos(m);
                assert(w.sessions[p].id == m);
            }
        }
        assert(w.rooms_known()) by {
            assert forall|a: int|
                0 <= a < w.sessions.len() && (#[trigger] w.sessions[a]).room is Some
                    implies w.has_room(w.sessions[a].room.unwrap()) by {
                assert(v.sessions[a].room is Some);
                assert(v.has_room(v.sessions[a].room.unwrap()));
            }
        }
    }
}

/// After a session has left its room it is still registered, and in no room.
pub proof fn lemma_left_clears(v: ServerView, id: Seq<char>)
    requires
        v.wf(),
        v.has_session(id),
    ensures
        v.left(id).has_session(id),
        v.left(id).session_pos(id) == v.session_pos(id),
        v.left(id).session(id).room is None,
        v.left(id).sessions.len() == v.sessions.len(),
{
    let i = v.session_pos(id);
    lemma_session_pos(v, i);
    let w = v.left(id);
    if v.room_of(id) is Some {
        lemma_room_of(v, id);
    }
    assert(w.sessions[i].id == id);
    lemma_left_wf(v, id);
    lemma_session_pos(w, i);
}

/// Taking out a session that is in no room keeps the registries in order.
pub proof fn lemma_without_session_wf(v: ServerView, id: Seq<char>)
    requires
        v.wf(),
        v.has_session(id),
        v.session(id).room is None,
    ensures
        v.without_session(id).wf(),
{
    let i = v.session_pos(id);
    lemma_session_pos(v, i);
    let w = v.without_session(id);
    assert forall|a: int| 0 <= a < w.sessions.len() implies (#[trigger] w.sessions[a])
        == v.sessions[if a < i {
        a
    } else {
        a + 1
    }] by {}
    assert(w.distinct_sessions()) by {
        assert forall|a: int, b: int| 0 <= a < b < w.sessions.len() implies (
        #[trigger] w.sessions[a]).id != (#[trigger] w.sessions[b]).id by {
            let a0 = if a < i {
                a
            } else {
                a + 1
            };
            let b0 = if b < i {
                b
            } else {
                b + 1
            };
            assert(v.sessions[a0].id != v.sessions[b0].id);
        }
    }
    assert(w.names_ok()) by {
        assert forall|a: int| 0 <= a < w.sessions.len() implies acceptable_name(
            (#[trigger] w.sessions[a]).name,
        ) by {
            let a0 = if a < i {
                a
            } else {
                a + 1
            };
            assert(acceptable_name(v.sessions[a0].name));
        }
    }
    assert(w.linked()) by {
        assert forall|a: int, q: int|
            0 <= a < w.sessions.len() && 0 <= q < w.rooms.len() implies ((
        #[trigger] w.sessions[a]).room == Some((#[trigger] w.rooms[q]).id)
            <==> w.rooms[q].members.contains(w.sessions[a].id)) by {
            let a0 = if a < i {
                a
            } else {
                a + 1
            };
            assert(v.sessions[a0].room == Some(v.rooms[q].id) <==> v.rooms[q].members.contains(
                v.sessions[a0].id,
            ));
        }
    }
    assert(w.members_known()) by {
        assert forall|q: int, j: int|
            0 <= q < w.rooms.len() && 0 <= j < w.rooms[q].members.len() implies w.has_session(
            #[trigger] w.rooms[q].members[j],
        ) by {
            let m = v.rooms[q].members[j];
            assert(v.has_session(m));
            assert(m != id) by {
                if m == id {
                    assert(v.rooms[q].members.contains(v.sessions[i].id));
                    assert(v.sessions[i].room == Some(v.rooms[q].id));
                }
            }
            lemma_session_stays(v, i, m);
        }
    }
    assert(w.rooms_known()) by {
        assert forall|a: int|
            0 <= a < w.sessions.len() && (#[trigger] w.sessions[a]).room is Some
                implies w.has_room(w.sessions[a].room.unwrap()) by {
            let a0 = if a < i {
                a
            } else {
                a + 1
            };
            assert(v.sessions[a0].room is Some);
            assert(v.has_room(v.sessions[a0].room.unwrap()));
        }
    }
}

/// Unregistering a session keeps the registries in order.
pub proof fn lemma_unregistered_wf(v: ServerView, id: Seq<char>)
    requires
        v.wf(),
    ensures
        v.unregistered(id).wf(),
{
    if v.has_session(id) {
        lemma_left_wf(v, id);
        lemma_left_clears(v, id);
        lemma_without_session_wf(v.left(id), id);
    }
}

impl Server {
    /// Takes the session `id`, which is registered, out of its room and then out of
    /// the registry, and returns the notices for those who stay behind.
    pub(crate) fn drop_session(&mut self, id: &UserId) -> (out: Vec<Delivery>)
        requires
            old(self)@.wf(),
            old(self)@.has_session(id@),
        ensures
            final(self)@ == old(self)@.unregistered(id@),
            outs(out@) == old(self)@.leave_notices(id@),
            final(self)@.wf(),
    {
        proof {
            lemma_unregistered_wf(self@, id@);
            lemma_left_clears(self@, id@);
        }
        let out = self.leave_chat(id);
        let i = self.session_at(id);
        proof {
            lemma_session_pos(self@, i as int);
        }
        let ghost before = self@;
        self.sessions.remove(i);
        proof {
            assert(self@.sessions =~= before.sessions.remove(i as int));
        }
        out
    }

    /// An id that no session has: a new random one, with as many zeros behind it as it
    /// takes to differ from every id in use.
    fn unused_session_id(&self) -> (id: String)
        ensures
            is_id(id@),
            !self@.has_session(id@),
    {
        let mut id = fresh_token();
        let mut held = self.find_session(&id);
        while held.is_some()
            invariant
                is_id(id@),
                held is Some <==> self@.has_session(id@),
            decreases at_least(self@.session_ids(), id@.len()),
        {
            proof {
                assert(self@.session_ids()[self@.session_pos(id@)] == id@);
                lemma_at_least_drops(self@.session_ids(), id@);
                reveal_strlit("0");
            }
            id.append("0");
            held = self.find_session(&id);
        }
        id
    }

    /// Enters a new session into the registry.
    fn register_client(&mut self, user_id: UserId, name: UserName)
        ensures
            final(self)@ == old(self)@.with_session(newcomer(user_id@, name@)),
    {
        let ghost before = self@;
        self.sessions.push(Session { id: user_id, name: name, room: None, bound: false });
        proof {
            assert(self@.sessions =~= before.sessions.push(newcomer(user_id@, name@)));
        }
    }

    /// Registers a session under the name in `body`, without the white space around
    /// it, and under the id `id`, if the name is acceptable and the id is free.
    pub fn register_as(&mut self, body: ServerConnectRequest, id: UserId) -> (reply: Response<
        ServerConnectResponse,
    >)
        requires
            old(self)@.wf(),
        ensures
            final(self)@ == old(self)@.registered(body@, id@),
            reply@ == old(self)@.register_reply(body@, id@),
            final(self)@.wf(),
    {
        proof {
            lemma_registered_wf(self@, body@, id@);
        }
        let name = trim(body.0.as_str());
        let n: usize = name.as_str().unicode_len();
        if n < MIN_LEN || n > MAX_NAME_LEN {
            let mut text = String::from_str(
                "name should be between 3 and 16 characters long, found ",
            );
            text.append(decimal_string(n).as_str());
            return Response::Fail(text);
        }
        if !is_valid_name(name.as_str()) {
            return Response::Fail(String::from_str("name is not valid"));
        }
        if self.find_session(&id).is_some() {
            return Response::Fail(String::from_str("Session id is already in use"));
        }
        self.register_client(id.clone(), name);
        Response::Accept(ServerConnectResponse(id, self.version.clone()))
    }

    /// Registers a session under the name in `body`, without the white space around
    /// it, and under a new random id that no session has. It is granted exactly if the
    /// name is acceptable, whatever names the other sessions have.
    pub fn register(&mut self, body: ServerConnectRequest) -> (reply: Response<
        ServerConnectResponse,
    >)
        requires
            old(self)@.wf(),
        ensures
            exists|id: Seq<char>|
                {
                    &&& is_id(id)
                    &&& !old(self)@.has_session(id)
                    &&& final(self)@ == #[trigger] old(self)@.registered(body@, id)
                    &&& reply@ == old(self)@.register_reply(body@, id)
                },
            reply@ is Accept <==> acceptable_name(trimmed(body@)),
            reply@ is Accept ==> final(self)@.sessions.len() == old(self)@.sessions.len() + 1,
            reply@ is Fail ==> final(self)@ == old(self)@,
            final(self)@.wf(),
    {
        let id = self.unused_session_id();
        self.register_as(body, id)
    }

    /// Whether a stream may be opened for the session `id`: only for one that is
    /// registered.
    pub fn ws_handler(&self, id: &UserId) -> (r: Result<(), StreamError>)
        ensures
            r is Ok <==> self@.has_session(id@),
            r is Err ==> r == Err::<(), StreamError>(StreamError::NotFound),
    {
        match self.find_session(id) {
            Some(_) => Ok(()),
            None => Err(StreamError::NotFound),
        }
    }

    /// Takes the session in `request` out of its room and out of the registry, and
    /// returns the answer and the notices for those who stay behind. A second request
    /// for the same session fails and changes nothing.
    pub fn unregister(&mut self, request: ServerDisconnectRequest) -> (r: (
        Response<ServerDisconnectResponse>,
        Vec<Delivery>,
    ))
        requires
            old(self)@.wf(),
        ensures
            final(self)@ == old(self)@.unregistered(request@),
            r.0@ == old(self)@.unregister_reply(request@),
            outs(r.1@) == old(self)@.leave_notices(request@),
            final(self)@.wf(),
    {
        if self.find_session(&request.0).is_none() {
            let out: Vec<Delivery> = Vec::new();
            assert(outs(out@) =~= Seq::<DeliveryView>::empty());
            return (Response::Fail(String::from_str("Invalid user id")), out);
        }
        let out = self.drop_session(&request.0);
        (Response::Accept(ServerDisconnectResponse()), out)
    }
}

} // verus!

//! The life of a room: created by its owner, joined by invite, left by its members,
//! and disbanded when its owner leaves. Every operation returns the messages that it
//! gives rise to: whoever runs the server puts each on its session's stream.

use crate::protocol::{
    ChatId, ChatTitle, InviteId, ServerEvent, ServerEventView, ServerWsMessage,
    ServerWsMessageView, UserId,
};
use crate::registry::{
    find_str, str_at, lemma_first_exists, lemma_first_titled, lemma_pos_of, lemma_room_of,
    lemma_room_pos, lemma_room_stays, lemma_rooms_kept, lemma_session_pos,
    lemma_sessions_kept, lemma_without, pos_of, without, Room,
    RoomView, Server, ServerView,
};
use crate::text::{decimal, decimal_string, strs};
use crate::token::{at_least, fresh_token, is_id, lemma_at_least_drops, unused_among};
use crate::validator::{
    acceptable_title, is_valid_name, valid_name, MAX_TITLE_LEN, MIN_LEN,
};
use vstd::prelude::*;
use vstd::string::*;

verus! {

/// A message on its way to one session.
#[derive(Debug, PartialEq, Eq)]
pub struct Delivery {
    pub to: UserId,
    pub message: ServerWsMessage,
}

pub struct DeliveryView {
    pub to: Seq<char>,
    pub message: ServerWsMessageView,
}

impl View for Delivery {
    type V = DeliveryView;

    open spec fn view(&self) -> DeliveryView {
        DeliveryView { to: self.to@, message: self.message@ }
    }
}

/// The views of the deliveries of `v`, in order.
pub open spec fn outs(v: Seq<Delivery>) -> Seq<DeliveryView> {
    Seq::new(v.len(), |i: int| v[i]@)
}

/// The message `m`, once for each of `to` that is a registered session with its stream
/// up, in the order of `to`. The others are passed over.
pub open spec fn deliveries(v: ServerView, m: ServerWsMessageView, to: Seq<Seq<char>>) -> Seq<
    DeliveryView,
>
    decreases to.len(),
{
    if to.len() == 0 {
        Seq::empty()
    } else if v.is_bound(to.last()) {
        deliveries(v, m, to.drop_last()).push(DeliveryView { to: to.last(), message: m })
    } else {
        deliveries(v, m, to.drop_last())
    }
}

/// A message reaches every recipient that is registered with its stream up.
pub proof fn lemma_deliveries_reach(
    v: ServerView,
    m: ServerWsMessageView,
    to: Seq<Seq<char>>,
    x: Seq<char>,
)
    requires
        to.contains(x),
        v.is_bound(x),
    ensures
        deliveries(v, m, to).contains(DeliveryView { to: x, message: m }),
    decreases to.len(),
{
    let d = DeliveryView { to: x, message: m };
    if to.last() == x {
        let all = deliveries(v, m, to);
        assert(all[all.len() - 1] == d);
    } else {
        let k = choose|k: int| 0 <= k < to.len() && to[k] == x;
        assert(to.drop_last()[k] == x);
        lemma_deliveries_reach(v, m, to.drop_last(), x);
        let rest = deliveries(v, m, to.drop_last());
        let t = choose|t: int| 0 <= t < rest.len() && rest[t] == d;
        assert(deliveries(v, m, to)[t] == d);
    }
}

impl Server {
    /// Addresses `message` to each of `to` that can receive it.
    pub fn broadcast_msg(&self, message: &ServerWsMessage, to: &Vec<UserId>) -> (out: Vec<
        Delivery,
    >)
        requires
            self@.distinct_sessions(),
        ensures
            outs(out@) == deliveries(self@, message@, strs(to@)),
    {
        let mut out: Vec<Delivery> = Vec::new();
        let mut k: usize = 0;
        proof {
            assert(strs(to@).take(0) =~= Seq::<Seq<char>>::empty());
            assert(outs(out@) =~= Seq::<DeliveryView>::empty());
        }
        while k < to.len()
            invariant
                k <= to.len(),
                self@.distinct_sessions(),
                outs(out@) == deliveries(self@, message@, strs(to@).take(k as int)),
            decreases to.len() - k,
        {
            proof {
                assert(strs(to@).take(k + 1).drop_last() =~= strs(to@).take(k as int));
                assert(strs(to@).take(k + 1).last() == to[k as int]@);
            }
            match self.find_session(&to[k]) {
                Some(i) => {
                    proof {
                        lemma_session_pos(self@, i as int);
                    }
                    if self.sessions[i].bound {
                        let ghost before = out@;
                        let d = Delivery { to: to[k].clone(), message: message.clone() };
                        out.push(d);
                        proof {
                            assert(outs(out@) =~= outs(before).push(d@));
                        }
                    }
                },
                None => {},
            }
            k = k + 1;
        }
        proof {
            assert(strs(to@).take(to.len() as int) =~= strs(to@));
        }
        out
    }

    /// Addresses `message` to the session `to`, if it can receive it.
    pub fn send_msg(&self, to: &UserId, message: ServerWsMessage) -> (out: Vec<Delivery>)
        requires
            self@.distinct_sessions(),
        ensures
            outs(out@) == deliveries(self@, message@, seq![to@]),
    {
        let mut one: Vec<UserId> = Vec::new();
        one.push(to.clone());
        proof {
            assert(strs(one@) =~= seq![to@]);
        }
        self.broadcast_msg(&message, &one)
    }
}

/// Tells a room that the session named `name` has left it.
pub open spec fn left_notice(name: Seq<char>) -> ServerWsMessageView {
    ServerWsMessageView::SystemMessage(name + " left chat"@)
}

/// Tells a room that its owner, named `name`, has disbanded it.
pub open spec fn disband_notice(name: Seq<char>) -> ServerWsMessageView {
    ServerWsMessageView::SystemMessage(name + " disbanded chat"@)
}

/// Tells a room that the session named `name` has joined it.
pub open spec fn joined_notice(name: Seq<char>) -> ServerWsMessageView {
    ServerWsMessageView::SystemMessage(name + " joined chat"@)
}

impl ServerView {
    /// The registries after the session `id` has left its room. A session that is
    /// unknown or in no room changes nothing. A member is taken off the room's list.
    /// When the owner leaves, the room is disbanded: every session that was in it is in
    /// none, and the room is gone.
    pub open spec fn left(self, id: Seq<char>) -> ServerView {
        match self.room_of(id) {
            None => self,
            Some(rid) => if self.room(rid).owner == id {
                self.emptied(rid).without_room(rid)
            } else {
                self.with_room(id, None).with_members(rid, without(self.room(rid).members, id))
            },
        }
    }

    /// What is sent when the session `id` leaves its room: a notice that it left to
    /// each member that stays behind and, when it was the owner, after those a notice
    /// to each of them that the room was disbanded.
    pub open spec fn leave_notices(self, id: Seq<char>) -> Seq<DeliveryView> {
        match self.room_of(id) {
            None => Seq::empty(),
            Some(rid) => {
                let others = without(self.room(rid).members, id);
                let name = self.session(id).name;
                if self.room(rid).owner == id {
                    deliveries(self, left_notice(name), others) + deliveries(
                        self,
                        disband_notice(name),
                        others,
                    )
                } else {
                    deliveries(self, left_notice(name), others)
                }
            },
        }
    }
}

/// Leaving a room keeps the registries in order.
pub proof fn lemma_left_wf(v: ServerView, id: Seq<char>)
    requires
        v.wf(),
    ensures
        v.left(id).wf(),
{
    if v.room_of(id) is Some {
        lemma_room_of(v, id);
        let rid = v.room_of(id).unwrap();
        let i = v.session_pos(id);
        let r = v.room_pos(rid);
        let w = v.left(id);
        lemma_session_pos(v, i);
        lemma_room_pos(v, r);
        if v.room(rid).owner == id {
            assert(w.rooms == v.rooms.remove(r));
            assert forall|q: int| 0 <= q < w.rooms.len() implies (#[trigger] w.rooms[q])
                == v.rooms[if q < r {
                q
            } else {
                q + 1
            }] by {}
            assert(w.distinct_rooms()) by {
                assert forall|a: int, b: int| 0 <= a < b < w.rooms.len() implies (
                #[trigger] w.rooms[a]).id != (#[trigger] w.rooms[b]).id by {
                    let a0 = if a < r {
                        a
                    } else {
                        a + 1
                    };
                    let b0 = if b < r {
                        b
                    } else {
                        b + 1
                    };
                    assert(v.rooms[a0].id != v.rooms[b0].id);
                }
            }
            assert(w.rooms_ok()) by {
                assert forall|q: int| 0 <= q < w.rooms.len() implies (#[trigger] w.rooms[q]).ok() by {
                    let q0 = if q < r {
                        q
                    } else {
                        q + 1
                    };
                    assert(v.rooms[q0].ok());
                }
            }
            lemma_sessions_kept(v, w);
            assert(w.linked()) by {
                assert forall|a: int, q: int|
                    0 <= a < w.sessions.len() && 0 <= q < w.rooms.len() implies ((
                #[trigger] w.sessions[a]).room == Some((#[trigger] w.rooms[q]).id)
                    <==> w.rooms[q].members.contains(w.sessions[a].id)) by {
                    let q0 = if q < r {
                        q
                    } else {
                        q + 1
                    };
                    assert(v.rooms[q0].id != v.rooms[r].id);
                    assert(v.sessions[a].room == Some(v.rooms[q0].id)
                        <==> v.rooms[q0].members.contains(v.sessions[a].id));
                }
            }
            assert(w.members_known()) by {
                assert forall|q: int, k: int|
                    0 <= q < w.rooms.len() && 0 <= k < w.rooms[q].members.len()
                        implies w.has_session(#[trigger] w.rooms[q].members[k]) by {
                    let q0 = if q < r {
                        q
                    } else {
                        q + 1
                    };
                    let m = v.rooms[q0].members[k];
                    assert(v.has_session(m));
                    let j = v.session_pos(m);
                    assert(w.sessions[j].id == m);
                }
            }
            assert(w.rooms_known()) by {
                assert forall|a: int|
                    0 <= a < w.sessions.len() && (#[trigger] w.sessions[a]).room is Some
                        implies w.has_room(w.sessions[a].room.unwrap()) by {
                    let x = w.sessions[a].room.unwrap();
                    assert(v.sessions[a].room == Some(x));
                    assert(v.has_room(x));
                    lemma_room_stays(v, r, x);
                    assert(w.rooms == (ServerView { rooms: v.rooms.remove(r), ..v }).rooms);
                    let q = (ServerView { rooms: v.rooms.remove(r), ..v }).room_pos(x);
                    assert(w.rooms[q].id == x);
                }
            }
        } else {
            let members = v.rooms[r].members;
            let k = pos_of(members, id);
            assert(0 <= k < members.len() && members[k] == id);
            let rest = members.remove(k);
            assert(w.rooms[r].members == rest);
            assert(v.rooms[r].ok());
            lemma_without(members, id);
            lemma_rooms_kept(v, w);
            assert(w.rooms_ok()) by {
                assert forall|q: int| 0 <= q < w.rooms.len() implies (#[trigger] w.rooms[q]).ok() by {
                    assert(v.rooms[q].ok());
                    if q != r {
                        if q < r {
                            assert(v.rooms[q].id != v.rooms[r].id);
                        } else {
                            assert(v.rooms[r].id != v.rooms[q].id);
                        }
                    }
                }
            }
            lemma_sessions_kept(v, w);
            assert(w.linked()) by {
                assert forall|a: int, q: int|
                    0 <= a < w.sessions.len() && 0 <= q < w.rooms.len() implies ((
                #[trigger] w.sessions[a]).room == Some((#[trigger] w.rooms[q]).id)
                    <==> w.rooms[q].members.contains(w.sessions[a].id)) by {
                    assert(v.sessions[a].room == Some(v.rooms[q].id)
                        <==> v.rooms[q].members.contains(v.sessions[a].id));
                    if q != r {
                        if q < r {
                            assert(v.rooms[q].id != v.rooms[r].id);
                        } else {
                            assert(v.rooms[r].id != v.rooms[q].id);
                        }
                    }
                    if a != i {
                        if a < i {
                            assert(v.sessions[a].id != v.sessions[i].id);
                        } else {
                            assert(v.sessions[i].id != v.sessions[a].id);
                        }
                    }
                }
            }
            assert(w.members_known()) by {
                assert forall|q: int, j: int|
                    0 <= q < w.rooms.len() && 0 <= j < w.rooms[q].members.len()
                        implies w.has_session(#[trigger] w.rooms[q].members[j]) by {
                    let m = w.rooms[q].members[j];
                    if v.rooms[q].id == rid {
                        let j0 = if j < k {
                            j
                        } else {
                            j + 1
                        };
                        assert(m == v.rooms[q].members[j0]);
                    } else {
                        assert(m == v.rooms[q].members[j]);
                    }
                    assert(v.has_session(m));
                }
            }
            assert(w.rooms_known()) by {
                assert forall|a: int|
                    0 <= a < w.sessions.len() && (#[trigger] w.sessions[a]).room is Some
                        implies w.has_room(w.sessions[a].room.unwrap()) by {
                    let x = w.sessions[a].room.unwrap();
                    assert(v.sessions[a].room == Some(x));
                    assert(v.has_room(x));
                }
            }
        }
    }
}

/// The strings of `v` but the one at `k`, each copied.
fn all_but(v: &Vec<String>, k: usize) -> (out: Vec<String>)
    requires
        k < v.len(),
    ensures
        strs(out@) == strs(v@).remove(k as int),
{
    let mut out: Vec<String> = Vec::new();
    let mut j: usize = 0;
    while j < v.len()
        invariant
            j <= v.len(),
            k < v.len(),
            out@.len() == if j <= k {
                j as int
            } else {
                j - 1
            },
            forall|a: int|
                0 <= a < out@.len() ==> (#[trigger] out@[a])@ == v@[if a < k {
                    a
                } else {
                    a + 1
                }]@,
        decreases v.len() - j,
    {
        if j != k {
            out.push(v[j].clone());
        }
        j = j + 1;
    }
    proof {
        assert(strs(out@) =~= strs(v@).remove(k as int));
    }
    out
}

fn notice(name: &String, what: &str) -> (m: ServerWsMessage)
    ensures
        m@ == ServerWsMessageView::SystemMessage(name@ + what@),
{
    let mut text = name.clone();
    text.append(what);
    ServerWsMessage::SystemMessage(text)
}

impl Server {
    /// Puts every session that is in the room `rid` into none.
    fn clear_room(&mut self, rid: &ChatId)
        ensures
            final(self)@ == old(self)@.emptied(rid@),
    {
        let n: usize = self.sessions.len();
        let mut j: usize = 0;
        while j < n
            invariant
                j <= n,
                n == self.sessions@.len(),
                n == old(self).sessions@.len(),
                self.rooms == old(self).rooms,
                self.version == old(self).version,
                forall|a: int|
                    0 <= a < j ==> (#[trigger] self.sessions@[a])@ == old(self)@.emptied(
                        rid@,
                    ).sessions[a],
                forall|a: int| j <= a < n ==> self.sessions@[a] == old(self).sessions@[a],
            decreases n - j,
        {
            let inside = match &self.sessions[j].room {
                Some(x) => *x == *rid,
                None => false,
            };
            if inside {
                self.sessions[j].room = None;
            }
            j = j + 1;
        }
        proof {
            assert(self@.sessions =~= old(self)@.emptied(rid@).sessions);
        }
    }

    /// Takes the session `user_id` out of its room and returns the notices for those
    /// who stay behind. When the owner leaves, the room is disbanded.
    pub fn leave_chat(&mut self, user_id: &UserId) -> (out: Vec<Delivery>)
        requires
            old(self)@.wf(),
        ensures
            final(self)@ == old(self)@.left(user_id@),
            outs(out@) == old(self)@.leave_notices(user_id@),
            final(self)@.wf(),
    {
        proof {
            lemma_left_wf(self@, user_id@);
        }
        let i = match self.find_session(user_id) {
            Some(i) => i,
            None => {
                let out: Vec<Delivery> = Vec::new();
                assert(outs(out@) =~= Seq::<DeliveryView>::empty());
                return out;
            },
        };
        proof {
            lemma_session_pos(self@, i as int);
        }
        let rid = match &self.sessions[i].room {
            Some(r) => r.clone(),
            None => {
                let out: Vec<Delivery> = Vec::new();
                assert(outs(out@) =~= Seq::<DeliveryView>::empty());
                return out;
            },
        };
        proof {
            lemma_room_of(self@, user_id@);
        }
        let r = self.room_at(&rid);
        proof {
            lemma_room_pos(self@, r as int);
        }
        let k = str_at(&self.rooms[r].members, user_id);
        proof {
            lemma_pos_of(self@.rooms[r as int].members, k as int);
        }
        let others = all_but(&self.rooms[r].members, k);
        let gone = notice(&self.sessions[i].name, " left chat");
        let mut out = self.broadcast_msg(&gone, &others);
        if self.rooms[r].owner == *user_id {
            let disbanded = notice(&self.sessions[i].name, " disbanded chat");
            let mut more = self.broadcast_msg(&disbanded, &others);
            let ghost first = out@;
            let ghost second = more@;
            out.append(&mut more);
            proof {
                assert(out@ =~= first + second);
                assert(outs(out@) =~= outs(first) + outs(second));
            }
            self.clear_room(&rid);
            proof {
                lemma_room_pos(self@, r as int);
            }
            let ghost before = self@;
            self.rooms.remove(r);
            proof {
                assert(self@.rooms =~= before.rooms.remove(r as int));
            }
        } else {
            let ghost before = self@;
            self.sessions[i].room = None;
            self.rooms[r].members.remove(k);
            proof {
                assert(self@.sessions =~= before.with_room(user_id@, None).sessions) by {
                    assert forall|a: int| 0 <= a < before.sessions.len() implies (
                    #[trigger] self@.sessions[a]) == before.with_room(
                        user_id@,
                        None,
                    ).sessions[a] by {
                        if a != i {
                            if a < i {
                                assert(before.sessions[a].id != before.sessions[i as int].id);
                            } else {
                                assert(before.sessions[i as int].id != before.sessions[a].id);
                            }
                        }
                    }
                }
                let rest = without(before.rooms[r as int].members, user_id@);
                assert(self@.rooms[r as int].members =~= rest);
                assert(self@.rooms =~= before.with_room(user_id@, None).with_members(
                    rid@,
                    rest,
                ).rooms) by {
                    assert forall|a: int| 0 <= a < before.rooms.len() implies (
                    #[trigger] self@.rooms[a]) == before.with_room(user_id@, None).with_members(
                        rid@,
                        rest,
                    ).rooms[a] by {
                        if a != r {
                            if a < r {
                                assert(before.rooms[a].id != before.rooms[r as int].id);
                            } else {
                                assert(before.rooms[r as int].id != before.rooms[a].id);
                            }
                        }
                    }
                }
            }
        }
        out
    }
}

/// Tells a session that it cannot enter or make a room while it is in one.
pub open spec fn already_in_chat() -> ServerWsMessageView {
    ServerWsMessageView::SystemMessage("You are already in a chat"@)
}

/// Tells a session that no room has the title that it gave.
pub open spec fn no_such_chat(title: Seq<char>) -> ServerWsMessageView {
    ServerWsMessageView::SystemMessage("Chat "@ + title + " does not seem to exist"@)
}

/// Tells a session that the room does not know the invite that it gave.
pub open spec fn invalid_invite() -> ServerWsMessageView {
    ServerWsMessageView::SystemMessage("Your invite id is invalid"@)
}

/// Tells a session that it is now in the room `id` called `title`.
pub open spec fn accepted(id: Seq<char>, title: Seq<char>) -> ServerWsMessageView {
    ServerWsMessageView::SystemEvent(ServerEventView::ChatAccept(id, title))
}

impl ServerView {
    /// The first room with this title.
    pub open spec fn titled(self, title: Seq<char>) -> RoomView {
        self.rooms[self.first_titled(title)]
    }

    /// Whether the session `id` may enter the room called `title` on `invite`: it is
    /// registered and in no room, and the first room with that title holds the invite.
    pub open spec fn can_join(self, id: Seq<char>, title: Seq<char>, invite: Seq<char>) -> bool {
        &&& self.has_session(id)
        &&& self.session(id).room is None
        &&& self.has_title(title)
        &&& self.titled(title).invites.contains(invite)
    }

    /// The registries after the session `id` has asked to enter the room called `title`
    /// on `invite`. Where it may, the invite is used up, the session is the room's
    /// newest member, and the room is the session's room. Else nothing changes.
    pub open spec fn joined(self, id: Seq<char>, title: Seq<char>, invite: Seq<char>) -> ServerView {
        if self.can_join(id, title, invite) {
            let room = self.titled(title);
            self.with_room(id, Some(room.id)).with_invites(
                room.id,
                without(room.invites, invite),
            ).with_members(room.id, room.members.push(id))
        } else {
            self
        }
    }

    /// What is sent when the session `id` asks to enter the room called `title` on
    /// `invite`. An unknown session gets nothing. A refused one is told why, title and
    /// invite first: no room has the title, or the first room with the title does not
    /// hold the invite, or, where both are right, the session is in a room already.
    /// Else those who were members before are told that it joined, and after them it is
    /// told that it was accepted.
    pub open spec fn join_notices(
        self,
        id: Seq<char>,
        title: Seq<char>,
        invite: Seq<char>,
    ) -> Seq<DeliveryView> {
        if !self.has_session(id) {
            Seq::empty()
        } else if !self.has_title(title) {
            deliveries(self, no_such_chat(title), seq![id])
        } else if !self.titled(title).invites.contains(invite) {
            deliveries(self, invalid_invite(), seq![id])
        } else if self.session(id).room is Some {
            deliveries(self, already_in_chat(), seq![id])
        } else {
            deliveries(
                self,
                joined_notice(self.session(id).name),
                self.titled(title).members,
            ) + deliveries(self, accepted(self.titled(title).id, title), seq![id])
        }
    }
}

/// Entering a room keeps the registries in order.
pub proof fn lemma_joined_wf(v: ServerView, id: Seq<char>, title: Seq<char>, invite: Seq<char>)
    requires
        v.wf(),
    ensures
        v.joined(id, title, invite).wf(),
{
    if v.can_join(id, title, invite) {
        let i = v.session_pos(id);
        let r = v.first_titled(title);
        let some = choose|q: int| 0 <= q < v.rooms.len() && (#[trigger] v.rooms[q]).title == title;
        lemma_first_exists(v, title, some);
        lemma_session_pos(v, i);
        lemma_room_pos(v, r);
        let room = v.rooms[r];
        let rid = room.id;
        let w = v.joined(id, title, invite);
        assert(room.ok());
        lemma_without(room.invites, invite);
        assert(!room.members.contains(id)) by {
            assert(v.sessions[i].room == Some(v.rooms[r].id) <==> v.rooms[r].members.contains(
                v.sessions[i].id,
            ));
        }
        let members = room.members.push(id);
        assert(w.rooms[r].members == members);
        assert(w.rooms[r].invites == without(room.invites, invite));
        assert forall|x: Seq<char>| members.contains(x) <==> (x == id || room.members.contains(
            x,
        )) by {
            if room.members.contains(x) {
                let j = choose|j: int| 0 <= j < room.members.len() && room.members[j] == x;
                assert(members[j] == x);
            }
            if x == id {
                assert(members[room.members.len() as int] == x);
            }
        }
        assert(members.no_duplicates());
        lemma_rooms_kept(v, w);
        assert(w.rooms_ok()) by {
            assert forall|q: int| 0 <= q < w.rooms.len() implies (#[trigger] w.rooms[q]).ok() by {
                assert(v.rooms[q].ok());
                if q != r {
                    if q < r {
                        assert(v.rooms[q].id != v.rooms[r].id);
                    } else {
                        assert(v.rooms[r].id != v.rooms[q].id);
                    }
                }
            }
        }
        lemma_sessions_kept(v, w);
        assert(w.linked()) by {
            assert forall|a: int, q: int|
                0 <= a < w.sessions.len() && 0 <= q < w.rooms.len() implies ((
            #[trigger] w.sessions[a]).room == Some((#[trigger] w.rooms[q]).id)
                <==> w.rooms[q].members.contains(w.sessions[a].id)) by {
                assert(v.sessions[a].room == Some(v.rooms[q].id) <==> v.rooms[q].members.contains(
                    v.sessions[a].id,
                ));
                if q != r {
                    if q < r {
                        assert(v.rooms[q].id != v.rooms[r].id);
                    } else {
                        assert(v.rooms[r].id != v.rooms[q].id);
                    }
                }
                if a != i {
                    if a < i {
                        assert(v.sessions[a].id != v.sessions[i].id);
                    } else {
                        assert(v.sessions[i].id != v.sessions[a].id);
                    }
                }
            }
        }
        assert(w.members_known()) by {
            assert forall|q: int, j: int|
                0 <= q < w.rooms.len() && 0 <= j < w.rooms[q].members.len()
                    implies w.has_session(#[trigger] w.rooms[q].members[j]) by {
                let m = w.rooms[q].members[j];
                if q == r && j == room.members.len() {
                    assert(w.sessions[i].id == m);
                } else {
                    assert(m == v.rooms[q].members[j]);
                    assert(v.has_session(m));
                }
            }
        }
        assert(w.rooms_known()) by {
            assert forall|a: int|
                0 <= a < w.sessions.len() && (#[trigger] w.sessions[a]).room is Some
                    implies w.has_room(w.sessions[a].room.unwrap()) by {
                let x = w.sessions[a].room.unwrap();
                if v.sessions[a].id == id {
                    assert(w.rooms[r].id == x);
                } else {
                    assert(v.sessions[a].room == Some(x));
                    assert(v.has_room(x));
                }
            }
        }
    }
}

fn system_message(text: &str) -> (m: ServerWsMessage)
    ensures
        m@ == ServerWsMessageView::SystemMessage(text@),
{
    ServerWsMessage::SystemMessage(String::from_str(text))
}

impl Server {
    /// Lets the session `user_id` into the first room called `chat_title`, if that
    /// room holds `invite`, and returns what is to be sent.
    pub fn join_chat(&mut self, user_id: &UserId, chat_title: ChatTitle, invite: InviteId) -> (out:
        Vec<Delivery>)
        requires
            old(self)@.wf(),
        ensures
            final(self)@ == old(self)@.joined(user_id@, chat_title@, invite@),
            outs(out@) == old(self)@.join_notices(user_id@, chat_title@, invite@),
            final(self)@.wf(),
    {
        proof {
            lemma_joined_wf(self@, user_id@, chat_title@, invite@);
        }
        let i = match self.find_session(user_id) {
            Some(i) => i,
            None => {
                let out: Vec<Delivery> = Vec::new();
                assert(outs(out@) =~= Seq::<DeliveryView>::empty());
                return out;
            },
        };
        proof {
            lemma_session_pos(self@, i as int);
        }
        let r = match self.find_titled(&chat_title) {
            Some(r) => r,
            None => {
                let mut text = String::from_str("Chat ");
                text.append(chat_title.as_str());
                text.append(" does not seem to exist");
                return self.send_msg(user_id, ServerWsMessage::SystemMessage(text));
            },
        };
        proof {
            lemma_first_titled(self@, chat_title@, r as int);
            lemma_room_pos(self@, r as int);
        }
        let t = match find_str(&self.rooms[r].invites, &invite) {
            Some(t) => t,
            None => {
                return self.send_msg(user_id, system_message("Your invite id is invalid"));
            },
        };
        proof {
            assert(strs(self.rooms[r as int].invites@)[t as int] == invite@);
            lemma_pos_of(self@.rooms[r as int].invites, t as int);
        }
        if self.sessions[i].room.is_some() {
            return self.send_msg(user_id, system_message("You are already in a chat"));
        }
        let joined = notice(&self.sessions[i].name, " joined chat");
        let mut out = self.broadcast_msg(&joined, &self.rooms[r].members);
        let event = ServerWsMessage::SystemEvent(
            ServerEvent::ChatAccept(self.rooms[r].id.clone(), chat_title),
        );
        let mut more = self.send_msg(user_id, event);
        let ghost first = out@;
        let ghost second = more@;
        out.append(&mut more);
        proof {
            assert(out@ =~= first + second);
            assert(outs(out@) =~= outs(first) + outs(second));
        }
        let ghost before = self@;
        let rid = self.rooms[r].id.clone();
        self.rooms[r].invites.remove(t);
        self.rooms[r].members.push(user_id.clone());
        self.sessions[i].room = Some(rid);
        proof {
            let room = before.rooms[r as int];
            let target = before.with_room(user_id@, Some(room.id)).with_invites(
                room.id,
                without(room.invites, invite@),
            ).with_members(room.id, room.members.push(user_id@));
            assert(self@.sessions =~= target.sessions) by {
                assert forall|a: int| 0 <= a < before.sessions.len() implies (
                #[trigger] self@.sessions[a]) == target.sessions[a] by {
                    if a != i {
                        if a < i {
                            assert(before.sessions[a].id != before.sessions[i as int].id);
                        } else {
                            assert(before.sessions[i as int].id != before.sessions[a].id);
                        }
                    }
                }
            }
            assert(self@.rooms[r as int].members =~= room.members.push(user_id@));
            assert(self@.rooms[r as int].invites =~= without(room.invites, invite@));
            assert(self@.rooms =~= target.rooms) by {
                assert forall|a: int| 0 <= a < before.rooms.len() implies (
                #[trigger] self@.rooms[a]) == target.rooms[a] by {
                    if a != r {
                        if a < r {
                            assert(before.rooms[a].id != before.rooms[r as int].id);
                        } else {
                            assert(before.rooms[r as int].id != before.rooms[a].id);
                        }
                    }
                }
            }
        }
        out
    }
}

/// Tells a session that a title of `found` characters is too short or too long.
pub open spec fn title_length_text(found: nat) -> Seq<char> {
    "title should be between 3 and 24 characters long, found "@ + decimal(found)
}

/// Tells a session that it is now in the room `id` called `title`, which it made.
pub open spec fn created_event(id: Seq<char>, title: Seq<char>) -> ServerWsMessageView {
    ServerWsMessageView::SystemEvent(ServerEventView::ChatCreate(id, title))
}

impl ServerView {
    /// Whether the session `id` may make a room called `title` under the id `chat_id`:
    /// it is registered and in no room, the title is acceptable, and no room has that id.
    pub open spec fn can_create(self, id: Seq<char>, title: Seq<char>, chat_id: Seq<char>) -> bool {
        &&& self.has_session(id)
        &&& self.session(id).room is None
        &&& acceptable_title(title)
        &&& !self.has_room(chat_id)
    }

    /// The registries after the session `id` has asked for a room called `title`, for
    /// which the id `chat_id` was drawn. Where it may have it, the room is the newest,
    /// the session is its owner and only member, and the session is in it. Else nothing
    /// changes.
    pub open spec fn created(self, id: Seq<char>, title: Seq<char>, chat_id: Seq<char>) -> ServerView {
        if self.can_create(id, title, chat_id) {
            self.with_room(id, Some(chat_id)).with_new_room(
                RoomView {
                    id: chat_id,
                    title: title,
                    owner: id,
                    members: seq![id],
                    invites: Seq::empty(),
                },
            )
        } else {
            self
        }
    }

    /// What the session `id` is sent when it asks for a room called `title`, for which
    /// the id `chat_id` was drawn. An unknown session gets nothing. At the first fault
    /// it is told of it: the title's length, its characters, that the session is in a
    /// room, or that the id is in use. Else it is told of its new room.
    pub open spec fn create_notices(
        self,
        id: Seq<char>,
        title: Seq<char>,
        chat_id: Seq<char>,
    ) -> Seq<DeliveryView> {
        if !self.has_session(id) {
            Seq::empty()
        } else if title.len() < MIN_LEN || title.len() > MAX_TITLE_LEN {
            deliveries(
                self,
                ServerWsMessageView::SystemMessage(title_length_text(title.len())),
                seq![id],
            )
        } else if !valid_name(title) {
            deliveries(self, ServerWsMessageView::SystemMessage("title is not valid"@), seq![id])
        } else if self.session(id).room is Some {
            deliveries(self, already_in_chat(), seq![id])
        } else if self.has_room(chat_id) {
            deliveries(
                self,
                ServerWsMessageView::SystemMessage("Chat id is already in use"@),
                seq![id],
            )
        } else {
            deliveries(self, created_event(chat_id, title), seq![id])
        }
    }

    /// Whether the session `id` is in a room and owns it.
    pub open spec fn owns_room(self, id: Seq<char>) -> bool {
        self.room_of(id) is Some && self.room(self.room_of(id).unwrap()).owner == id
    }

    /// The registries after the session `id` has asked for an invite, for which `token`
    /// was drawn. Where it owns its room, the room holds the token as its newest
    /// invite, once. Else nothing changes.
    pub open spec fn invited(self, id: Seq<char>, token: Seq<char>) -> ServerView {
        if self.owns_room(id) && !self.room(self.room_of(id).unwrap()).invites.contains(token) {
            self.with_invites(
                self.room_of(id).unwrap(),
                self.room(self.room_of(id).unwrap()).invites.push(token),
            )
        } else {
            self
        }
    }

    /// What the session `id` is sent when it asks for an invite, for which `token` was
    /// drawn: the token where it owns its room, else that only the owner may ask. An
    /// unknown session gets nothing.
    pub open spec fn invite_notices(self, id: Seq<char>, token: Seq<char>) -> Seq<DeliveryView> {
        if !self.has_session(id) {
            Seq::empty()
        } else if !self.owns_room(id) {
            deliveries(
                self,
                ServerWsMessageView::SystemMessage("You have to be admin to create an invite"@),
                seq![id],
            )
        } else {
            deliveries(
                self,
                ServerWsMessageView::SystemMessage("Created invite: "@ + token),
                seq![id],
            )
        }
    }

    /// What is sent when the session `id` says `text`: the text, under the session's id
    /// and name, to every member of its room, itself included. A session that is
    /// unknown or in no room is not heard.
    pub open spec fn said(self, id: Seq<char>, text: Seq<char>) -> Seq<DeliveryView> {
        match self.room_of(id) {
            None => Seq::empty(),
            Some(rid) => deliveries(
                self,
                ServerWsMessageView::Message(id, self.session(id).name, text),
                self.room(rid).members,
            ),
        }
    }

    /// The display names of the sessions `ids`, in order.
    pub open spec fn names_of(self, ids: Seq<Seq<char>>) -> Seq<Seq<char>> {
        Seq::new(ids.len(), |k: int| self.session(ids[k]).name)
    }

    /// The listing of the room `rid`: its title, its members' names, and its unused
    /// invites.
    pub open spec fn member_list(self, rid: Seq<char>) -> Seq<char> {
        listed(
            listed(
                "members of "@ + self.room(rid).title + ":\n"@,
                self.names_of(self.room(rid).members),
            ) + "open invites:\n"@,
            self.room(rid).invites,
        )
    }

    /// What the session `id` is sent when it asks who is in its room: the room's
    /// listing. A session that is unknown or in no room gets nothing.
    pub open spec fn list_notices(self, id: Seq<char>) -> Seq<DeliveryView> {
        match self.room_of(id) {
            None => Seq::empty(),
            Some(rid) => deliveries(
                self,
                ServerWsMessageView::SystemMessage(self.member_list(rid)),
                seq![id],
            ),
        }
    }
}

/// `acc`, and after it each of `items` on a line of its own, indented by four blanks.
pub open spec fn listed(acc: Seq<char>, items: Seq<Seq<char>>) -> Seq<char>
    decreases items.len(),
{
    if items.len() == 0 {
        acc
    } else {
        listed(acc, items.drop_last()) + "    "@ + items.last() + "\n"@
    }
}

/// Making a room keeps the registries in order.
pub proof fn lemma_created_wf(v: ServerView, id: Seq<char>, title: Seq<char>, chat_id: Seq<char>)
    requires
        v.wf(),
    ensures
        v.created(id, title, chat_id).wf(),
{
    if v.can_create(id, title, chat_id) {
        let i = v.session_pos(id);
        lemma_session_pos(v, i);
        let w = v.created(id, title, chat_id);
        let n = v.rooms.len() as int;
        let members = seq![id];
        assert(w.rooms[n].members == members);
        assert(members[0] == id);
        assert forall|x: Seq<char>| members.contains(x) <==> x == id by {
            if x == id {
                assert(members[0] == x);
            }
        }
        assert(w.distinct_rooms()) by {
            assert forall|a: int, b: int| 0 <= a < b < w.rooms.len() implies (
            #[trigger] w.rooms[a]).id != (#[trigger] w.rooms[b]).id by {
                if b < n {
                    assert(v.rooms[a].id != v.rooms[b].id);
                } else {
                    assert(v.rooms[a].id != chat_id);
                }
            }
        }
        assert(w.rooms_ok()) by {
            assert forall|q: int| 0 <= q < w.rooms.len() implies (#[trigger] w.rooms[q]).ok() by {
                if q < n {
                    assert(v.rooms[q].ok());
                }
            }
        }
        lemma_sessions_kept(v, w);
        assert(w.linked()) by {
            assert forall|a: int, q: int|
                0 <= a < w.sessions.len() && 0 <= q < w.rooms.len() implies ((
            #[trigger] w.sessions[a]).room == Some((#[trigger] w.rooms[q]).id)
                <==> w.rooms[q].members.contains(w.sessions[a].id)) by {
                if q < n {
                    assert(v.sessions[a].room == Some(v.rooms[q].id)
                        <==> v.rooms[q].members.contains(v.sessions[a].id));
                    assert(v.rooms[q].id != chat_id);
                } else {
                    if v.sessions[a].id != id {
                        if v.sessions[a].room is Some {
                            assert(v.has_room(v.sessions[a].room.unwrap()));
                        }
                    }
                }
                if a != i {
                    if a < i {
                        assert(v.sessions[a].id != v.sessions[i].id);
                    } else {
                        assert(v.sessions[i].id != v.sessions[a].id);
                    }
                }
            }
        }
        assert(w.members_known()) by {
            assert forall|q: int, j: int|
                0 <= q < w.rooms.len() && 0 <= j < w.rooms[q].members.len()
                    implies w.has_session(#[trigger] w.rooms[q].members[j]) by {
                let m = w.rooms[q].members[j];
                if q < n {
                    assert(m == v.rooms[q].members[j]);
                    assert(v.has_session(m));
                } else {
                    assert(w.sessions[i].id == m);
                }
            }
        }
        assert(w.rooms_known()) by {
            assert forall|a: int|
                0 <= a < w.sessions.len() && (#[trigger] w.sessions[a]).room is Some
                    implies w.has_room(w.sessions[a].room.unwrap()) by {
                let x = w.sessions[a].room.unwrap();
                if v.sessions[a].id == id {
                    assert(w.rooms[n].id == x);
                } else {
                    assert(v.sessions[a].room == Some(x));
                    assert(v.has_room(x));
                    assert(w.rooms[v.room_pos(x)].id == x);
                }
            }
        }
    }
}

/// Handing out an invite keeps the registries in order.
pub proof fn lemma_invited_wf(v: ServerView, id: Seq<char>, token: Seq<char>)
    requires
        v.wf(),
    ensures
        v.invited(id, token).wf(),
{
    if v.owns_room(id) && !v.room(v.room_of(id).unwrap()).invites.contains(token) {
        lemma_room_of(v, id);
        let rid = v.room_of(id).unwrap();
        let r = v.room_pos(rid);
        lemma_room_pos(v, r);
        let w = v.invited(id, token);
        let invites = v.rooms[r].invites.push(token);
        assert(w.rooms[r].invites == invites);
        assert(v.rooms[r].ok());
        assert(invites.no_duplicates()) by {
            assert forall|a: int, b: int|
                0 <= a < invites.len() && 0 <= b < invites.len() && a != b implies invites[a]
                != invites[b] by {
                if a < v.rooms[r].invites.len() && b < v.rooms[r].invites.len() {
                    assert(v.rooms[r].invites[a] != v.rooms[r].invites[b]);
                } else if a < v.rooms[r].invites.len() {
                    assert(v.rooms[r].invites.contains(v.rooms[r].invites[a]));
                } else {
                    assert(v.rooms[r].invites.contains(v.rooms[r].invites[b]));
                }
            }
        }
        lemma_rooms_kept(v, w);
        assert(w.rooms_ok()) by {
            assert forall|q: int| 0 <= q < w.rooms.len() implies (#[trigger] w.rooms[q]).ok() by {
                assert(v.rooms[q].ok());
                if q != r {
                    if q < r {
                        assert(v.rooms[q].id != v.rooms[r].id);
                    } else {
                        assert(v.rooms[r].id != v.rooms[q].id);
                    }
                }
            }
        }
        assert(w.linked()) by {
            assert forall|a: int, q: int|
                0 <= a < w.sessions.len() && 0 <= q < w.rooms.len() implies ((
            #[trigger] w.sessions[a]).room == Some((#[trigger] w.rooms[q]).id)
                <==> w.rooms[q].members.contains(w.sessions[a].id)) by {
                assert(v.sessions[a].room == Some(v.rooms[q].id) <==> v.rooms[q].members.contains(
                    v.sessions[a].id,
                ));
            }
        }
        assert(w.members_known()) by {
            assert forall|q: int, j: int|
                0 <= q < w.rooms.len() && 0 <= j < w.rooms[q].members.len()
                    implies w.has_session(#[trigger] w.rooms[q].members[j]) by {
                assert(w.rooms[q].members[j] == v.rooms[q].members[j]);
                assert(v.has_session(v.rooms[q].members[j]));
            }
        }
        assert(w.rooms_known()) by {
            assert forall|a: int|
                0 <= a < w.sessions.len() && (#[trigger] w.sessions[a]).room is Some
                    implies w.has_room(w.sessions[a].room.unwrap()) by {
                let x = w.sessions[a].room.unwrap();
                assert(v.has_room(x));
            }
        }
    }
}

impl Server {
    /// Makes a room called `title` for the session `user_id` under the id `chat_id`,
    /// if it may have one, and returns what is to be sent.
    pub fn create_chat_as(&mut self, title: ChatTitle, user_id: &UserId, chat_id: ChatId) -> (out:
        Vec<Delivery>)
        requires
            old(self)@.wf(),
        ensures
            final(self)@ == old(self)@.created(user_id@, title@, chat_id@),
            outs(out@) == old(self)@.create_notices(user_id@, title@, chat_id@),
            final(self)@.wf(),
    {
        proof {
            lemma_created_wf(self@, user_id@, title@, chat_id@);
        }
        let i = match self.find_session(user_id) {
            Some(i) => i,
            None => {
                let out: Vec<Delivery> = Vec::new();
                assert(outs(out@) =~= Seq::<DeliveryView>::empty());
                return out;
            },
        };
        proof {
            lemma_session_pos(self@, i as int);
        }
        let n: usize = title.as_str().unicode_len();
        if n < MIN_LEN || n > MAX_TITLE_LEN {
            let mut text = String::from_str(
                "title should be between 3 and 24 characters long, found ",
            );
            text.append(decimal_string(n).as_str());
            return self.send_msg(user_id, ServerWsMessage::SystemMessage(text));
        }
        if !is_valid_name(title.as_str()) {
            return self.send_msg(user_id, system_message("title is not valid"));
        }
        if self.sessions[i].room.is_some() {
            return self.send_msg(user_id, system_message("You are already in a chat"));
        }
        if self.find_room(&chat_id).is_some() {
            return self.send_msg(user_id, system_message("Chat id is already in use"));
        }
        let event = ServerWsMessage::SystemEvent(
            ServerEvent::ChatCreate(chat_id.clone(), title.clone()),
        );
        let out = self.send_msg(user_id, event);
        let ghost before = self@;
        self.sessions[i].room = Some(chat_id.clone());
        let mut members: Vec<UserId> = Vec::new();
        members.push(user_id.clone());
        let room = Room {
            id: chat_id,
            title: title,
            owner: user_id.clone(),
            members: members,
            invites: Vec::new(),
        };
        proof {
            assert(room@.members =~= seq![user_id@]);
            assert(room@.invites =~= Seq::<Seq<char>>::empty());
        }
        self.rooms.push(room);
        proof {
            let target = before.created(user_id@, title@, chat_id@);
            assert(self@.sessions =~= target.sessions) by {
                assert forall|a: int| 0 <= a < before.sessions.len() implies (
                #[trigger] self@.sessions[a]) == target.sessions[a] by {
                    if a != i {
                        if a < i {
                            assert(before.sessions[a].id != before.sessions[i as int].id);
                        } else {
                            assert(before.sessions[i as int].id != before.sessions[a].id);
                        }
                    }
                }
            }
            assert(self@.rooms =~= target.rooms);
        }
        out
    }

    /// Makes a room called `title` for the session `user_id` under a new random id that
    /// no room has, if it may have one, and returns what is to be sent. After it a
    /// registered session that gave an acceptable title is in a room: the new one, or
    /// the one that it was in.
    pub fn create_chat(&mut self, title: ChatTitle, user_id: &UserId) -> (out: Vec<Delivery>)
        requires
            old(self)@.wf(),
        ensures
            exists|chat_id: Seq<char>|
                {
                    &&& is_id(chat_id)
                    &&& !old(self)@.has_room(chat_id)
                    &&& final(self)@ == #[trigger] old(self)@.created(user_id@, title@, chat_id)
                    &&& outs(out@) == old(self)@.create_notices(user_id@, title@, chat_id)
                },
            old(self)@.has_session(user_id@) && acceptable_title(title@) ==> {
                &&& final(self)@.room_of(user_id@) is Some
                &&& final(self)@.has_room(final(self)@.room_of(user_id@).unwrap())
                &&& final(self)@.room(final(self)@.room_of(user_id@).unwrap()).members.contains(
                    user_id@,
                )
            },
            final(self)@.wf(),
    {
        let chat_id = self.unused_room_id();
        proof {
            lemma_created_wf(self@, user_id@, title@, chat_id@);
            if self@.has_session(user_id@) && acceptable_title(title@) {
                let i = self@.session_pos(user_id@);
                lemma_session_pos(self@, i);
                let w = self@.created(user_id@, title@, chat_id@);
                assert(w.sessions[i].id == user_id@);
                lemma_session_pos(w, i);
                lemma_room_of(w, user_id@);
            }
        }
        self.create_chat_as(title, user_id, chat_id)
    }

    /// Where the room stands that the session `user_id` is in and owns, if there is one.
    fn owned_room(&self, user_id: &UserId) -> (found: Option<usize>)
        requires
            self@.wf(),
        ensures
            found is Some <==> self@.owns_room(user_id@),
            found matches Some(r) ==> r < self.rooms.len() && self@.room_of(user_id@) == Some(
                self@.rooms[r as int].id,
            ) && self@.room(self@.rooms[r as int].id) == self@.rooms[r as int],
    {
        let i = match self.find_session(user_id) {
            Some(i) => i,
            None => {
                return None;
            },
        };
        proof {
            lemma_session_pos(self@, i as int);
        }
        match &self.sessions[i].room {
            Some(rid) => {
                proof {
                    lemma_room_of(self@, user_id@);
                }
                let r = self.room_at(rid);
                proof {
                    lemma_room_pos(self@, r as int);
                }
                if self.rooms[r].owner == *user_id {
                    Some(r)
                } else {
                    None
                }
            },
            None => None,
        }
    }

    /// An id that no room has: a new random one, with as many zeros behind it as it
    /// takes to differ from every id in use.
    fn unused_room_id(&self) -> (id: String)
        ensures
            is_id(id@),
            !self@.has_room(id@),
    {
        let mut id = fresh_token();
        let mut held = self.find_room(&id);
        while held.is_some()
            invariant
                is_id(id@),
                held is Some <==> self@.has_room(id@),
            decreases at_least(self@.room_ids(), id@.len()),
        {
            proof {
                assert(self@.room_ids()[self@.room_pos(id@)] == id@);
                lemma_at_least_drops(self@.room_ids(), id@);
                reveal_strlit("0");
            }
            id.append("0");
            held = self.find_room(&id);
        }
        id
    }

    /// Hands the session `user_id` the invite `invite` into the room that it owns, and
    /// returns what is to be sent.
    pub fn create_chat_invite_as(&mut self, user_id: &UserId, invite: InviteId) -> (out: Vec<
        Delivery,
    >)
        requires
            old(self)@.wf(),
        ensures
            final(self)@ == old(self)@.invited(user_id@, invite@),
            outs(out@) == old(self)@.invite_notices(user_id@, invite@),
            final(self)@.wf(),
    {
        proof {
            lemma_invited_wf(self@, user_id@, invite@);
        }
        if self.find_session(user_id).is_none() {
            let out: Vec<Delivery> = Vec::new();
            assert(outs(out@) =~= Seq::<DeliveryView>::empty());
            return out;
        }
        let r = match self.owned_room(user_id) {
            Some(r) => r,
            None => {
                return self.send_msg(
                    user_id,
                    system_message("You have to be admin to create an invite"),
                );
            },
        };
        let mut text = String::from_str("Created invite: ");
        text.append(invite.as_str());
        let out = self.send_msg(user_id, ServerWsMessage::SystemMessage(text));
        let held = find_str(&self.rooms[r].invites, &invite);
        if held.is_none() {
            let ghost before = self@;
            self.rooms[r].invites.push(invite);
            proof {
                let rid = before.rooms[r as int].id;
                let invites = before.rooms[r as int].invites.push(invite@);
                assert(self@.rooms[r as int].invites =~= invites);
                assert(self@.rooms[r as int].members =~= before.rooms[r as int].members);
                assert(self@.rooms =~= before.with_invites(rid, invites).rooms) by {
                    assert forall|a: int| 0 <= a < before.rooms.len() implies (
                    #[trigger] self@.rooms[a]) == before.with_invites(rid, invites).rooms[a] by {
                        if a != r {
                            if a < r {
                                assert(before.rooms[a].id != before.rooms[r as int].id);
                            } else {
                                assert(before.rooms[r as int].id != before.rooms[a].id);
                            }
                        }
                    }
                }
            }
        } else {
            proof {
                assert(strs(self.rooms[r as int].invites@)[held.unwrap() as int] == invite@);
            }
        }
        out
    }

    /// Hands the session `user_id` a new random invite into the room that it owns, one
    /// that the room does not hold yet, and returns what is to be sent.
    pub fn create_chat_invite(&mut self, user_id: &UserId) -> (out: Vec<Delivery>)
        requires
            old(self)@.wf(),
        ensures
            exists|invite: Seq<char>|
                {
                    &&& is_id(invite)
                    &&& old(self)@.owns_room(user_id@) ==> !old(self)@.room(
                        old(self)@.room_of(user_id@).unwrap(),
                    ).invites.contains(invite)
                    &&& final(self)@ == #[trigger] old(self)@.invited(user_id@, invite)
                    &&& outs(out@) == old(self)@.invite_notices(user_id@, invite)
                },
            final(self)@.wf(),
    {
        let invite = match self.owned_room(user_id) {
            Some(r) => unused_among(&self.rooms[r].invites, fresh_token()),
            None => fresh_token(),
        };
        self.create_chat_invite_as(user_id, invite)
    }

    /// Addresses what the session `user_id` says to the members of its room.
    pub fn send_message(&self, user_id: &UserId, content: String) -> (out: Vec<Delivery>)
        requires
            self@.wf(),
        ensures
            outs(out@) == self@.said(user_id@, content@),
    {
        let i = match self.find_session(user_id) {
            Some(i) => i,
            None => {
                let out: Vec<Delivery> = Vec::new();
                assert(outs(out@) =~= Seq::<DeliveryView>::empty());
                return out;
            },
        };
        proof {
            lemma_session_pos(self@, i as int);
        }
        let rid = match &self.sessions[i].room {
            Some(rid) => rid,
            None => {
                let out: Vec<Delivery> = Vec::new();
                assert(outs(out@) =~= Seq::<DeliveryView>::empty());
                return out;
            },
        };
        proof {
            lemma_room_of(self@, user_id@);
        }
        let r = self.room_at(rid);
        proof {
            lemma_room_pos(self@, r as int);
        }
        let message = ServerWsMessage::Message(
            user_id.clone(),
            self.sessions[i].name.clone(),
            content,
        );
        self.broadcast_msg(&message, &self.rooms[r].members)
    }

    /// Addresses the listing of its room to the session `user_id`.
    pub fn list_members(&self, user_id: &UserId) -> (out: Vec<Delivery>)
        requires
            self@.wf(),
        ensures
            outs(out@) == self@.list_notices(user_id@),
    {
        let i = match self.find_session(user_id) {
            Some(i) => i,
            None => {
                let out: Vec<Delivery> = Vec::new();
                assert(outs(out@) =~= Seq::<DeliveryView>::empty());
                return out;
            },
        };
        proof {
            lemma_session_pos(self@, i as int);
        }
        let rid = match &self.sessions[i].room {
            Some(rid) => rid,
            None => {
                let out: Vec<Delivery> = Vec::new();
                assert(outs(out@) =~= Seq::<DeliveryView>::empty());
                return out;
            },
        };
        proof {
            lemma_room_of(self@, user_id@);
        }
        let r = self.room_at(rid);
        proof {
            lemma_room_pos(self@, r as int);
        }
        let room = &self.rooms[r];
        let mut text = String::from_str("members of ");
        text.append(room.title.as_str());
        text.append(":\n");
        let ghost head = text@;
        let ghost names = self@.names_of(room@.members);
        let mut k: usize = 0;
        proof {
            assert(names.take(0) =~= Seq::<Seq<char>>::empty());
        }
        while k < room.members.len()
            invariant
                k <= room.members.len(),
                self@.wf(),
                r < self.rooms.len(),
                room == &self.rooms[r as int],
                names == self@.names_of(room@.members),
                text@ == listed(head, names.take(k as int)),
            decreases room.members.len() - k,
        {
            proof {
                assert(names.take(k + 1).drop_last() =~= names.take(k as int));
                assert(self@.rooms[r as int].members[k as int] == room.members[k as int]@);
                assert(self@.has_session(self@.rooms[r as int].members[k as int]));
            }
            let j = self.session_at(&room.members[k]);
            proof {
                lemma_session_pos(self@, j as int);
            }
            text.append("    ");
            text.append(self.sessions[j].name.as_str());
            text.append("\n");
            k = k + 1;
        }
        proof {
            assert(names.take(room.members.len() as int) =~= names);
        }
        text.append("open invites:\n");
        let ghost middle = text@;
        let mut t: usize = 0;
        proof {
            assert(room@.invites.take(0) =~= Seq::<Seq<char>>::empty());
        }
        while t < room.invites.len()
            invariant
                t <= room.invites.len(),
                text@ == listed(middle, room@.invites.take(t as int)),
            decreases room.invites.len() - t,
        {
            proof {
                assert(room@.invites.take(t + 1).drop_last() =~= room@.invites.take(t as int));
                assert(room@.invites.take(t + 1).last() == room.invites[t as int]@);
            }
            text.append("    ");
            text.append(room.invites[t].as_str());
            text.append("\n");
            t = t + 1;
        }
        proof {
            assert(room@.invites.take(room.invites.len() as int) =~= room@.invites);
        }
        self.send_msg(user_id, ServerWsMessage::SystemMessage(text))
    }
}

} // verus!

//! What holds of the registries whatever the sessions do.

use crate::chat::{
    deliveries, disband_notice, invalid_invite, lemma_created_wf, lemma_invited_wf,
    lemma_deliveries_reach, lemma_joined_wf, lemma_left_wf, left_notice, DeliveryView,
};
use crate::handler::{
    lemma_left_clears, lemma_registered_wf, lemma_unregistered_wf, newcomer,
};
use crate::protocol::{ClientWsMessageView, ResponseView};
use crate::registry::{
    lemma_first_exists, lemma_first_titled, lemma_room_of, lemma_room_pos, lemma_session_pos,
    lemma_session_stays, lemma_without, without, ServerView,
};
use crate::ws::lemma_with_stream_wf;
use crate::text::trimmed;
use crate::validator::acceptable_name;
use vstd::prelude::*;

verus! {

/// A session is in the room `rid` exactly if that room exists and has the session
/// among its members.
pub proof fn law_in_room_iff_member(v: ServerView, id: Seq<char>, rid: Seq<char>)
    requires
        v.wf(),
    ensures
        v.room_of(id) == Some(rid) <==> v.has_room(rid) && v.room(rid).members.contains(id),
{
    if v.room_of(id) == Some(rid) {
        lemma_room_of(v, id);
    }
    if v.has_room(rid) && v.room(rid).members.contains(id) {
        let r = v.room_pos(rid);
        assert(v.rooms[r].id == rid);
        let k = choose|k: int| 0 <= k < v.rooms[r].members.len() && v.rooms[r].members[k] == id;
        assert(v.has_session(v.rooms[r].members[k]));
        let i = v.session_pos(id);
        assert(v.sessions[i].id == id);
        assert(v.sessions[i].room == Some(v.rooms[r].id) <==> v.rooms[r].members.contains(
            v.sessions[i].id,
        ));
    }
}

/// Whatever a session sends over its stream, the registries stay in order: in
/// particular, a session is in a room exactly if it is among the room's members.
pub proof fn law_order_is_kept(
    v: ServerView,
    id: Seq<char>,
    m: ClientWsMessageView,
    token: Seq<char>,
)
    requires
        v.wf(),
    ensures
        v.dispatched(id, m, token).wf(),
{
    match m {
        ClientWsMessageView::Message(_) => {},
        ClientWsMessageView::ChatCreate(title) => {
            lemma_created_wf(v, id, title, token);
        },
        ClientWsMessageView::ChatJoin(title, invite) => {
            lemma_joined_wf(v, id, title, invite);
        },
        ClientWsMessageView::ChatLeave => {
            lemma_left_wf(v, id);
        },
        ClientWsMessageView::ChatCreateInvite => {
            lemma_invited_wf(v, id, token);
        },
        ClientWsMessageView::ChatListMembers => {},
    }
}

/// However sessions come and go, the registries stay in order: when one registers,
/// when its stream comes up, and when it unregisters or its stream ends.
pub proof fn law_order_is_kept_as_sessions_come_and_go(
    v: ServerView,
    raw: Seq<char>,
    id: Seq<char>,
)
    requires
        v.wf(),
    ensures
        v.registered(raw, id).wf(),
        v.with_stream(id).wf(),
        v.unregistered(id).wf(),
{
    lemma_registered_wf(v, raw, id);
    lemma_with_stream_wf(v, id);
    lemma_unregistered_wf(v, id);
}

/// An invite lets one session in, once. After a session has entered a room on an
/// invite, the room no longer holds it; whoever asks to enter on it again changes
/// nothing and, if registered, is told that the invite is invalid.
pub proof fn law_invite_is_used_once(
    v: ServerView,
    id: Seq<char>,
    other: Seq<char>,
    title: Seq<char>,
    invite: Seq<char>,
)
    requires
        v.wf(),
        v.can_join(id, title, invite),
    ensures
        v.joined(id, title, invite).room_of(id) == Some(v.titled(title).id),
        !v.joined(id, title, invite).titled(title).invites.contains(invite),
        v.joined(id, title, invite).joined(other, title, invite) == v.joined(id, title, invite),
        v.joined(id, title, invite).has_session(other) ==> v.joined(id, title, invite).join_notices(
            other,
            title,
            invite,
        ) == deliveries(v.joined(id, title, invite), invalid_invite(), seq![other]),
{
    let w = v.joined(id, title, invite);
    lemma_joined_wf(v, id, title, invite);
    let some = choose|q: int| 0 <= q < v.rooms.len() && (#[trigger] v.rooms[q]).title == title;
    lemma_first_exists(v, title, some);
    let r = v.first_titled(title);
    let i = v.session_pos(id);
    lemma_session_pos(v, i);
    lemma_room_pos(v, r);
    assert(v.rooms[r].ok());
    lemma_without(v.rooms[r].invites, invite);
    assert(w.is_first_titled(title, r)) by {
        assert(w.rooms[r].title == title);
        assert forall|q: int| 0 <= q < r implies (#[trigger] w.rooms[q]).title != title by {
            assert(v.rooms[q].title != title);
        }
    }
    lemma_first_titled(w, title, r);
    assert(w.rooms[r].invites == without(v.rooms[r].invites, invite));
    assert(w.sessions[i].id == id);
    lemma_session_pos(w, i);
}

/// Where the owner leaves, the room is disbanded: the room is gone, every session that
/// was in it is still registered and in no room, every other member whose stream is up
/// is sent the notice of it, and the sessions elsewhere stay where they are.
pub proof fn law_owner_leaving_disbands(v: ServerView, id: Seq<char>, member: Seq<char>)
    requires
        v.wf(),
        v.owns_room(id),
    ensures
        !v.left(id).has_room(v.room_of(id).unwrap()),
        v.room(v.room_of(id).unwrap()).members.contains(member) ==> v.left(id).has_session(member)
            && v.left(id).room_of(member) is None,
        v.room(v.room_of(id).unwrap()).members.contains(member) && member != id && v.is_bound(
            member,
        ) ==> v.leave_notices(id).contains(
            DeliveryView { to: member, message: disband_notice(v.session(id).name) },
        ),
        v.has_session(member) && v.room_of(member) != v.room_of(id) ==> v.left(id).room_of(member)
            == v.room_of(member),
{
    lemma_room_of(v, id);
    lemma_left_wf(v, id);
    let rid = v.room_of(id).unwrap();
    let r = v.room_pos(rid);
    lemma_room_pos(v, r);
    let w = v.left(id);
    assert(w.rooms == v.rooms.remove(r));
    if w.has_room(rid) {
        let q = w.room_pos(rid);
        assert(w.rooms[q].id == rid);
        if q < r {
            assert(v.rooms[q].id != v.rooms[r].id);
        } else {
            assert(v.rooms[r].id != v.rooms[q + 1].id);
        }
    }
    let members = v.rooms[r].members;
    if members.contains(member) {
        let k = choose|k: int| 0 <= k < members.len() && members[k] == member;
        assert(v.has_session(v.rooms[r].members[k]));
        let j = v.session_pos(member);
        lemma_session_pos(v, j);
        assert(v.sessions[j].room == Some(v.rooms[r].id) <==> v.rooms[r].members.contains(
            v.sessions[j].id,
        ));
        assert(w.sessions[j].id == member);
        lemma_session_pos(w, j);
        if member != id && v.is_bound(member) {
            lemma_without(members, id);
            let others = without(members, id);
            let note = disband_notice(v.session(id).name);
            lemma_deliveries_reach(v, note, others, member);
            let first = deliveries(v, left_notice(v.session(id).name), others);
            let second = deliveries(v, note, others);
            let d = DeliveryView { to: member, message: note };
            let t = choose|t: int| 0 <= t < second.len() && second[t] == d;
            assert((first + second)[first.len() + t] == d);
        }
    }
    if v.has_session(member) && v.room_of(member) != v.room_of(id) {
        let j = v.session_pos(member);
        lemma_session_pos(v, j);
        assert(w.sessions[j].id == member);
        lemma_session_pos(w, j);
    }
}

/// Display names need not differ: a second session may register under a name that
/// another session has, and both are granted.
pub proof fn law_names_need_not_differ(
    v: ServerView,
    raw: Seq<char>,
    first: Seq<char>,
    second: Seq<char>,
)
    requires
        v.wf(),
        acceptable_name(trimmed(raw)),
        !v.has_session(first),
        !v.has_session(second),
        first != second,
    ensures
        v.register_reply(raw, first) == ResponseView::Accept((first, v.version)),
        v.registered(raw, first).register_reply(raw, second) == ResponseView::Accept(
            (second, v.version),
        ),
        v.registered(raw, first).registered(raw, second).name_of(first) == Some(trimmed(raw)),
        v.registered(raw, first).registered(raw, second).name_of(second) == Some(trimmed(raw)),
{
    let w = v.registered(raw, first);
    lemma_registered_wf(v, raw, first);
    let n = v.sessions.len() as int;
    assert(w.sessions[n] == newcomer(first, trimmed(raw)));
    if w.has_session(second) {
        let j = w.session_pos(second);
        assert(w.sessions[j].id == second);
        if j < n {
            assert(v.sessions[j].id == second);
        }
    }
    let u = w.registered(raw, second);
    lemma_registered_wf(w, raw, second);
    assert(u.sessions[n] == newcomer(first, trimmed(raw)));
    assert(u.sessions[n + 1] == newcomer(second, trimmed(raw)));
    lemma_session_pos(u, n);
    lemma_session_pos(u, n + 1);
}

/// When a session's stream ends, the rooms and the other sessions are left as if the
/// session had asked to leave its room; the session itself is no longer registered.
pub proof fn law_disconnect_is_leave(v: ServerView, id: Seq<char>, other: Seq<char>)
    requires
        v.wf(),
        v.has_session(id),
        other != id,
    ensures
        v.unregistered(id).rooms == v.left(id).rooms,
        !v.unregistered(id).has_session(id),
        v.unregistered(id).has_session(other) == v.left(id).has_session(other),
        v.unregistered(id).room_of(other) == v.left(id).room_of(other),
{
    let l = v.left(id);
    let w = v.unregistered(id);
    lemma_left_wf(v, id);
    lemma_left_clears(v, id);
    lemma_unregistered_wf(v, id);
    let i = l.session_pos(id);
    lemma_session_pos(l, i);
    assert(w.sessions == l.sessions.remove(i));
    if w.has_session(id) {
        let j = w.session_pos(id);
        assert(w.sessions[j].id == id);
        if j < i {
            assert(l.sessions[j].id != l.sessions[i].id);
        } else {
            assert(l.sessions[i].id != l.sessions[j + 1].id);
        }
    }
    if l.has_session(other) {
        lemma_session_stays(l, i, other);
        let a = l.session_pos(other);
        lemma_session_pos(l, a);
        let b = if a < i {
            a
        } else {
            a - 1
        };
        assert(w.sessions[b] == l.sessions[a]);
        lemma_session_pos(w, b);
    }
    if w.has_session(other) {
        let b = w.session_pos(other);
        assert(w.sessions[b].id == other);
        let a = if b < i {
            b
        } else {
            b + 1
        };
        assert(l.sessions[a].id == other);
    }
}

/// Unregistering a session that is in a room takes it out of the room first: after it
/// no room has the session among its members. Where it was a member, the room goes on
/// without it; where it was the owner, the room is gone.
pub proof fn law_unregister_leaves_first(v: ServerView, id: Seq<char>)
    requires
        v.wf(),
        v.room_of(id) is Some,
    ensures
        v.unregistered(id).wf(),
        !v.unregistered(id).has_session(id),
        v.unregistered(id).rooms == v.left(id).rooms,
        v.room(v.room_of(id).unwrap()).owner == id ==> !v.unregistered(id).has_room(
            v.room_of(id).unwrap(),
        ),
        v.room(v.room_of(id).unwrap()).owner != id ==> v.unregistered(id).members_of(
            v.room_of(id).unwrap(),
        ) == Some(without(v.room(v.room_of(id).unwrap()).members, id)),
        forall|r: int|
            0 <= r < v.unregistered(id).rooms.len() ==> !(
            #[trigger] v.unregistered(id).rooms[r]).members.contains(id),
{
    lemma_room_of(v, id);
    lemma_unregistered_wf(v, id);
    lemma_left_wf(v, id);
    lemma_left_clears(v, id);
    let w = v.unregistered(id);
    let l = v.left(id);
    let rid = v.room_of(id).unwrap();
    let r = v.room_pos(rid);
    lemma_room_pos(v, r);
    let i = l.session_pos(id);
    lemma_session_pos(l, i);
    assert(w.sessions == l.sessions.remove(i));
    if w.has_session(id) {
        let j = w.session_pos(id);
        assert(w.sessions[j].id == id);
        if j < i {
            assert(l.sessions[j].id != l.sessions[i].id);
        } else {
            assert(l.sessions[i].id != l.sessions[j + 1].id);
        }
    }
    assert forall|q: int| 0 <= q < w.rooms.len() implies !(#[trigger] w.rooms[q]).members.contains(
        id,
    ) by {
        if w.rooms[q].members.contains(id) {
            let k = choose|k: int|
                0 <= k < w.rooms[q].members.len() && w.rooms[q].members[k] == id;
            assert(w.has_session(w.rooms[q].members[k]));
        }
    }
    if v.room(rid).owner == id {
        assert(l.rooms == v.rooms.remove(r));
        if w.has_room(rid) {
            let q = w.room_pos(rid);
            assert(w.rooms[q].id == rid);
            if q < r {
                assert(v.rooms[q].id != v.rooms[r].id);
            } else {
                assert(v.rooms[r].id != v.rooms[q + 1].id);
            }
        }
    } else {
        assert(w.rooms[r].id == rid);
        lemma_room_pos(w, r);
    }
}

} // verus!

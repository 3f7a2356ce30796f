//! A session's stream: bringing it up, taking in what the client sends over it, and
//! cleaning up when it ends.

use crate::chat::{outs, Delivery, DeliveryView};
use crate::handler::StreamError;
use crate::protocol::{ClientWsMessage, ClientWsMessageView, UserId};
use crate::registry::{lemma_sessions_kept, Server, ServerView};
use crate::text::{trim, trimmed};
use crate::token::{is_id, is_lower_hex};
use vstd::prelude::*;
use vstd::string::*;

verus! {

/// Whether a frame is the heartbeat, which is taken in and not answered: the word
/// `ping`, with or without white space around it.
pub open spec fn heartbeat(frame: Seq<char>) -> bool {
    trimmed(frame) == "ping"@
}

/// Whether `frame` is the heartbeat.
pub fn is_heartbeat(frame: &str) -> (b: bool)
    ensures
        b == heartbeat(frame@),
{
    trim(frame) == String::from_str("ping")
}

impl ServerView {
    /// The registries after the session `id` has sent `m`, where `token` is the random
    /// id drawn for a new room or a new invite. A chat message and a request for the
    /// listing change nothing.
    pub open spec fn dispatched(
        self,
        id: Seq<char>,
        m: ClientWsMessageView,
        token: Seq<char>,
    ) -> ServerView {
        match m {
            ClientWsMessageView::Message(_) => self,
            ClientWsMessageView::ChatCreate(title) => self.created(id, title, token),
            ClientWsMessageView::ChatJoin(title, invite) => self.joined(id, title, invite),
            ClientWsMessageView::ChatLeave => self.left(id),
            ClientWsMessageView::ChatCreateInvite => self.invited(id, token),
            ClientWsMessageView::ChatListMembers => self,
        }
    }

    /// What is sent after the session `id` has sent `m`, where `token` is the random
    /// id drawn for a new room or a new invite.
    pub open spec fn dispatch_notices(
        self,
        id: Seq<char>,
        m: ClientWsMessageView,
        token: Seq<char>,
    ) -> Seq<DeliveryView> {
        match m {
            ClientWsMessageView::Message(text) => self.said(id, text),
            ClientWsMessageView::ChatCreate(title) => self.create_notices(id, title, token),
            ClientWsMessageView::ChatJoin(title, invite) => self.join_notices(id, title, invite),
            ClientWsMessageView::ChatLeave => self.leave_notices(id),
            ClientWsMessageView::ChatCreateInvite => self.invite_notices(id, token),
            ClientWsMessageView::ChatListMembers => self.list_notices(id),
        }
    }
}

/// Bringing a stream up keeps the registries in order.
pub proof fn lemma_with_stream_wf(v: ServerView, id: Seq<char>)
    requires
        v.wf(),
    ensures
        v.with_stream(id).wf(),
{
    let w = v.with_stream(id);
    lemma_sessions_kept(v, w);
    assert(w.linked()) by {
        assert forall|a: int, q: int|
            0 <= a < w.sessions.len() && 0 <= q < w.rooms.len() implies ((
        #[trigger] w.sessions[a]).room == Some((#[trigger] w.rooms[q]).id)
            <==> w.rooms[q].members.contains(w.sessions[a].id)) by {
            assert(v.sessions[a].room == Some(v.rooms[q].id) <==> v.rooms[q].members.contains(
                v.sessions[a].id,
            ));
        }
    }
    assert(w.members_known()) by {
        assert forall|q: int, j: int|
            0 <= q < w.rooms.len() && 0 <= j < w.rooms[q].members.len() implies w.has_session(
            #[trigger] w.rooms[q].members[j],
        ) by {
            let m = v.rooms[q].members[j];
            assert(v.has_session(m));
        }
    }
    assert(w.rooms_known()) by {
        assert forall|a: int|
            0 <= a < w.sessions.len() && (#[trigger] w.sessions[a]).room is Some
                implies w.has_room(w.sessions[a].room.unwrap()) by {
            assert(v.sessions[a].room is Some);
            assert(v.has_room(v.sessions[a].room.unwrap()));
        }
    }
}

/// Thirty-two zeros are an id.
proof fn lemma_some_token() -> (t: Seq<char>)
    ensures
        is_id(t),
{
    let t = Seq::new(32, |i: int| '0');
    assert forall|i: int| 0 <= i < t.len() implies is_lower_hex(#[trigger] t[i]) by {}
    t
}

impl Server {
    /// Marks the stream of the session `id` as up, so that messages reach it.
    pub fn connect_stream(&mut self, id: &UserId) -> (r: Result<(), StreamError>)
        requires
            old(self)@.wf(),
        ensures
            r is Ok <==> old(self)@.has_session(id@),
            r is Err ==> r == Err::<(), StreamError>(StreamError::NotFound) && final(self)@ == old(
                self,
            )@,
            r is Ok ==> final(self)@ == old(self)@.with_stream(id@),
            final(self)@.wf(),
    {
        proof {
            lemma_with_stream_wf(self@, id@);
        }
        match self.find_session(id) {
            Some(i) => {
                let ghost before = self@;
                self.sessions[i].bound = true;
                proof {
                    assert(self@.sessions =~= before.with_stream(id@).sessions) by {
                        assert forall|a: int| 0 <= a < before.sessions.len() implies (
                        #[trigger] self@.sessions[a]) == before.with_stream(id@).sessions[a] by {
                            if a != i {
                                if a < i {
                                    assert(before.sessions[a].id != before.sessions[i as int].id);
                                } else {
                                    assert(before.sessions[i as int].id != before.sessions[a].id);
                                }
                            }
                        }
                    }
                }
                Ok(())
            },
            None => Err(StreamError::NotFound),
        }
    }

    /// Cleans up after the stream of the session `id` has ended, however it ended: the
    /// session leaves its room, as if it had asked to, and is no longer registered.
    /// Returns the notices for those who stay behind. For a session that is gone
    /// already nothing happens.
    pub fn disconnect_stream(&mut self, id: &UserId) -> (out: Vec<Delivery>)
        requires
            old(self)@.wf(),
        ensures
            final(self)@ == old(self)@.unregistered(id@),
            outs(out@) == old(self)@.leave_notices(id@),
            final(self)@.wf(),
    {
        if self.find_session(id).is_none() {
            let out: Vec<Delivery> = Vec::new();
            assert(outs(out@) =~= Seq::<DeliveryView>::empty());
            return out;
        }
        self.drop_session(id)
    }

    /// Carries out what the session `client_id` has sent, with `token` as the id of
    /// the room or the invite if one is made, and returns what is to be sent.
    pub fn client_msg_as(&mut self, client_id: &UserId, msg: ClientWsMessage, token: String) -> (out:
        Vec<Delivery>)
        requires
            old(self)@.wf(),
        ensures
            final(self)@ == old(self)@.dispatched(client_id@, msg@, token@),
            outs(out@) == old(self)@.dispatch_notices(client_id@, msg@, token@),
            final(self)@.wf(),
    {
        match msg {
            ClientWsMessage::Message(content) => self.send_message(client_id, content),
            ClientWsMessage::ChatCreate(title) => self.create_chat_as(title, client_id, token),
            ClientWsMessage::ChatCreateInvite => self.create_chat_invite_as(client_id, token),
            ClientWsMessage::ChatJoin(chat_title, invite_id) => self.join_chat(
                client_id,
                chat_title,
                invite_id,
            ),
            ClientWsMessage::ChatLeave => self.leave_chat(client_id),
            ClientWsMessage::ChatListMembers => self.list_members(client_id),
        }
    }

    /// Carries out what the session `client_id` has sent and returns what is to be
    /// sent. A new room or a new invite gets a new random id that is not in use.
    pub fn client_msg(&mut self, client_id: &UserId, msg: ClientWsMessage) -> (out: Vec<Delivery>)
        requires
            old(self)@.wf(),
        ensures
            exists|token: Seq<char>|
                {
                    &&& is_id(token)
                    &&& final(self)@ == #[trigger] old(self)@.dispatched(client_id@, msg@, token)
                    &&& outs(out@) == old(self)@.dispatch_notices(client_id@, msg@, token)
                },
            final(self)@.wf(),
    {
        match msg {
            ClientWsMessage::ChatCreate(title) => {
                let ghost before = self@;
                let ghost name = title@;
                let out = self.create_chat(title, client_id);
                proof {
                    let id = choose|id: Seq<char>|
                        {
                            &&& is_id(id)
                            &&& !before.has_room(id)
                            &&& self@ == #[trigger] before.created(client_id@, name, id)
                            &&& outs(out@) == before.create_notices(client_id@, name, id)
                        };
                    assert(self@ == before.dispatched(client_id@, msg@, id));
                }
                out
            },
            ClientWsMessage::ChatCreateInvite => {
                let ghost before = self@;
                let out = self.create_chat_invite(client_id);
                proof {
                    let id = choose|id: Seq<char>|
                        {
                            &&& is_id(id)
                            &&& before.owns_room(client_id@) ==> !before.room(
                                before.room_of(client_id@).unwrap(),
                            ).invites.contains(id)
                            &&& self@ == #[trigger] before.invited(client_id@, id)
                            &&& outs(out@) == before.invite_notices(client_id@, id)
                        };
                    assert(self@ == before.dispatched(client_id@, msg@, id));
                }
                out
            },
            other => {
                let ghost any = lemma_some_token();
                let ghost before = self@;
                let out = self.client_msg_as(client_id, other, String::new());
                proof {
                    assert(self@ == before.dispatched(client_id@, msg@, any));
                }
                out
            },
        }
    }

    /// Takes in one text frame from the stream of the session `client_id`. `decoded`
    /// is the message that the frame holds, or nothing where it holds none. The
    /// heartbeat and a frame that holds no message are passed over: nothing changes
    /// and nothing is sent. Any other frame is carried out as `client_msg` does.
    pub fn client_frame(
        &mut self,
        client_id: &UserId,
        frame: &str,
        decoded: Option<ClientWsMessage>,
    ) -> (out: Vec<Delivery>)
        requires
            old(self)@.wf(),
        ensures
            heartbeat(frame@) || decoded is None ==> final(self)@ == old(self)@ && outs(out@)
                == Seq::<DeliveryView>::empty(),
            !heartbeat(frame@) && decoded is Some ==> exists|token: Seq<char>|
                {
                    &&& is_id(token)
                    &&& final(self)@ == #[trigger] old(self)@.dispatched(
                        client_id@,
                        decoded.unwrap()@,
                        token,
                    )
                    &&& outs(out@) == old(self)@.dispatch_notices(
                        client_id@,
                        decoded.unwrap()@,
                        token,
                    )
                },
            final(self)@.wf(),
    {
        let heard = if is_heartbeat(frame) {
            None
        } else {
            decoded
        };
        match heard {
            Some(msg) => self.client_msg(client_id, msg),
            None => {
                let out: Vec<Delivery> = Vec::new();
                assert(outs(out@) =~= Seq::<DeliveryView>::empty());
                out
            },
        }
    }
}

} // verus!

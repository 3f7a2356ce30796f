//! The messages that client and server exchange, and the abstract value of each.

use vstd::prelude::*;

verus! {

pub type UserName = String;

pub type UserId = String;

pub type ChatTitle = String;

pub type ChatId = String;

pub type InviteId = String;

pub type ServerUrl = String;

pub type FilePath = String;

pub type Version = String;

pub type Reason = String;

/// The answer to a request: the result, or the reason for which it was refused.
#[derive(Debug, Clone, PartialEq, Eq)]
pub enum Response<T> {
    Accept(T),
    Fail(Reason),
}

pub enum ResponseView<V> {
    Accept(V),
    Fail(Seq<char>),
}

impl<T: View> View for Response<T> {
    type V = ResponseView<T::V>;

    open spec fn view(&self) -> ResponseView<T::V> {
        match self {
            Response::Accept(t) => ResponseView::Accept(t@),
            Response::Fail(reason) => ResponseView::Fail(reason@),
        }
    }
}

/// Asks for a session under the display name it holds.
#[derive(Debug, Clone, PartialEq, Eq)]
pub struct ServerConnectRequest(pub UserName);

impl View for ServerConnectRequest {
    type V = Seq<char>;

    open spec fn view(&self) -> Seq<char> {
        self.0@
    }
}

/// The id of the new session and the server's version.
#[derive(Debug, Clone, PartialEq, Eq)]
pub struct ServerConnectResponse(pub UserId, pub Version);

impl View for ServerConnectResponse {
    type V = (Seq<char>, Seq<char>);

    open spec fn view(&self) -> (Seq<char>, Seq<char>) {
        (self.0@, self.1@)
    }
}

/// Asks to end the session whose id it holds.
#[derive(Debug, Clone, PartialEq, Eq)]
pub struct ServerDisconnectRequest(pub UserId);

impl View for ServerDisconnectRequest {
    type V = Seq<char>;

    open spec fn view(&self) -> Seq<char> {
        self.0@
    }
}

#[derive(Debug, Clone, PartialEq, Eq)]
pub struct ServerDisconnectResponse();

impl View for ServerDisconnectResponse {
    type V = ();

    open spec fn view(&self) -> () {
        ()
    }
}

#[derive(Debug, Clone, PartialEq, Eq)]
pub struct ServerVersion(pub Version);

impl View for ServerVersion {
    type V = Seq<char>;

    open spec fn view(&self) -> Seq<char> {
        self.0@
    }
}

/// What a client sends over its stream.
#[derive(Debug, PartialEq, Eq)]
pub enum ClientWsMessage {
    Message(String),
    ChatCreate(ChatTitle),
    ChatJoin(ChatId, InviteId),
    ChatLeave,
    ChatCreateInvite,
    ChatListMembers,
}

pub enum ClientWsMessageView {
    Message(Seq<char>),
    ChatCreate(Seq<char>),
    ChatJoin(Seq<char>, Seq<char>),
    ChatLeave,
    ChatCreateInvite,
    ChatListMembers,
}

impl View for ClientWsMessage {
    type V = ClientWsMessageView;

    open spec fn view(&self) -> ClientWsMessageView {
        match self {
            ClientWsMessage::Message(text) => ClientWsMessageView::Message(text@),
            ClientWsMessage::ChatCreate(title) => ClientWsMessageView::ChatCreate(title@),
            ClientWsMessage::ChatJoin(title, invite) => ClientWsMessageView::ChatJoin(
                title@,
                invite@,
            ),
            ClientWsMessage::ChatLeave => ClientWsMessageView::ChatLeave,
            ClientWsMessage::ChatCreateInvite => ClientWsMessageView::ChatCreateInvite,
            ClientWsMessage::ChatListMembers => ClientWsMessageView::ChatListMembers,
        }
    }
}

impl Clone for ClientWsMessage {
    fn clone(&self) -> (r: Self)
        ensures
            r == *self,
    {
        match self {
            ClientWsMessage::Message(text) => ClientWsMessage::Message(text.clone()),
            ClientWsMessage::ChatCreate(title) => ClientWsMessage::ChatCreate(title.clone()),
            ClientWsMessage::ChatJoin(title, invite) => ClientWsMessage::ChatJoin(
                title.clone(),
                invite.clone(),
            ),
            ClientWsMessage::ChatLeave => ClientWsMessage::ChatLeave,
            ClientWsMessage::ChatCreateInvite => ClientWsMessage::ChatCreateInvite,
            ClientWsMessage::ChatListMembers => ClientWsMessage::ChatListMembers,
        }
    }
}

/// What changed for the receiving session.
#[derive(Debug, PartialEq, Eq)]
pub enum ServerEvent {
    ChatCreate(ChatId, ChatTitle),
    ChatAccept(ChatId, ChatTitle),
    SetAdmin(bool),
}

pub enum ServerEventView {
    ChatCreate(Seq<char>, Seq<char>),
    ChatAccept(Seq<char>, Seq<char>),
    SetAdmin(bool),
}

impl View for ServerEvent {
    type V = ServerEventView;

    open spec fn view(&self) -> ServerEventView {
        match self {
            ServerEvent::ChatCreate(id, title) => ServerEventView::ChatCreate(id@, title@),
            ServerEvent::ChatAccept(id, title) => ServerEventView::ChatAccept(id@, title@),
            ServerEvent::SetAdmin(on) => ServerEventView::SetAdmin(*on),
        }
    }
}

impl Clone for ServerEvent {
    fn clone(&self) -> (r: Self)
        ensures
            r == *self,
    {
        match self {
            ServerEvent::ChatCreate(id, title) => ServerEvent::ChatCreate(
                id.clone(),
                title.clone(),
            ),
            ServerEvent::ChatAccept(id, title) => ServerEvent::ChatAccept(
                id.clone(),
                title.clone(),
            ),
            ServerEvent::SetAdmin(on) => ServerEvent::SetAdmin(*on),
        }
    }
}

/// What the server sends over a session's stream.
#[derive(Debug, PartialEq, Eq)]
pub enum ServerWsMessage {
    Message(UserId, UserName, String),
    SystemMessage(String),
    SystemEvent(ServerEvent),
}

pub enum ServerWsMessageView {
    Message(Seq<char>, Seq<char>, Seq<char>),
    SystemMessage(Seq<char>),
    SystemEvent(ServerEventView),
}

impl View for ServerWsMessage {
    type V = ServerWsMessageView;

    open spec fn view(&self) -> ServerWsMessageView {
        match self {
            ServerWsMessage::Message(id, name, text) => ServerWsMessageView::Message(
                id@,
                name@,
                text@,
            ),
            ServerWsMessage::SystemMessage(text) => ServerWsMessageView::SystemMessage(text@),
            ServerWsMessage::SystemEvent(event) => ServerWsMessageView::SystemEvent(event@),
        }
    }
}

impl Clone for ServerWsMessage {
    fn clone(&self) -> (r: Self)
        ensures
            r == *self,
    {
        match self {
            ServerWsMessage::Message(id, name, text) => ServerWsMessage::Message(
                id.clone(),
                name.clone(),
                text.clone(),
            ),
            ServerWsMessage::SystemMessage(text) => ServerWsMessage::SystemMessage(text.clone()),
            ServerWsMessage::SystemEvent(event) => ServerWsMessage::SystemEvent(event.clone()),
        }
    }
}

} // verus!

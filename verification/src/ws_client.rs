//! What a message from the server changes in the client.

use crate::client::{Client, ClientView, Location};
use crate::protocol::{ServerEvent, ServerEventView, ServerWsMessage, ServerWsMessageView};
use vstd::prelude::*;
use vstd::string::*;

verus! {

/// How a chat message is shown: the sender's name in square brackets, then the text.
pub open spec fn chat_line(sender: Seq<char>, text: Seq<char>) -> Seq<char> {
    "["@ + sender + "]: "@ + text
}

/// What is shown when the user's standing in the room changes.
pub open spec fn admin_line(is_admin: bool) -> Seq<char> {
    if is_admin {
        "You are now admin of this chat"@
    } else {
        "You are no longer admin of this chat"@
    }
}

/// The line that a message from the server puts on the screen.
pub open spec fn shown(m: ServerWsMessageView) -> Seq<char> {
    match m {
        ServerWsMessageView::Message(_, sender, text) => chat_line(sender, text),
        ServerWsMessageView::SystemMessage(text) => text,
        ServerWsMessageView::SystemEvent(ServerEventView::ChatAccept(_, title)) => "Joined chat "@
            + title,
        ServerWsMessageView::SystemEvent(ServerEventView::ChatCreate(_, title)) => "Created chat "@
            + title,
        ServerWsMessageView::SystemEvent(ServerEventView::SetAdmin(on)) => admin_line(on),
    }
}

/// The client inside the room `id` called `title`, as its owner or not.
pub open spec fn in_chat(c: ClientView, id: Seq<char>, title: Seq<char>, owner: bool) -> ClientView {
    ClientView {
        loc: Location::Chat,
        chat_id: Some(id),
        chat_title: Some(title),
        is_admin: owner,
        ..c
    }
}

/// The client after a message from the server. A chat or system message changes
/// nothing. Being accepted into a room puts the client there as a member, a room of its
/// own as the owner; a change of standing is recorded.
pub open spec fn received(c: ClientView, m: ServerWsMessageView) -> ClientView {
    match m {
        ServerWsMessageView::SystemEvent(ServerEventView::ChatAccept(id, title)) => in_chat(
            c,
            id,
            title,
            false,
        ),
        ServerWsMessageView::SystemEvent(ServerEventView::ChatCreate(id, title)) => in_chat(
            c,
            id,
            title,
            true,
        ),
        ServerWsMessageView::SystemEvent(ServerEventView::SetAdmin(on)) => ClientView {
            is_admin: on,
            ..c
        },
        _ => c,
    }
}

/// Takes in one message from the server and returns the line to show for it.
pub fn receive_ws_message(message: ServerWsMessage, client: &mut Client) -> (line: String)
    ensures
        line@ == shown(message@),
        final(client)@ == received(old(client)@, message@),
        old(client)@.wf() && old(client)@.loc != Location::Home ==> final(client)@.wf(),
{
    match message {
        ServerWsMessage::Message(_sender_id, sender, content) => {
            let mut line = String::from_str("[");
            line.append(sender.as_str());
            line.append("]: ");
            line.append(content.as_str());
            line
        },
        ServerWsMessage::SystemMessage(content) => content,
        ServerWsMessage::SystemEvent(event) => match event {
            ServerEvent::ChatAccept(chat_id, chat_title) => {
                let mut line = String::from_str("Joined chat ");
                line.append(chat_title.as_str());
                client.chat_id = Some(chat_id);
                client.chat_title = Some(chat_title);
                client.is_admin = false;
                client.loc = Location::Chat;
                line
            },
            ServerEvent::ChatCreate(chat_id, chat_title) => {
                let mut line = String::from_str("Created chat ");
                line.append(chat_title.as_str());
                client.chat_id = Some(chat_id);
                client.chat_title = Some(chat_title);
                client.is_admin = true;
                client.loc = Location::Chat;
                line
            },
            ServerEvent::SetAdmin(is_admin) => {
                client.is_admin = is_admin;
                if is_admin {
                    String::from_str("You are now admin of this chat")
                } else {
                    String::from_str("You are no longer admin of this chat")
                }
            },
        },
    }
}

} // verus!

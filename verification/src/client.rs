//! What the terminal client knows of its connection and its room.

use crate::protocol::{ChatId, ChatTitle, ServerUrl, UserId, UserName, Version};
use crate::text::opt_view;
use vstd::prelude::*;
use vstd::string::*;

verus! {

/// Where the user stands: not connected, connected, or inside a room.
#[derive(Debug, Clone, Copy, PartialEq, Eq, Structural)]
pub enum Location {
    Home,
    Lobby,
    Chat,
}

/// How a location is shown to the user.
pub open spec fn location_name(loc: Location) -> Seq<char> {
    match loc {
        Location::Home => "home"@,
        Location::Lobby => "lobby"@,
        Location::Chat => "chat"@,
    }
}

impl Location {
    /// The location's name, in lower case.
    pub fn name(&self) -> (r: String)
        ensures
            r@ == location_name(*self),
    {
        match self {
            Location::Home => String::from_str("home"),
            Location::Lobby => String::from_str("lobby"),
            Location::Chat => String::from_str("chat"),
        }
    }
}

/// The client's state. The stream to the server is not part of it: whoever runs the
/// client holds it.
#[derive(Debug, PartialEq, Eq)]
pub struct Client {
    pub input: String,
    pub loc: Location,
    pub user_id: Option<UserId>,
    pub name: Option<UserName>,
    pub chat_id: Option<ChatId>,
    pub chat_title: Option<ChatTitle>,
    pub is_admin: bool,
    pub server: Option<ServerUrl>,
    pub server_version: Option<Version>,
    pub version: Version,
}

pub struct ClientView {
    pub input: Seq<char>,
    pub loc: Location,
    pub user_id: Option<Seq<char>>,
    pub name: Option<Seq<char>>,
    pub chat_id: Option<Seq<char>>,
    pub chat_title: Option<Seq<char>>,
    pub is_admin: bool,
    pub server: Option<Seq<char>>,
    pub server_version: Option<Seq<char>>,
    pub version: Seq<char>,
}

impl View for Client {
    type V = ClientView;

    open spec fn view(&self) -> ClientView {
        ClientView {
            input: self.input@,
            loc: self.loc,
            user_id: opt_view(self.user_id),
            name: opt_view(self.name),
            chat_id: opt_view(self.chat_id),
            chat_title: opt_view(self.chat_title),
            is_admin: self.is_admin,
            server: opt_view(self.server),
            server_version: opt_view(self.server_version),
            version: self.version@,
        }
    }
}

impl ClientView {
    /// Away from home the server and its version are known, and inside a room its title is.
    pub open spec fn wf(self) -> bool {
        &&& self.loc != Location::Home ==> self.server is Some && self.server_version is Some
        &&& self.loc == Location::Chat ==> self.chat_title is Some
    }

    /// The state of a client that has just started.
    pub open spec fn fresh(version: Seq<char>) -> ClientView {
        ClientView {
            input: Seq::empty(),
            loc: Location::Home,
            user_id: None,
            name: None,
            chat_id: None,
            chat_title: None,
            is_admin: false,
            server: None,
            server_version: None,
            version: version,
        }
    }
}

impl Client {
    /// A client at home, with nothing typed, that reports `version` as its own version.
    pub fn new(version: Version) -> (c: Client)
        ensures
            c@ == ClientView::fresh(version@),
            c@.wf(),
    {
        Client {
            input: String::new(),
            loc: Location::Home,
            user_id: None,
            name: None,
            chat_id: None,
            chat_title: None,
            is_admin: false,
            server: None,
            server_version: None,
            version: version,
        }
    }
}

/// What a key does to the line that the user is typing.
#[derive(Debug, Clone, Copy, PartialEq, Eq, Structural)]
pub enum KeyAction {
    /// End the program.
    Exit,
    /// Take the last character off the line.
    Erase,
    /// The line is complete.
    Submit,
    /// Put the character at the end of the line.
    Insert(char),
    /// Nothing.
    Ignore,
}

/// What the key with the code `c` does: 3 (Ctrl-C) ends the program, 8 erases, 13
/// submits, any other ASCII code is typed, and the rest is ignored.
pub open spec fn key_meaning(c: u8) -> KeyAction {
    if c == 3 {
        KeyAction::Exit
    } else if c == 8 {
        KeyAction::Erase
    } else if c == 13 {
        KeyAction::Submit
    } else if c < 128 {
        KeyAction::Insert(c as char)
    } else {
        KeyAction::Ignore
    }
}

/// What the key with the code `c` does.
pub fn key_action(c: u8) -> (a: KeyAction)
    ensures
        a == key_meaning(c),
{
    if c == 3 {
        KeyAction::Exit
    } else if c == 8 {
        KeyAction::Erase
    } else if c == 13 {
        KeyAction::Submit
    } else if c < 128 {
        KeyAction::Insert(c as char)
    } else {
        KeyAction::Ignore
    }
}

} // verus!

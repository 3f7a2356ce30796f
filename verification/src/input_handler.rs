//! The command language of the terminal client.

use crate::client::{location_name, Client, ClientView, Location};
use crate::protocol::{
    ChatId, ChatTitle, ClientWsMessage, ClientWsMessageView, FilePath, InviteId, ServerUrl,
    UserName,
};
use crate::text::{
    decimal, decimal_string, split_words, starts_with_char, strs, trim, trimmed, words,
};
use vstd::prelude::*;
use vstd::string::*;

verus! {

/// One line of input, understood.
#[derive(Debug, Clone, PartialEq, Eq)]
pub enum Command {
    Help,
    Info,
    Connect(ServerUrl, UserName),
    CreateChat(ChatTitle),
    Join(ChatId, InviteId),
    ListMembers,
    CreateInvite,
    Kick(UserName),
    Quit,
    Upload(FilePath),
    Admin(UserName),
    SendMessage(String),
}

pub enum CommandView {
    Help,
    Info,
    Connect(Seq<char>, Seq<char>),
    CreateChat(Seq<char>),
    Join(Seq<char>, Seq<char>),
    ListMembers,
    CreateInvite,
    Kick(Seq<char>),
    Quit,
    Upload(Seq<char>),
    Admin(Seq<char>),
    SendMessage(Seq<char>),
}

impl View for Command {
    type V = CommandView;

    open spec fn view(&self) -> CommandView {
        match self {
            Command::Help => CommandView::Help,
            Command::Info => CommandView::Info,
            Command::Connect(url, name) => CommandView::Connect(url@, name@),
            Command::CreateChat(title) => CommandView::CreateChat(title@),
            Command::Join(chat, invite) => CommandView::Join(chat@, invite@),
            Command::ListMembers => CommandView::ListMembers,
            Command::CreateInvite => CommandView::CreateInvite,
            Command::Kick(name) => CommandView::Kick(name@),
            Command::Quit => CommandView::Quit,
            Command::Upload(path) => CommandView::Upload(path@),
            Command::Admin(name) => CommandView::Admin(name@),
            Command::SendMessage(text) => CommandView::SendMessage(text@),
        }
    }
}

/// How a command is written: `message` for a chat message, else a slash and the command's letter.
pub open spec fn ident_of(c: CommandView) -> Seq<char> {
    match c {
        CommandView::Help => "/?"@,
        CommandView::Info => "/i"@,
        CommandView::Connect(_, _) => "/c"@,
        CommandView::CreateChat(_) => "/p"@,
        CommandView::Join(_, _) => "/j"@,
        CommandView::ListMembers => "/l"@,
        CommandView::CreateInvite => "/n"@,
        CommandView::Kick(_) => "/k"@,
        CommandView::Quit => "/q"@,
        CommandView::Upload(_) => "/f"@,
        CommandView::Admin(_) => "/y"@,
        CommandView::SendMessage(_) => "message"@,
    }
}

impl Command {
    /// The name under which the command is reported to the user.
    pub fn cmd_ident(&self) -> (r: String)
        ensures
            r@ == ident_of(self@),
    {
        match self {
            Command::Help => String::from_str("/?"),
            Command::Info => String::from_str("/i"),
            Command::Connect(_, _) => String::from_str("/c"),
            Command::CreateChat(_) => String::from_str("/p"),
            Command::Join(_, _) => String::from_str("/j"),
            Command::ListMembers => String::from_str("/l"),
            Command::CreateInvite => String::from_str("/n"),
            Command::Kick(_) => String::from_str("/k"),
            Command::Quit => String::from_str("/q"),
            Command::Upload(_) => String::from_str("/f"),
            Command::Admin(_) => String::from_str("/y"),
            Command::SendMessage(_) => String::from_str("message"),
        }
    }
}

/// The complaint about a line that is no command.
pub open spec fn invalid_command(line: Seq<char>) -> Seq<char> {
    "Invalid command '"@ + line + "'. Type '/?' for help"@
}

/// The complaint about a command that got `found` arguments where it takes `want`.
pub open spec fn wrong_arity(letter: Seq<char>, want: nat, found: nat) -> Seq<char> {
    "Command /"@ + letter + " expects "@ + decimal(want) + " args, found "@ + decimal(found)
}

/// The command that the letter `letter` and the arguments `args` make, where `line` is
/// the whole line.
pub open spec fn command_of(letter: char, args: Seq<Seq<char>>, line: Seq<char>) -> Result<
    CommandView,
    Seq<char>,
> {
    if letter == '?' {
        Ok(CommandView::Help)
    } else if letter == 'i' {
        Ok(CommandView::Info)
    } else if letter == 'l' {
        Ok(CommandView::ListMembers)
    } else if letter == 'q' {
        Ok(CommandView::Quit)
    } else if letter == 'c' {
        if args.len() == 2 {
            Ok(CommandView::Connect(args[0], args[1]))
        } else {
            Err(wrong_arity("c"@, 2, args.len()))
        }
    } else if letter == 'p' {
        if args.len() == 1 {
            Ok(CommandView::CreateChat(args[0]))
        } else {
            Err(wrong_arity("p"@, 1, args.len()))
        }
    } else if letter == 'j' {
        if args.len() == 2 {
            Ok(CommandView::Join(args[0], args[1]))
        } else {
            Err(wrong_arity("j"@, 2, args.len()))
        }
    } else if letter == 'k' {
        if args.len() == 1 {
            Ok(CommandView::Kick(args[0]))
        } else {
            Err(wrong_arity("k"@, 1, args.len()))
        }
    } else if letter == 'f' {
        if args.len() == 1 {
            Ok(CommandView::Upload(args[0]))
        } else {
            Err(wrong_arity("f"@, 1, args.len()))
        }
    } else if letter == 'y' {
        if args.len() == 1 {
            Ok(CommandView::Admin(args[0]))
        } else {
            Err(wrong_arity("y"@, 1, args.len()))
        }
    } else if letter == 'n' {
        if args.len() == 0 {
            Ok(CommandView::CreateInvite)
        } else {
            Err(wrong_arity("n"@, 0, args.len()))
        }
    } else {
        Err(invalid_command(line))
    }
}

/// What a line of input means. A line that does not begin with a slash is a chat message.
/// Otherwise its first word is a slash and one letter, and the words after it are the
/// arguments.
pub open spec fn parse(line: Seq<char>) -> Result<CommandView, Seq<char>> {
    if !(line.len() > 0 && line[0] == '/') {
        Ok(CommandView::SendMessage(line))
    } else if words(line)[0].len() > 2 || line.len() < 2 {
        Err(invalid_command(line))
    } else {
        command_of(line[1], words(line).skip(1), line)
    }
}

/// The view of a parse result.
pub open spec fn parsed_view(r: Result<Command, String>) -> Result<CommandView, Seq<char>> {
    match r {
        Ok(c) => Ok(c@),
        Err(e) => Err(e@),
    }
}

fn invalid_command_text(line: &str) -> (r: String)
    ensures
        r@ == invalid_command(line@),
{
    let mut r = String::from_str("Invalid command '");
    r.append(line);
    r.append("'. Type '/?' for help");
    r
}

fn wrong_arity_text(letter: &str, want: usize, found: usize) -> (r: String)
    ensures
        r@ == wrong_arity(letter@, want as nat, found as nat),
{
    let mut r = String::from_str("Command /");
    r.append(letter);
    r.append(" expects ");
    r.append(decimal_string(want).as_str());
    r.append(" args, found ");
    r.append(decimal_string(found).as_str());
    r
}

/// A line that begins with a non-blank character has a first word.
proof fn lemma_first_word(s: Seq<char>)
    requires
        s.len() > 0,
        s[0] != ' ',
    ensures
        words(s).len() >= 1,
    decreases s.len(),
{
    if s.len() > 1 {
        let p = s.drop_last();
        lemma_first_word(p);
    }
}

/// Reads one line of input as a command.
pub fn parse_command(command: String) -> (r: Result<Command, String>)
    ensures
        parsed_view(r) == parse(command@),
{
    if !starts_with_char(command.as_str(), '/') {
        return Ok(Command::SendMessage(command));
    }
    let args = split_words(command.as_str());
    proof {
        lemma_first_word(command@);
        assert(strs(args@).len() == args@.len());
        assert(strs(args@)[0] == args@[0]@);
    }
    if args[0].as_str().unicode_len() > 2 || command.as_str().unicode_len() < 2 {
        return Err(invalid_command_text(command.as_str()));
    }
    let letter = command.as_str().get_char(1);
    let n: usize = args.len() - 1;
    let ghost rest = words(command@).skip(1);
    proof {
        assert(rest.len() == n);
        assert(n >= 1 ==> rest[0] == args@[1]@) by {
            if n >= 1 {
                assert(strs(args@)[1] == args@[1]@);
            }
        }
        assert(n >= 2 ==> rest[1] == args@[2]@) by {
            if n >= 2 {
                assert(strs(args@)[2] == args@[2]@);
            }
        }
    }
    if letter == '?' {
        Ok(Command::Help)
    } else if letter == 'i' {
        Ok(Command::Info)
    } else if letter == 'l' {
        Ok(Command::ListMembers)
    } else if letter == 'q' {
        Ok(Command::Quit)
    } else if letter == 'c' {
        if n == 2 {
            Ok(Command::Connect(args[1].clone(), args[2].clone()))
        } else {
            Err(wrong_arity_text("c", 2, n))
        }
    } else if letter == 'p' {
        if n == 1 {
            Ok(Command::CreateChat(args[1].clone()))
        } else {
            Err(wrong_arity_text("p", 1, n))
        }
    } else if letter == 'j' {
        if n == 2 {
            Ok(Command::Join(args[1].clone(), args[2].clone()))
        } else {
            Err(wrong_arity_text("j", 2, n))
        }
    } else if letter == 'k' {
        if n == 1 {
            Ok(Command::Kick(args[1].clone()))
        } else {
            Err(wrong_arity_text("k", 1, n))
        }
    } else if letter == 'f' {
        if n == 1 {
            Ok(Command::Upload(args[1].clone()))
        } else {
            Err(wrong_arity_text("f", 1, n))
        }
    } else if letter == 'y' {
        if n == 1 {
            Ok(Command::Admin(args[1].clone()))
        } else {
            Err(wrong_arity_text("y", 1, n))
        }
    } else if letter == 'n' {
        if n == 0 {
            Ok(Command::CreateInvite)
        } else {
            Err(wrong_arity_text("n", 0, n))
        }
    } else {
        Err(invalid_command_text(command.as_str()))
    }
}

/// What the program that runs the client is to do next.
#[derive(Debug, PartialEq, Eq)]
pub enum Effect {
    /// Show a line to the user.
    Write(String),
    /// Show the list of commands.
    Help,
    /// End the program.
    Exit,
    /// Ask the server at the address for a session under the name.
    Connect(ServerUrl, UserName),
    /// Ask the server to end the session.
    Disconnect,
    /// Send the message over the stream.
    Send(ClientWsMessage),
    /// Open the stream to the server.
    OpenSocket,
    /// Close the stream and wait for it.
    CloseSocket,
}

pub enum EffectView {
    Write(Seq<char>),
    Help,
    Exit,
    Connect(Seq<char>, Seq<char>),
    Disconnect,
    Send(ClientWsMessageView),
    OpenSocket,
    CloseSocket,
}

impl View for Effect {
    type V = EffectView;

    open spec fn view(&self) -> EffectView {
        match self {
            Effect::Write(line) => EffectView::Write(line@),
            Effect::Help => EffectView::Help,
            Effect::Exit => EffectView::Exit,
            Effect::Connect(url, name) => EffectView::Connect(url@, name@),
            Effect::Disconnect => EffectView::Disconnect,
            Effect::Send(m) => EffectView::Send(m@),
            Effect::OpenSocket => EffectView::OpenSocket,
            Effect::CloseSocket => EffectView::CloseSocket,
        }
    }
}

/// The views of the effects of `v`, in order.
pub open spec fn effs(v: Seq<Effect>) -> Seq<EffectView> {
    Seq::new(v.len(), |i: int| v[i]@)
}

pub(crate) fn one_effect(e: Effect) -> (v: Vec<Effect>)
    ensures
        effs(v@) == seq![e@],
{
    let mut v: Vec<Effect> = Vec::new();
    v.push(e);
    assert(effs(v@) =~= seq![e@]);
    v
}

/// How a flag is shown to the user.
pub open spec fn bool_text(b: bool) -> Seq<char> {
    if b {
        "true"@
    } else {
        "false"@
    }
}

/// What `/i` shows: the client's version and the location, then, as far as known, the
/// server, its version, the room and the user's standing in it.
pub open spec fn info_text(c: ClientView) -> Seq<char> {
    match c.loc {
        Location::Home => "client-version: "@ + c.version + "\n"@ + "location: "@ + location_name(
            c.loc,
        ) + "\n"@ + "\nConnect to a server with '/c <url> <name>'"@,
        Location::Lobby => "client-version: "@ + c.version + "\n"@ + "location: "@
            + location_name(c.loc) + "\n"@ + "server: "@ + c.server.unwrap() + "\n"@
            + "server-version: "@ + c.server_version.unwrap() + "\n"@
            + "\nJoin a chat with '/j <chat_id> <invite>'\nor create a new one with '/p <title>'"@,
        Location::Chat => "client-version: "@ + c.version + "\n"@ + "location: "@ + location_name(
            c.loc,
        ) + "\n"@ + "server: "@ + c.server.unwrap() + "\n"@ + "server-version: "@
            + c.server_version.unwrap() + "\n"@ + "chat: "@ + c.chat_title.unwrap() + "\n"@
            + "is-admin: "@ + bool_text(c.is_admin),
    }
}

/// The complaint about a command that cannot be used where the user stands.
pub open spec fn unavailable(ident: Seq<char>) -> Seq<char> {
    "'"@ + ident + "' is not available in this context"@
}

/// What is shown when the user leaves the room called `title`.
pub open spec fn left_chat_text(title: Seq<char>) -> Seq<char> {
    "Disconnected from chat "@ + title
}

/// The client after leaving its room for the lobby.
pub open spec fn in_lobby(c: ClientView) -> ClientView {
    ClientView { loc: Location::Lobby, chat_id: None, chat_title: None, ..c }
}

/// What the command `cmd` changes and causes for a client in state `c`. Help is shown
/// anywhere. Each other command is available at some locations only: at home `/i`,
/// `/q` (ends the program) and `/c`; in the lobby `/i`, `/q` (ends the session), `/p`
/// and `/j`; in a room `/i`, `/q` (leaves the room), `/n`, `/l` and chat messages.
pub open spec fn react(c: ClientView, cmd: CommandView) -> (ClientView, Seq<EffectView>) {
    if cmd is Help {
        (c, seq![EffectView::Help])
    } else if cmd is Info {
        (c, seq![EffectView::Write(info_text(c))])
    } else {
        match c.loc {
            Location::Home => match cmd {
                CommandView::Quit => (c, seq![EffectView::Exit]),
                CommandView::Connect(url, name) => (c, seq![EffectView::Connect(url, name)]),
                other => (c, seq![EffectView::Write(unavailable(ident_of(other)))]),
            },
            Location::Lobby => match cmd {
                CommandView::Quit => (c, seq![EffectView::Disconnect]),
                CommandView::CreateChat(title) => (
                    c,
                    seq![EffectView::Send(ClientWsMessageView::ChatCreate(title))],
                ),
                CommandView::Join(chat, invite) => (
                    c,
                    seq![EffectView::Send(ClientWsMessageView::ChatJoin(chat, invite))],
                ),
                other => (c, seq![EffectView::Write(unavailable(ident_of(other)))]),
            },
            Location::Chat => match cmd {
                CommandView::Quit => (
                    in_lobby(c),
                    seq![
                        EffectView::Send(ClientWsMessageView::ChatLeave),
                        EffectView::Write(left_chat_text(c.chat_title.unwrap())),
                    ],
                ),
                CommandView::SendMessage(text) => (
                    c,
                    seq![EffectView::Send(ClientWsMessageView::Message(text))],
                ),
                CommandView::CreateInvite => (
                    c,
                    seq![EffectView::Send(ClientWsMessageView::ChatCreateInvite)],
                ),
                CommandView::ListMembers => (
                    c,
                    seq![EffectView::Send(ClientWsMessageView::ChatListMembers)],
                ),
                other => (c, seq![EffectView::Write(unavailable(ident_of(other)))]),
            },
        }
    }
}

/// Whether the client holds what carrying out `cmd` reads. `/i` shows the server and
/// its version away from home, and the room's title inside a room; `/q` inside a room
/// shows the room's title. The other commands read nothing that can be absent.
pub open spec fn ready_for(c: ClientView, cmd: CommandView) -> bool {
    match cmd {
        CommandView::Info => {
            &&& c.loc != Location::Home ==> c.server is Some && c.server_version is Some
            &&& c.loc == Location::Chat ==> c.chat_title is Some
        },
        CommandView::Quit => c.loc == Location::Chat ==> c.chat_title is Some,
        _ => true,
    }
}

/// Whether the client holds what carrying out the typed line reads.
pub open spec fn ready(c: ClientView) -> bool {
    parse(trimmed(c.input)) matches Ok(cmd) ==> ready_for(c, cmd)
}

impl Client {
    /// Whether the client holds what carrying out `cmd` reads.
    pub fn is_ready_for(&self, cmd: &Command) -> (b: bool)
        ensures
            b == ready_for(self@, cmd@),
            self@.wf() ==> b,
    {
        let away = match self.loc {
            Location::Home => false,
            _ => true,
        };
        let inside = match self.loc {
            Location::Chat => true,
            _ => false,
        };
        match cmd {
            Command::Info => (!away || (self.server.is_some() && self.server_version.is_some()))
                && (!inside || self.chat_title.is_some()),
            Command::Quit => !inside || self.chat_title.is_some(),
            _ => true,
        }
    }

    /// Whether the client holds what carrying out the typed line reads.
    pub fn is_ready(&self) -> (b: bool)
        ensures
            b == ready(self@),
            self@.wf() ==> b,
    {
        match parse_command(trim(self.input.as_str())) {
            Ok(cmd) => self.is_ready_for(&cmd),
            Err(_) => true,
        }
    }
}

fn bool_string(b: bool) -> (r: &'static str)
    ensures
        r@ == bool_text(b),
{
    if b {
        "true"
    } else {
        "false"
    }
}

fn info_string(client: &Client) -> (r: String)
    requires
        ready_for(client@, CommandView::Info),
    ensures
        r@ == info_text(client@),
{
    let mut r = String::from_str("client-version: ");
    r.append(client.version.as_str());
    r.append("\n");
    r.append("location: ");
    r.append(client.loc.name().as_str());
    r.append("\n");
    match client.loc {
        Location::Home => {
            r.append("\nConnect to a server with '/c <url> <name>'");
        },
        Location::Lobby => {
            r.append("server: ");
            r.append(client.server.as_ref().unwrap().as_str());
            r.append("\n");
            r.append("server-version: ");
            r.append(client.server_version.as_ref().unwrap().as_str());
            r.append("\n");
            r.append(
                "\nJoin a chat with '/j <chat_id> <invite>'\nor create a new one with '/p <title>'",
            );
        },
        Location::Chat => {
            r.append("server: ");
            r.append(client.server.as_ref().unwrap().as_str());
            r.append("\n");
            r.append("server-version: ");
            r.append(client.server_version.as_ref().unwrap().as_str());
            r.append("\n");
            r.append("chat: ");
            r.append(client.chat_title.as_ref().unwrap().as_str());
            r.append("\n");
            r.append("is-admin: ");
            r.append(bool_string(client.is_admin));
        },
    }
    r
}

fn unavailable_effect(cmd: &Command) -> (v: Vec<Effect>)
    ensures
        effs(v@) == seq![EffectView::Write(unavailable(ident_of(cmd@)))],
{
    let mut r = String::from_str("'");
    r.append(cmd.cmd_ident().as_str());
    r.append("' is not available in this context");
    one_effect(Effect::Write(r))
}

/// Carries out one command: changes the client's state and says what is to be done.
pub fn run_command(client: &mut Client, cmd: Command) -> (effects: Vec<Effect>)
    requires
        ready_for(old(client)@, cmd@),
    ensures
        final(client)@ == react(old(client)@, cmd@).0,
        effs(effects@) == react(old(client)@, cmd@).1,
        old(client)@.wf() ==> final(client)@.wf(),
{
    match cmd {
        Command::Help => one_effect(Effect::Help),
        Command::Info => one_effect(Effect::Write(info_string(client))),
        cmd => match client.loc {
            Location::Home => match cmd {
                Command::Quit => one_effect(Effect::Exit),
                Command::Connect(url, name) => one_effect(Effect::Connect(url, name)),
                other => unavailable_effect(&other),
            },
            Location::Lobby => match cmd {
                Command::Quit => one_effect(Effect::Disconnect),
                Command::CreateChat(title) => one_effect(
                    Effect::Send(ClientWsMessage::ChatCreate(title)),
                ),
                Command::Join(chat, invite) => one_effect(
                    Effect::Send(ClientWsMessage::ChatJoin(chat, invite)),
                ),
                other => unavailable_effect(&other),
            },
            Location::Chat => match cmd {
                Command::Quit => {
                    let mut line = String::from_str("Disconnected from chat ");
                    line.append(client.chat_title.as_ref().unwrap().as_str());
                    let mut v: Vec<Effect> = Vec::new();
                    v.push(Effect::Send(ClientWsMessage::ChatLeave));
                    v.push(Effect::Write(line));
                    client.loc = Location::Lobby;
                    client.chat_id = None;
                    client.chat_title = None;
                    proof {
                        assert(effs(v@) =~= seq![
                            EffectView::Send(ClientWsMessageView::ChatLeave),
                            EffectView::Write(left_chat_text(old(client)@.chat_title.unwrap())),
                        ]);
                    }
                    v
                },
                Command::SendMessage(text) => one_effect(
                    Effect::Send(ClientWsMessage::Message(text)),
                ),
                Command::CreateInvite => one_effect(
                    Effect::Send(ClientWsMessage::ChatCreateInvite),
                ),
                Command::ListMembers => one_effect(
                    Effect::Send(ClientWsMessage::ChatListMembers),
                ),
                other => unavailable_effect(&other),
            },
        },
    }
}

/// The client with nothing typed.
pub open spec fn cleared(c: ClientView) -> ClientView {
    ClientView { input: Seq::empty(), ..c }
}

/// What the typed line changes and causes. The line is taken from the client and
/// trimmed; an empty one does nothing. A line that begins with a slash is shown back to
/// the user first. Then the line is carried out as a command, or the reason why it is
/// none is shown.
pub open spec fn handle(c: ClientView) -> (ClientView, Seq<EffectView>) {
    let line = trimmed(c.input);
    if line.len() == 0 {
        (cleared(c), Seq::empty())
    } else {
        let echo = if line[0] == '/' {
            seq![EffectView::Write(line)]
        } else {
            Seq::empty()
        };
        match parse(line) {
            Ok(cmd) => (react(cleared(c), cmd).0, echo + react(cleared(c), cmd).1),
            Err(e) => (cleared(c), echo.push(EffectView::Write(e))),
        }
    }
}

/// Takes the line that the user has typed and carries it out.
pub fn handle_input(client: &mut Client) -> (effects: Vec<Effect>)
    requires
        ready(old(client)@),
    ensures
        final(client)@ == handle(old(client)@).0,
        effs(effects@) == handle(old(client)@).1,
        old(client)@.wf() ==> final(client)@.wf(),
{
    let line = trim(client.input.as_str());
    client.input = String::new();
    if line.as_str().unicode_len() == 0 {
        let v: Vec<Effect> = Vec::new();
        assert(effs(v@) =~= Seq::<EffectView>::empty());
        return v;
    }
    let mut effects: Vec<Effect> = Vec::new();
    if starts_with_char(line.as_str(), '/') {
        effects.push(Effect::Write(line.clone()));
    }
    let ghost echo = effs(effects@);
    proof {
        assert(echo =~= if line@[0] == '/' {
            seq![EffectView::Write(line@)]
        } else {
            Seq::<EffectView>::empty()
        });
    }
    match parse_command(line) {
        Ok(cmd) => {
            let mut more = run_command(client, cmd);
            let ghost tail = effs(more@);
            let ghost head = effects@;
            let ghost rest = more@;
            effects.append(&mut more);
            proof {
                assert(effects@ =~= head + rest);
                assert(effs(effects@) =~= echo + tail);
            }
        },
        Err(e) => {
            effects.push(Effect::Write(e));
            proof {
                assert(effs(effects@) =~= echo.push(EffectView::Write(e@)));
            }
        },
    }
    effects
}

} // verus!

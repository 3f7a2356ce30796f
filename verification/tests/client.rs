use clc::client::{key_action, Client, KeyAction, Location};
use clc::input_handler::{handle_input, run_command, Command, Effect};
use clc::protocol::{
    ClientWsMessage, Response, ServerConnectResponse, ServerDisconnectResponse, ServerEvent,
    ServerWsMessage,
};
use clc::web_client::{register_url, socket_url};
use clc::ws_client::receive_ws_message;

fn text(s: &str) -> String {
    s.to_string()
}

fn at_home() -> Client {
    Client::new(text("0.1.0"))
}

fn in_lobby() -> Client {
    let mut c = at_home();
    c.connect_server(
        text("localhost:10000"),
        text("alice"),
        Ok(Response::Accept(ServerConnectResponse(text("id-a"), text("9.9.9")))),
    );
    c
}

fn in_chat(admin: bool) -> Client {
    let mut c = in_lobby();
    let event = if admin {
        ServerEvent::ChatCreate(text("room-1"), text("general"))
    } else {
        ServerEvent::ChatAccept(text("room-1"), text("general"))
    };
    receive_ws_message(ServerWsMessage::SystemEvent(event), &mut c);
    c
}

fn typed(c: &mut Client, line: &str) -> Vec<Effect> {
    c.input = text(line);
    handle_input(c)
}

#[test]
fn a_new_client_is_at_home() {
    let c = at_home();
    assert_eq!(c.loc, Location::Home);
    assert_eq!(c.input, "");
    assert_eq!(c.user_id, None);
    assert_eq!(c.name, None);
    assert_eq!(c.chat_id, None);
    assert_eq!(c.chat_title, None);
    assert!(!c.is_admin);
    assert_eq!(c.server, None);
    assert_eq!(c.server_version, None);
    assert_eq!(c.version, "0.1.0");
}

#[test]
fn location_names() {
    assert_eq!(Location::Home.name(), "home");
    assert_eq!(Location::Lobby.name(), "lobby");
    assert_eq!(Location::Chat.name(), "chat");
}

#[test]
fn an_empty_line_does_nothing_but_clear_the_input() {
    let mut c = at_home();
    assert_eq!(typed(&mut c, "   \t "), vec![]);
    assert_eq!(c.input, "");
    assert_eq!(typed(&mut c, ""), vec![]);
    assert_eq!(c, at_home());
}

#[test]
fn a_command_is_shown_back_before_it_is_carried_out() {
    let mut c = at_home();
    assert_eq!(typed(&mut c, "  /?  "), vec![Effect::Write(text("/?")), Effect::Help]);
    assert_eq!(c.input, "");
}

#[test]
fn a_message_is_not_shown_back() {
    let mut c = in_chat(false);
    assert_eq!(
        typed(&mut c, " hi all "),
        vec![Effect::Send(ClientWsMessage::Message(text("hi all")))]
    );
}

#[test]
fn a_line_that_is_no_command_is_answered_with_the_reason() {
    let mut c = at_home();
    assert_eq!(
        typed(&mut c, "/zz"),
        vec![
            Effect::Write(text("/zz")),
            Effect::Write(text("Invalid command '/zz'. Type '/?' for help")),
        ]
    );
    assert_eq!(
        typed(&mut c, "/c onlyhost"),
        vec![
            Effect::Write(text("/c onlyhost")),
            Effect::Write(text("Command /c expects 2 args, found 1")),
        ]
    );
}

#[test]
fn info_at_home() {
    let mut c = at_home();
    assert_eq!(
        run_command(&mut c, Command::Info),
        vec![Effect::Write(text(
            "client-version: 0.1.0\nlocation: home\n\nConnect to a server with '/c <url> <name>'"
        ))]
    );
}

#[test]
fn info_in_the_lobby() {
    let mut c = in_lobby();
    assert_eq!(
        run_command(&mut c, Command::Info),
        vec![Effect::Write(text(
            "client-version: 0.1.0\nlocation: lobby\nserver: localhost:10000\nserver-version: 9.9.9\n\nJoin a chat with '/j <chat_id> <invite>'\nor create a new one with '/p <title>'"
        ))]
    );
}

#[test]
fn info_in_a_chat() {
    let mut c = in_chat(true);
    assert_eq!(
        run_command(&mut c, Command::Info),
        vec![Effect::Write(text(
            "client-version: 0.1.0\nlocation: chat\nserver: localhost:10000\nserver-version: 9.9.9\nchat: general\nis-admin: true"
        ))]
    );
    let mut d = in_chat(false);
    assert_eq!(
        run_command(&mut d, Command::Info),
        vec![Effect::Write(text(
            "client-version: 0.1.0\nlocation: chat\nserver: localhost:10000\nserver-version: 9.9.9\nchat: general\nis-admin: false"
        ))]
    );
}

#[test]
fn commands_at_home() {
    let mut c = at_home();
    assert_eq!(run_command(&mut c, Command::Quit), vec![Effect::Exit]);
    assert_eq!(
        run_command(&mut c, Command::Connect(text("host"), text("bob"))),
        vec![Effect::Connect(text("host"), text("bob"))]
    );
    assert_eq!(
        run_command(&mut c, Command::CreateChat(text("general"))),
        vec![Effect::Write(text("'/p' is not available in this context"))]
    );
    assert_eq!(
        run_command(&mut c, Command::SendMessage(text("hi"))),
        vec![Effect::Write(text("'message' is not available in this context"))]
    );
    assert_eq!(run_command(&mut c, Command::Help), vec![Effect::Help]);
    assert_eq!(c, at_home());
}

#[test]
fn commands_in_the_lobby() {
    let mut c = in_lobby();
    assert_eq!(run_command(&mut c, Command::Quit), vec![Effect::Disconnect]);
    assert_eq!(
        run_command(&mut c, Command::CreateChat(text("general"))),
        vec![Effect::Send(ClientWsMessage::ChatCreate(text("general")))]
    );
    assert_eq!(
        run_command(&mut c, Command::Join(text("general"), text("tok"))),
        vec![Effect::Send(ClientWsMessage::ChatJoin(text("general"), text("tok")))]
    );
    assert_eq!(
        run_command(&mut c, Command::Connect(text("h"), text("n"))),
        vec![Effect::Write(text("'/c' is not available in this context"))]
    );
    assert_eq!(
        run_command(&mut c, Command::ListMembers),
        vec![Effect::Write(text("'/l' is not available in this context"))]
    );
    assert_eq!(
        run_command(&mut c, Command::SendMessage(text("hi"))),
        vec![Effect::Write(text("'message' is not available in this context"))]
    );
    assert_eq!(c, in_lobby());
}

#[test]
fn commands_in_a_chat() {
    let mut c = in_chat(true);
    assert_eq!(
        run_command(&mut c, Command::SendMessage(text("hi"))),
        vec![Effect::Send(ClientWsMessage::Message(text("hi")))]
    );
    assert_eq!(
        run_command(&mut c, Command::CreateInvite),
        vec![Effect::Send(ClientWsMessage::ChatCreateInvite)]
    );
    assert_eq!(
        run_command(&mut c, Command::ListMembers),
        vec![Effect::Send(ClientWsMessage::ChatListMembers)]
    );
    assert_eq!(
        run_command(&mut c, Command::Kick(text("bob"))),
        vec![Effect::Write(text("'/k' is not available in this context"))]
    );
    assert_eq!(
        run_command(&mut c, Command::Upload(text("f"))),
        vec![Effect::Write(text("'/f' is not available in this context"))]
    );
    assert_eq!(
        run_command(&mut c, Command::Admin(text("bob"))),
        vec![Effect::Write(text("'/y' is not available in this context"))]
    );
    assert_eq!(
        run_command(&mut c, Command::CreateChat(text("two"))),
        vec![Effect::Write(text("'/p' is not available in this context"))]
    );
    assert_eq!(c, in_chat(true));
}

#[test]
fn quit_in_a_chat_leaves_for_the_lobby() {
    let mut c = in_chat(true);
    assert_eq!(
        typed(&mut c, "/q"),
        vec![
            Effect::Write(text("/q")),
            Effect::Send(ClientWsMessage::ChatLeave),
            Effect::Write(text("Disconnected from chat general")),
        ]
    );
    assert_eq!(c.loc, Location::Lobby);
    assert_eq!(c.chat_id, None);
    assert_eq!(c.chat_title, None);
    assert_eq!(c.server, Some(text("localhost:10000")));
}

#[test]
fn a_granted_session_puts_the_client_into_the_lobby() {
    let mut c = at_home();
    let effects = c.connect_server(
        text("localhost:10000"),
        text("alice"),
        Ok(Response::Accept(ServerConnectResponse(text("id-a"), text("9.9.9")))),
    );
    assert_eq!(
        effects,
        vec![
            Effect::Write(text("Connected to server localhost:10000 as alice")),
            Effect::OpenSocket,
        ]
    );
    assert_eq!(c.loc, Location::Lobby);
    assert_eq!(c.server, Some(text("localhost:10000")));
    assert_eq!(c.name, Some(text("alice")));
    assert_eq!(c.user_id, Some(text("id-a")));
    assert_eq!(c.server_version, Some(text("9.9.9")));
}

#[test]
fn a_refused_session_changes_nothing() {
    let mut c = at_home();
    let effects = c.connect_server(
        text("host"),
        text("al"),
        Ok(Response::Fail(text("name should be between 3 and 16 characters long, found 2"))),
    );
    assert_eq!(
        effects,
        vec![Effect::Write(text(
            "Error: name should be between 3 and 16 characters long, found 2"
        ))]
    );
    assert_eq!(c, at_home());
}

#[test]
fn a_request_that_got_no_answer_changes_nothing() {
    let mut c = at_home();
    let effects = c.connect_server(text("host"), text("alice"), Err(text("refused")));
    assert_eq!(
        effects,
        vec![Effect::Write(text("Unable to connect to server host as alice: refused"))]
    );
    assert_eq!(c, at_home());
    let mut d = in_lobby();
    let effects = d.disconnect_server(Err(text("timed out")));
    assert_eq!(
        effects,
        vec![Effect::Write(text(
            "Unable to disconnect from server localhost:10000: timed out"
        ))]
    );
    assert_eq!(d, in_lobby());
}

#[test]
fn an_ended_session_puts_the_client_back_home() {
    let mut c = in_chat(false);
    let effects = c.disconnect_server(Ok(Response::Accept(ServerDisconnectResponse())));
    assert_eq!(
        effects,
        vec![
            Effect::CloseSocket,
            Effect::Write(text("Disconnected from server localhost:10000")),
        ]
    );
    assert_eq!(c.loc, Location::Home);
    assert_eq!(c.server, None);
    assert_eq!(c.user_id, None);
    assert_eq!(c.name, None);
    assert_eq!(c.chat_id, None);
}

#[test]
fn a_refused_end_of_session_changes_nothing() {
    let mut c = in_lobby();
    let effects = c.disconnect_server(Ok(Response::Fail(text("Invalid user id"))));
    assert_eq!(effects, vec![Effect::Write(text("Error: Invalid user id"))]);
    assert_eq!(c, in_lobby());
}

#[test]
fn chat_and_system_messages_are_shown() {
    let mut c = in_chat(false);
    let line = receive_ws_message(
        ServerWsMessage::Message(text("id-b"), text("bob"), text("hi")),
        &mut c,
    );
    assert_eq!(line, "[bob]: hi");
    let line = receive_ws_message(ServerWsMessage::SystemMessage(text("bob left chat")), &mut c);
    assert_eq!(line, "bob left chat");
    assert_eq!(c, in_chat(false));
}

#[test]
fn being_accepted_puts_the_client_into_the_chat() {
    let mut c = in_lobby();
    let line = receive_ws_message(
        ServerWsMessage::SystemEvent(ServerEvent::ChatAccept(text("room-1"), text("general"))),
        &mut c,
    );
    assert_eq!(line, "Joined chat general");
    assert_eq!(c.loc, Location::Chat);
    assert_eq!(c.chat_id, Some(text("room-1")));
    assert_eq!(c.chat_title, Some(text("general")));
    assert!(!c.is_admin);
}

#[test]
fn a_created_chat_makes_the_client_its_admin() {
    let mut c = in_lobby();
    let line = receive_ws_message(
        ServerWsMessage::SystemEvent(ServerEvent::ChatCreate(text("room-1"), text("general"))),
        &mut c,
    );
    assert_eq!(line, "Created chat general");
    assert_eq!(c.loc, Location::Chat);
    assert_eq!(c.chat_id, Some(text("room-1")));
    assert_eq!(c.chat_title, Some(text("general")));
    assert!(c.is_admin);
}

#[test]
fn set_admin_is_recorded() {
    let mut c = in_chat(false);
    let line =
        receive_ws_message(ServerWsMessage::SystemEvent(ServerEvent::SetAdmin(true)), &mut c);
    assert_eq!(line, "You are now admin of this chat");
    assert!(c.is_admin);
    let line =
        receive_ws_message(ServerWsMessage::SystemEvent(ServerEvent::SetAdmin(false)), &mut c);
    assert_eq!(line, "You are no longer admin of this chat");
    assert!(!c.is_admin);
}

#[test]
fn addresses() {
    assert_eq!(register_url("localhost:10000"), "http://localhost:10000/api/register");
    assert_eq!(socket_url("localhost:10000", "abc"), "wss://localhost:10000/ws/abc");
}

#[test]
fn keys() {
    assert_eq!(key_action(3), KeyAction::Exit);
    assert_eq!(key_action(8), KeyAction::Erase);
    assert_eq!(key_action(13), KeyAction::Submit);
    assert_eq!(key_action(b'a'), KeyAction::Insert('a'));
    assert_eq!(key_action(b' '), KeyAction::Insert(' '));
    assert_eq!(key_action(0), KeyAction::Insert('\0'));
    assert_eq!(key_action(127), KeyAction::Insert('\u{7f}'));
    assert_eq!(key_action(128), KeyAction::Ignore);
    assert_eq!(key_action(255), KeyAction::Ignore);
}

#[test]
fn a_client_that_lacks_what_a_command_reads_is_not_ready_for_it() {
    let mut c = at_home();
    c.loc = Location::Lobby;
    assert!(!c.is_ready_for(&Command::Info));
    assert!(c.is_ready_for(&Command::Quit));
    assert!(c.is_ready_for(&Command::CreateChat(text("general"))));
    c.input = text(" /i ");
    assert!(!c.is_ready());
    c.input = text("/p general");
    assert!(c.is_ready());
    c.input = text("/unknown");
    assert!(c.is_ready());
    c.input = text("");
    assert!(c.is_ready());
    c.loc = Location::Chat;
    c.server = Some(text("host"));
    c.server_version = Some(text("1"));
    assert!(!c.is_ready_for(&Command::Info));
    assert!(!c.is_ready_for(&Command::Quit));
    assert!(c.is_ready_for(&Command::SendMessage(text("hi"))));
    c.input = text("/q");
    assert!(!c.is_ready());
    c.input = text("hello");
    assert!(c.is_ready());
    assert_eq!(
        handle_input(&mut c),
        vec![Effect::Send(ClientWsMessage::Message(text("hello")))]
    );
}

#[test]
fn a_client_in_order_is_ready_for_everything() {
    for mut c in [at_home(), in_lobby(), in_chat(true), in_chat(false)] {
        assert!(c.is_ready_for(&Command::Info));
        assert!(c.is_ready_for(&Command::Quit));
        c.input = text("/i");
        assert!(c.is_ready());
        c.input = text("/q");
        assert!(c.is_ready());
    }
}

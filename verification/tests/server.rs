use clc::chat::Delivery;
use clc::handler::StreamError;
use clc::protocol::{
    ClientWsMessage, Response, ServerConnectRequest, ServerConnectResponse,
    ServerDisconnectRequest, ServerDisconnectResponse, ServerEvent, ServerWsMessage,
};
use clc::registry::Server;
use clc::token::unused_among;
use clc::ws::is_heartbeat;

fn text(s: &str) -> String {
    s.to_string()
}

fn system(to: &str, line: &str) -> Delivery {
    Delivery { to: text(to), message: ServerWsMessage::SystemMessage(text(line)) }
}

/// Registers `name` under the id `id` and brings its stream up.
fn enter(server: &mut Server, id: &str, name: &str) {
    let reply = server.register_as(ServerConnectRequest(text(name)), text(id));
    assert_eq!(reply, Response::Accept(ServerConnectResponse(text(id), text("1.2.3"))));
    assert_eq!(server.connect_stream(&text(id)), Ok(()));
}

/// A server with alice (A), bob (B) and carol (C), all with their streams up.
fn three() -> Server {
    let mut server = Server::new(text("1.2.3"));
    enter(&mut server, "A", "alice");
    enter(&mut server, "B", "bob");
    enter(&mut server, "C", "carol");
    server
}

/// `three`, with the room R called general that A owns and the invites T1 and T2.
fn with_room() -> Server {
    let mut server = three();
    server.create_chat_as(text("general"), &text("A"), text("R"));
    server.create_chat_invite_as(&text("A"), text("T1"));
    server.create_chat_invite_as(&text("A"), text("T2"));
    server
}

/// `with_room`, with B and C in the room.
fn full_room() -> Server {
    let mut server = with_room();
    server.join_chat(&text("B"), text("general"), text("T1"));
    server.join_chat(&text("C"), text("general"), text("T2"));
    server
}

fn is_token(s: &str) -> bool {
    s.len() == 32 && s.chars().all(|c| matches!(c, '0'..='9' | 'a'..='f'))
}

#[test]
fn the_registries_are_in_order_at_every_stage() {
    assert!(Server::new(text("1.2.3")).is_wf());
    assert!(three().is_wf());
    assert!(with_room().is_wf());
    assert!(full_room().is_wf());
    let mut server = full_room();
    server.leave_chat(&text("B"));
    assert!(server.is_wf());
    server.unregister(ServerDisconnectRequest(text("C")));
    assert!(server.is_wf());
    server.disconnect_stream(&text("A"));
    assert!(server.is_wf());
    assert_eq!(server.session_count(), 1);
    assert_eq!(server.room_count(), 0);
}

#[test]
fn a_new_server_is_empty() {
    let server = Server::new(text("1.2.3"));
    assert_eq!(server.session_count(), 0);
    assert_eq!(server.room_count(), 0);
    assert_eq!(server.version(), "1.2.3");
    assert!(!server.has_session(&text("A")));
}

#[test]
fn register_enters_a_session_without_room_and_stream() {
    let mut server = Server::new(text("1.2.3"));
    let reply = server.register_as(ServerConnectRequest(text("alice")), text("A"));
    assert_eq!(reply, Response::Accept(ServerConnectResponse(text("A"), text("1.2.3"))));
    assert!(server.has_session(&text("A")));
    assert_eq!(server.user_name(&text("A")), Some(text("alice")));
    assert_eq!(server.current_room(&text("A")), None);
    assert!(!server.is_bound(&text("A")));
    assert_eq!(server.session_count(), 1);
}

#[test]
fn register_trims_the_name() {
    let mut server = Server::new(text("1.2.3"));
    let reply = server.register_as(ServerConnectRequest(text("  alice \n")), text("A"));
    assert_eq!(reply, Response::Accept(ServerConnectResponse(text("A"), text("1.2.3"))));
    assert_eq!(server.user_name(&text("A")), Some(text("alice")));
}

#[test]
fn register_refuses_names_of_the_wrong_length() {
    let mut server = Server::new(text("1.2.3"));
    assert_eq!(
        server.register_as(ServerConnectRequest(text("al")), text("A")),
        Response::Fail(text("name should be between 3 and 16 characters long, found 2"))
    );
    assert_eq!(
        server.register_as(ServerConnectRequest(text("   ")), text("A")),
        Response::Fail(text("name should be between 3 and 16 characters long, found 0"))
    );
    assert_eq!(
        server.register_as(ServerConnectRequest(text("abcdefghijklmnopq")), text("A")),
        Response::Fail(text("name should be between 3 and 16 characters long, found 17"))
    );
    assert_eq!(server.session_count(), 0);
}

#[test]
fn register_takes_names_at_both_limits() {
    let mut server = Server::new(text("1.2.3"));
    assert_eq!(
        server.register_as(ServerConnectRequest(text("abc")), text("A")),
        Response::Accept(ServerConnectResponse(text("A"), text("1.2.3")))
    );
    assert_eq!(
        server.register_as(ServerConnectRequest(text("abcdefghijklmnop")), text("B")),
        Response::Accept(ServerConnectResponse(text("B"), text("1.2.3")))
    );
}

#[test]
fn register_refuses_names_with_other_characters() {
    let mut server = Server::new(text("1.2.3"));
    assert_eq!(
        server.register_as(ServerConnectRequest(text("al ice")), text("A")),
        Response::Fail(text("name is not valid"))
    );
    assert_eq!(
        server.register_as(ServerConnectRequest(text("alice!")), text("A")),
        Response::Fail(text("name is not valid"))
    );
    assert_eq!(server.session_count(), 0);
}

#[test]
fn register_refuses_an_id_that_is_in_use() {
    let mut server = three();
    assert_eq!(
        server.register_as(ServerConnectRequest(text("dave")), text("A")),
        Response::Fail(text("Session id is already in use"))
    );
    assert_eq!(server.user_name(&text("A")), Some(text("alice")));
    assert_eq!(server.session_count(), 3);
}

#[test]
fn register_draws_a_new_id_each_time() {
    let mut server = Server::new(text("1.2.3"));
    let first = match server.register(ServerConnectRequest(text("alice"))) {
        Response::Accept(ServerConnectResponse(id, version)) => {
            assert_eq!(version, "1.2.3");
            id
        }
        Response::Fail(reason) => panic!("refused: {}", reason),
    };
    let second = match server.register(ServerConnectRequest(text("bob"))) {
        Response::Accept(ServerConnectResponse(id, _)) => id,
        Response::Fail(reason) => panic!("refused: {}", reason),
    };
    assert!(is_token(&first), "{}", first);
    assert!(is_token(&second), "{}", second);
    assert_ne!(first, second);
    assert_eq!(server.user_name(&first), Some(text("alice")));
    assert_eq!(server.user_name(&second), Some(text("bob")));
}

#[test]
fn register_with_a_bad_name_changes_nothing() {
    let mut server = Server::new(text("1.2.3"));
    assert_eq!(
        server.register(ServerConnectRequest(text("x"))),
        Response::Fail(text("name should be between 3 and 16 characters long, found 1"))
    );
    assert_eq!(server.session_count(), 0);
}

#[test]
fn two_sessions_may_have_the_same_name() {
    let mut server = Server::new(text("1.2.3"));
    assert_eq!(
        server.register_as(ServerConnectRequest(text("alice")), text("A")),
        Response::Accept(ServerConnectResponse(text("A"), text("1.2.3")))
    );
    assert_eq!(
        server.register_as(ServerConnectRequest(text("alice")), text("B")),
        Response::Accept(ServerConnectResponse(text("B"), text("1.2.3")))
    );
    assert_eq!(server.user_name(&text("A")), Some(text("alice")));
    assert_eq!(server.user_name(&text("B")), Some(text("alice")));
    let a = server.register(ServerConnectRequest(text("alice")));
    let b = server.register(ServerConnectRequest(text("alice")));
    assert!(matches!(a, Response::Accept(_)));
    assert!(matches!(b, Response::Accept(_)));
    assert_eq!(server.session_count(), 4);
}

#[test]
fn a_stream_is_opened_for_registered_sessions_only() {
    let mut server = Server::new(text("1.2.3"));
    server.register_as(ServerConnectRequest(text("alice")), text("A"));
    assert_eq!(server.ws_handler(&text("A")), Ok(()));
    assert_eq!(server.ws_handler(&text("Z")), Err(StreamError::NotFound));
    assert_eq!(server.connect_stream(&text("Z")), Err(StreamError::NotFound));
    assert!(!server.is_bound(&text("A")));
    assert_eq!(server.connect_stream(&text("A")), Ok(()));
    assert!(server.is_bound(&text("A")));
    assert!(!server.is_bound(&text("Z")));
}

#[test]
fn create_chat_makes_the_session_owner_and_only_member() {
    let mut server = three();
    let out = server.create_chat_as(text("general"), &text("A"), text("R"));
    assert_eq!(
        out,
        vec![Delivery {
            to: text("A"),
            message: ServerWsMessage::SystemEvent(ServerEvent::ChatCreate(
                text("R"),
                text("general")
            )),
        }]
    );
    assert_eq!(server.current_room(&text("A")), Some(text("R")));
    assert_eq!(server.members(&text("R")), Some(vec![text("A")]));
    assert_eq!(server.invites(&text("R")), Some(vec![]));
    assert_eq!(server.owner(&text("R")), Some(text("A")));
    assert_eq!(server.room_titled(&text("general")), Some(text("R")));
    assert_eq!(server.room_count(), 1);
}

#[test]
fn create_chat_refuses_titles_of_the_wrong_length() {
    let mut server = three();
    assert_eq!(
        server.create_chat_as(text("ab"), &text("A"), text("R")),
        vec![system("A", "title should be between 3 and 24 characters long, found 2")]
    );
    assert_eq!(
        server.create_chat_as(text("abcdefghijklmnopqrstuvwxy"), &text("A"), text("R")),
        vec![system("A", "title should be between 3 and 24 characters long, found 25")]
    );
    assert_eq!(server.room_count(), 0);
    assert_eq!(server.current_room(&text("A")), None);
}

#[test]
fn create_chat_takes_titles_at_both_limits() {
    let mut server = three();
    server.create_chat_as(text("abc"), &text("A"), text("R1"));
    server.create_chat_as(text("abcdefghijklmnopqrstuvwx"), &text("B"), text("R2"));
    assert_eq!(server.current_room(&text("A")), Some(text("R1")));
    assert_eq!(server.current_room(&text("B")), Some(text("R2")));
}

#[test]
fn create_chat_does_not_trim_and_refuses_other_characters() {
    let mut server = three();
    assert_eq!(
        server.create_chat_as(text(" general"), &text("A"), text("R")),
        vec![system("A", "title is not valid")]
    );
    assert_eq!(
        server.create_chat_as(text("gen/eral"), &text("A"), text("R")),
        vec![system("A", "title is not valid")]
    );
    assert_eq!(server.room_count(), 0);
}

#[test]
fn create_chat_refuses_a_session_that_is_in_a_room() {
    let mut server = full_room();
    assert_eq!(
        server.create_chat_as(text("second"), &text("B"), text("R2")),
        vec![system("B", "You are already in a chat")]
    );
    assert_eq!(server.current_room(&text("B")), Some(text("R")));
    assert_eq!(server.room_count(), 1);
}

#[test]
fn create_chat_refuses_an_id_that_is_in_use() {
    let mut server = with_room();
    assert_eq!(
        server.create_chat_as(text("second"), &text("B"), text("R")),
        vec![system("B", "Chat id is already in use")]
    );
    assert_eq!(server.owner(&text("R")), Some(text("A")));
    assert_eq!(server.current_room(&text("B")), None);
}

#[test]
fn create_chat_from_an_unknown_session_does_nothing() {
    let mut server = three();
    assert_eq!(server.create_chat_as(text("general"), &text("Z"), text("R")), vec![]);
    assert_eq!(server.room_count(), 0);
}

#[test]
fn create_chat_draws_a_new_id() {
    let mut server = three();
    let out = server.create_chat(text("general"), &text("A"));
    assert_eq!(out.len(), 1);
    let id = match &out[0].message {
        ServerWsMessage::SystemEvent(ServerEvent::ChatCreate(id, title)) => {
            assert_eq!(title, "general");
            id.clone()
        }
        other => panic!("unexpected {:?}", other),
    };
    assert!(is_token(&id), "{}", id);
    assert_eq!(server.current_room(&text("A")), Some(id.clone()));
    assert_eq!(server.members(&id), Some(vec![text("A")]));
}

#[test]
fn two_rooms_may_have_the_same_title_and_the_first_is_found() {
    let mut server = three();
    server.create_chat_as(text("general"), &text("A"), text("R1"));
    server.create_chat_as(text("general"), &text("B"), text("R2"));
    server.create_chat_invite_as(&text("B"), text("T"));
    assert_eq!(server.room_titled(&text("general")), Some(text("R1")));
    assert_eq!(
        server.join_chat(&text("C"), text("general"), text("T")),
        vec![system("C", "Your invite id is invalid")]
    );
    assert_eq!(server.current_room(&text("C")), None);
    assert_eq!(server.invites(&text("R2")), Some(vec![text("T")]));
}

#[test]
fn only_the_owner_gets_an_invite() {
    let mut server = full_room();
    assert_eq!(
        server.create_chat_invite_as(&text("B"), text("T3")),
        vec![system("B", "You have to be admin to create an invite")]
    );
    assert_eq!(server.invites(&text("R")), Some(vec![]));
    assert_eq!(
        server.create_chat_invite_as(&text("A"), text("T3")),
        vec![system("A", "Created invite: T3")]
    );
    assert_eq!(server.invites(&text("R")), Some(vec![text("T3")]));
}

#[test]
fn a_session_in_no_room_gets_no_invite() {
    let mut server = three();
    assert_eq!(
        server.create_chat_invite_as(&text("A"), text("T")),
        vec![system("A", "You have to be admin to create an invite")]
    );
    assert_eq!(server.create_chat_invite_as(&text("Z"), text("T")), vec![]);
}

#[test]
fn an_invite_is_held_once() {
    let mut server = with_room();
    assert_eq!(
        server.create_chat_invite_as(&text("A"), text("T1")),
        vec![system("A", "Created invite: T1")]
    );
    assert_eq!(server.invites(&text("R")), Some(vec![text("T1"), text("T2")]));
}

#[test]
fn an_invite_gets_a_new_token() {
    let mut server = three();
    server.create_chat_as(text("general"), &text("A"), text("R"));
    let out = server.create_chat_invite(&text("A"));
    assert_eq!(out.len(), 1);
    let invites = server.invites(&text("R")).unwrap();
    assert_eq!(invites.len(), 1);
    assert!(is_token(&invites[0]), "{}", invites[0]);
    assert_eq!(out, vec![system("A", &format!("Created invite: {}", invites[0]))]);
    server.create_chat_invite(&text("A"));
    let invites = server.invites(&text("R")).unwrap();
    assert_eq!(invites.len(), 2);
    assert_ne!(invites[0], invites[1]);
}

#[test]
fn join_tells_the_members_then_the_joiner() {
    let mut server = with_room();
    let out = server.join_chat(&text("B"), text("general"), text("T1"));
    assert_eq!(
        out,
        vec![
            system("A", "bob joined chat"),
            Delivery {
                to: text("B"),
                message: ServerWsMessage::SystemEvent(ServerEvent::ChatAccept(
                    text("R"),
                    text("general")
                )),
            },
        ]
    );
    assert_eq!(server.current_room(&text("B")), Some(text("R")));
    assert_eq!(server.members(&text("R")), Some(vec![text("A"), text("B")]));
    assert_eq!(server.invites(&text("R")), Some(vec![text("T2")]));
}

#[test]
fn join_fails_where_no_room_has_the_title() {
    let mut server = with_room();
    assert_eq!(
        server.join_chat(&text("B"), text("nowhere"), text("T1")),
        vec![system("B", "Chat nowhere does not seem to exist")]
    );
    assert_eq!(server.current_room(&text("B")), None);
    assert_eq!(server.invites(&text("R")), Some(vec![text("T1"), text("T2")]));
}

#[test]
fn join_fails_on_an_unknown_invite() {
    let mut server = with_room();
    assert_eq!(
        server.join_chat(&text("B"), text("general"), text("nope")),
        vec![system("B", "Your invite id is invalid")]
    );
    assert_eq!(server.current_room(&text("B")), None);
    assert_eq!(server.members(&text("R")), Some(vec![text("A")]));
}

#[test]
fn an_invite_works_once() {
    let mut server = with_room();
    let first = server.join_chat(&text("B"), text("general"), text("T1"));
    assert_eq!(first.len(), 2);
    let second = server.join_chat(&text("C"), text("general"), text("T1"));
    assert_eq!(second, vec![system("C", "Your invite id is invalid")]);
    assert_eq!(server.current_room(&text("B")), Some(text("R")));
    assert_eq!(server.current_room(&text("C")), None);
    assert_eq!(server.members(&text("R")), Some(vec![text("A"), text("B")]));
}

#[test]
fn join_refuses_a_session_that_is_in_a_room() {
    let mut server = full_room();
    server.create_chat_invite_as(&text("A"), text("T3"));
    assert_eq!(
        server.join_chat(&text("B"), text("general"), text("T3")),
        vec![system("B", "You are already in a chat")]
    );
    assert_eq!(server.invites(&text("R")), Some(vec![text("T3")]));
    assert_eq!(server.members(&text("R")), Some(vec![text("A"), text("B"), text("C")]));
}

#[test]
fn join_looks_at_title_and_invite_before_the_askers_room() {
    let mut server = full_room();
    server.create_chat_invite_as(&text("A"), text("T3"));
    assert_eq!(
        server.join_chat(&text("B"), text("nowhere"), text("T3")),
        vec![system("B", "Chat nowhere does not seem to exist")]
    );
    assert_eq!(
        server.join_chat(&text("B"), text("general"), text("nope")),
        vec![system("B", "Your invite id is invalid")]
    );
    assert_eq!(
        server.join_chat(&text("A"), text("general"), text("T1")),
        vec![system("A", "Your invite id is invalid")]
    );
    assert_eq!(server.invites(&text("R")), Some(vec![text("T3")]));
    assert_eq!(server.members(&text("R")), Some(vec![text("A"), text("B"), text("C")]));
    assert!(server.is_wf());
}

#[test]
fn a_member_who_asks_again_on_a_used_invite_is_told_it_is_invalid() {
    let mut server = with_room();
    server.join_chat(&text("B"), text("general"), text("T1"));
    assert_eq!(
        server.join_chat(&text("B"), text("general"), text("T1")),
        vec![system("B", "Your invite id is invalid")]
    );
    assert_eq!(server.members(&text("R")), Some(vec![text("A"), text("B")]));
}

#[test]
fn join_from_an_unknown_session_does_nothing() {
    let mut server = with_room();
    assert_eq!(server.join_chat(&text("Z"), text("general"), text("T1")), vec![]);
    assert_eq!(server.invites(&text("R")), Some(vec![text("T1"), text("T2")]));
}

#[test]
fn a_member_leaves_and_the_others_are_told() {
    let mut server = full_room();
    let out = server.leave_chat(&text("B"));
    assert_eq!(out, vec![system("A", "bob left chat"), system("C", "bob left chat")]);
    assert_eq!(server.current_room(&text("B")), None);
    assert_eq!(server.members(&text("R")), Some(vec![text("A"), text("C")]));
    assert_eq!(server.current_room(&text("A")), Some(text("R")));
    assert_eq!(server.current_room(&text("C")), Some(text("R")));
    assert!(server.has_session(&text("B")));
}

#[test]
fn leaving_without_a_room_does_nothing() {
    let mut server = with_room();
    assert_eq!(server.leave_chat(&text("B")), vec![]);
    assert_eq!(server.leave_chat(&text("Z")), vec![]);
    assert_eq!(server.members(&text("R")), Some(vec![text("A")]));
    assert_eq!(server.session_count(), 3);
}

#[test]
fn the_owner_leaving_disbands_the_room() {
    let mut server = full_room();
    let out = server.leave_chat(&text("A"));
    assert_eq!(
        out,
        vec![
            system("B", "alice left chat"),
            system("C", "alice left chat"),
            system("B", "alice disbanded chat"),
            system("C", "alice disbanded chat"),
        ]
    );
    assert!(!server.has_room(&text("R")));
    assert_eq!(server.room_count(), 0);
    assert_eq!(server.members(&text("R")), None);
    assert_eq!(server.current_room(&text("A")), None);
    assert_eq!(server.current_room(&text("B")), None);
    assert_eq!(server.current_room(&text("C")), None);
    assert_eq!(server.session_count(), 3);
    assert_eq!(server.room_titled(&text("general")), None);
}

#[test]
fn disbanding_leaves_other_rooms_alone() {
    let mut server = three();
    server.create_chat_as(text("one"), &text("A"), text("R1"));
    server.create_chat_as(text("two"), &text("B"), text("R2"));
    server.create_chat_invite_as(&text("B"), text("T"));
    server.join_chat(&text("C"), text("two"), text("T"));
    assert_eq!(server.leave_chat(&text("A")), vec![]);
    assert!(!server.has_room(&text("R1")));
    assert_eq!(server.members(&text("R2")), Some(vec![text("B"), text("C")]));
    assert_eq!(server.current_room(&text("B")), Some(text("R2")));
    assert_eq!(server.current_room(&text("C")), Some(text("R2")));
}

#[test]
fn a_session_can_enter_again_after_leaving() {
    let mut server = full_room();
    server.leave_chat(&text("B"));
    server.create_chat_invite_as(&text("A"), text("T3"));
    let out = server.join_chat(&text("B"), text("general"), text("T3"));
    assert_eq!(out.len(), 3);
    assert_eq!(server.members(&text("R")), Some(vec![text("A"), text("C"), text("B")]));
}

#[test]
fn a_message_goes_to_every_member() {
    let server = full_room();
    let out = server.send_message(&text("B"), text("hi"));
    let said = |to: &str| Delivery {
        to: text(to),
        message: ServerWsMessage::Message(text("B"), text("bob"), text("hi")),
    };
    assert_eq!(out, vec![said("A"), said("B"), said("C")]);
}

#[test]
fn a_message_from_outside_a_room_is_not_heard() {
    let server = with_room();
    assert_eq!(server.send_message(&text("B"), text("hi")), vec![]);
    assert_eq!(server.send_message(&text("Z"), text("hi")), vec![]);
}

#[test]
fn the_listing_names_members_and_invites() {
    let mut server = with_room();
    server.join_chat(&text("B"), text("general"), text("T1"));
    assert_eq!(
        server.list_members(&text("B")),
        vec![system(
            "B",
            "members of general:\n    alice\n    bob\nopen invites:\n    T2\n"
        )]
    );
    server.join_chat(&text("C"), text("general"), text("T2"));
    assert_eq!(
        server.list_members(&text("A")),
        vec![system(
            "A",
            "members of general:\n    alice\n    bob\n    carol\nopen invites:\n"
        )]
    );
}

#[test]
fn the_listing_is_for_members_only() {
    let server = with_room();
    assert_eq!(server.list_members(&text("B")), vec![]);
    assert_eq!(server.list_members(&text("Z")), vec![]);
}

#[test]
fn broadcast_passes_over_who_cannot_receive() {
    let mut server = Server::new(text("1.2.3"));
    enter(&mut server, "A", "alice");
    server.register_as(ServerConnectRequest(text("bob")), text("B"));
    enter(&mut server, "C", "carol");
    let message = ServerWsMessage::SystemMessage(text("hello"));
    let out = server.broadcast_msg(&message, &vec![text("A"), text("B"), text("Z"), text("C")]);
    assert_eq!(out, vec![system("A", "hello"), system("C", "hello")]);
    assert_eq!(server.broadcast_msg(&message, &vec![]), vec![]);
    assert_eq!(server.send_msg(&text("B"), message.clone()), vec![]);
    assert_eq!(server.send_msg(&text("A"), message), vec![system("A", "hello")]);
}

#[test]
fn a_member_without_stream_is_in_the_room_but_gets_nothing() {
    let mut server = Server::new(text("1.2.3"));
    enter(&mut server, "A", "alice");
    server.register_as(ServerConnectRequest(text("bob")), text("B"));
    server.create_chat_as(text("general"), &text("A"), text("R"));
    server.create_chat_invite_as(&text("A"), text("T"));
    let out = server.join_chat(&text("B"), text("general"), text("T"));
    assert_eq!(out, vec![system("A", "bob joined chat")]);
    assert_eq!(server.current_room(&text("B")), Some(text("R")));
    assert_eq!(server.leave_chat(&text("A")), vec![]);
    assert_eq!(server.current_room(&text("B")), None);
}

#[test]
fn unregister_removes_the_session() {
    let mut server = three();
    let (reply, out) = server.unregister(ServerDisconnectRequest(text("B")));
    assert_eq!(reply, Response::Accept(ServerDisconnectResponse()));
    assert_eq!(out, vec![]);
    assert!(!server.has_session(&text("B")));
    assert_eq!(server.session_count(), 2);
    assert!(server.has_session(&text("A")));
    assert!(server.has_session(&text("C")));
}

#[test]
fn unregister_twice_fails_the_second_time() {
    let mut server = full_room();
    let (first, _) = server.unregister(ServerDisconnectRequest(text("B")));
    assert_eq!(first, Response::Accept(ServerDisconnectResponse()));
    let (second, out) = server.unregister(ServerDisconnectRequest(text("B")));
    assert_eq!(second, Response::Fail(text("Invalid user id")));
    assert_eq!(out, vec![]);
    assert_eq!(server.members(&text("R")), Some(vec![text("A"), text("C")]));
    assert_eq!(server.session_count(), 2);
}

#[test]
fn unregister_of_a_member_leaves_the_room_first() {
    let mut server = full_room();
    let (reply, out) = server.unregister(ServerDisconnectRequest(text("B")));
    assert_eq!(reply, Response::Accept(ServerDisconnectResponse()));
    assert_eq!(out, vec![system("A", "bob left chat"), system("C", "bob left chat")]);
    assert_eq!(server.members(&text("R")), Some(vec![text("A"), text("C")]));
    assert!(!server.has_session(&text("B")));
    let said = server.send_message(&text("A"), text("still here"));
    assert_eq!(said.len(), 2);
    assert!(said.iter().all(|d| d.to != "B"));
}

#[test]
fn unregister_of_the_owner_disbands_the_room() {
    let mut server = full_room();
    let (reply, out) = server.unregister(ServerDisconnectRequest(text("A")));
    assert_eq!(reply, Response::Accept(ServerDisconnectResponse()));
    assert_eq!(
        out,
        vec![
            system("B", "alice left chat"),
            system("C", "alice left chat"),
            system("B", "alice disbanded chat"),
            system("C", "alice disbanded chat"),
        ]
    );
    assert!(!server.has_room(&text("R")));
    assert!(!server.has_session(&text("A")));
    assert_eq!(server.current_room(&text("B")), None);
    assert_eq!(server.current_room(&text("C")), None);
}

#[test]
fn a_closed_stream_cleans_up_as_leaving_does() {
    let mut closed = full_room();
    let mut left = full_room();
    let out_closed = closed.disconnect_stream(&text("B"));
    let out_left = left.leave_chat(&text("B"));
    assert_eq!(out_closed, out_left);
    assert_eq!(closed.members(&text("R")), left.members(&text("R")));
    assert_eq!(closed.invites(&text("R")), left.invites(&text("R")));
    assert_eq!(closed.current_room(&text("A")), left.current_room(&text("A")));
    assert_eq!(closed.current_room(&text("C")), left.current_room(&text("C")));
    assert!(!closed.has_session(&text("B")));
    assert!(left.has_session(&text("B")));
}

#[test]
fn a_closed_stream_of_the_owner_disbands_as_leaving_does() {
    let mut closed = full_room();
    let mut left = full_room();
    let out_closed = closed.disconnect_stream(&text("A"));
    let out_left = left.leave_chat(&text("A"));
    assert_eq!(out_closed, out_left);
    assert_eq!(out_closed.len(), 4);
    assert!(!closed.has_room(&text("R")));
    assert!(!left.has_room(&text("R")));
    assert_eq!(closed.current_room(&text("B")), None);
    assert_eq!(closed.current_room(&text("C")), None);
    assert!(!closed.has_session(&text("A")));
}

#[test]
fn a_stream_may_close_after_the_session_is_gone() {
    let mut server = full_room();
    server.unregister(ServerDisconnectRequest(text("B")));
    assert_eq!(server.disconnect_stream(&text("B")), vec![]);
    assert_eq!(server.members(&text("R")), Some(vec![text("A"), text("C")]));
    assert_eq!(server.session_count(), 2);
}

#[test]
fn the_heartbeat_is_the_word_ping() {
    assert!(is_heartbeat("ping"));
    assert!(is_heartbeat("  ping\n"));
    assert!(!is_heartbeat("pin"));
    assert!(!is_heartbeat("ping!"));
    assert!(!is_heartbeat("Ping"));
    assert!(!is_heartbeat("pi ng"));
    assert!(!is_heartbeat(""));
    assert!(!is_heartbeat("{\"ChatLeave\":null}"));
}

#[test]
fn client_msg_carries_out_each_kind_of_message() {
    let mut server = three();
    let out = server.client_msg_as(
        &text("A"),
        ClientWsMessage::ChatCreate(text("general")),
        text("R"),
    );
    assert_eq!(out.len(), 1);
    assert_eq!(server.current_room(&text("A")), Some(text("R")));
    let out = server.client_msg_as(&text("A"), ClientWsMessage::ChatCreateInvite, text("T"));
    assert_eq!(out, vec![system("A", "Created invite: T")]);
    let out = server.client_msg_as(
        &text("B"),
        ClientWsMessage::ChatJoin(text("general"), text("T")),
        text("unused"),
    );
    assert_eq!(out.len(), 2);
    let out = server.client_msg_as(
        &text("B"),
        ClientWsMessage::Message(text("hi")),
        text("unused"),
    );
    assert_eq!(out.len(), 2);
    let out = server.client_msg_as(&text("B"), ClientWsMessage::ChatListMembers, text("unused"));
    assert_eq!(
        out,
        vec![system("B", "members of general:\n    alice\n    bob\nopen invites:\n")]
    );
    let out = server.client_msg_as(&text("B"), ClientWsMessage::ChatLeave, text("unused"));
    assert_eq!(out, vec![system("A", "bob left chat")]);
    assert_eq!(server.members(&text("R")), Some(vec![text("A")]));
}

#[test]
fn client_msg_draws_tokens_where_needed() {
    let mut server = three();
    let out = server.client_msg(&text("A"), ClientWsMessage::ChatCreate(text("general")));
    assert_eq!(out.len(), 1);
    let room = server.current_room(&text("A")).unwrap();
    assert!(is_token(&room), "{}", room);
    server.client_msg(&text("A"), ClientWsMessage::ChatCreateInvite);
    let invite = server.invites(&room).unwrap()[0].clone();
    assert!(is_token(&invite), "{}", invite);
    assert_ne!(invite, room);
    let out = server.client_msg(&text("B"), ClientWsMessage::ChatJoin(text("general"), invite));
    assert_eq!(out.len(), 2);
    assert_eq!(server.members(&room), Some(vec![text("A"), text("B")]));
    let out = server.client_msg(&text("A"), ClientWsMessage::Message(text("hi")));
    assert_eq!(out.len(), 2);
    let out = server.client_msg(&text("B"), ClientWsMessage::ChatListMembers);
    assert_eq!(out.len(), 1);
    server.client_msg(&text("A"), ClientWsMessage::ChatLeave);
    assert!(!server.has_room(&room));
}

#[test]
fn from_registration_to_disbanding() {
    let mut server = Server::new(text("1.2.3"));
    let a = match server.register(ServerConnectRequest(text("alice"))) {
        Response::Accept(ServerConnectResponse(id, _)) => id,
        Response::Fail(reason) => panic!("refused: {}", reason),
    };
    let b = match server.register(ServerConnectRequest(text("bob"))) {
        Response::Accept(ServerConnectResponse(id, _)) => id,
        Response::Fail(reason) => panic!("refused: {}", reason),
    };
    assert_eq!(server.connect_stream(&a), Ok(()));
    assert_eq!(server.connect_stream(&b), Ok(()));

    let out = server.client_msg(&a, ClientWsMessage::ChatCreate(text("general")));
    let c = server.current_room(&a).unwrap();
    assert_eq!(
        out,
        vec![Delivery {
            to: a.clone(),
            message: ServerWsMessage::SystemEvent(ServerEvent::ChatCreate(
                c.clone(),
                text("general")
            )),
        }]
    );
    assert_eq!(server.members(&c), Some(vec![a.clone()]));

    let out = server.client_msg(&a, ClientWsMessage::ChatCreateInvite);
    let t = server.invites(&c).unwrap()[0].clone();
    assert_eq!(out, vec![system(&a, &format!("Created invite: {}", t))]);

    let out = server.client_msg(&b, ClientWsMessage::ChatJoin(text("general"), t.clone()));
    assert_eq!(
        out,
        vec![
            system(&a, "bob joined chat"),
            Delivery {
                to: b.clone(),
                message: ServerWsMessage::SystemEvent(ServerEvent::ChatAccept(
                    c.clone(),
                    text("general")
                )),
            },
        ]
    );
    assert_eq!(server.current_room(&b), Some(c.clone()));
    assert_eq!(server.members(&c), Some(vec![a.clone(), b.clone()]));
    assert_eq!(server.invites(&c), Some(vec![]));

    let out = server.client_msg(&a, ClientWsMessage::Message(text("hi")));
    assert!(out.contains(&Delivery {
        to: b.clone(),
        message: ServerWsMessage::Message(a.clone(), text("alice"), text("hi")),
    }));
    assert_eq!(out.len(), 2);

    let out = server.client_msg(&a, ClientWsMessage::ChatLeave);
    assert_eq!(out, vec![system(&b, "alice left chat"), system(&b, "alice disbanded chat")]);
    assert!(!server.has_room(&c));
    assert_eq!(server.current_room(&b), None);
    assert_eq!(server.current_room(&a), None);
}

/// Whether, for each of the sessions and rooms named, the session is in the room
/// exactly if the room lists it.
fn rooms_and_members_agree(server: &Server, sessions: &[&str], rooms: &[&str]) -> bool {
    server.is_wf() && sessions.iter().all(|s| {
        rooms.iter().all(|r| {
            let inside = server.current_room(&text(s)) == Some(text(r));
            let listed = match server.members(&text(r)) {
                Some(members) => members.contains(&text(s)),
                None => false,
            };
            inside == listed
        })
    })
}

#[test]
fn a_session_is_in_a_room_exactly_if_the_room_lists_it() {
    let sessions = ["A", "B", "C"];
    let rooms = ["R1", "R2"];
    let mut server = three();
    assert!(rooms_and_members_agree(&server, &sessions, &rooms));
    server.create_chat_as(text("one"), &text("A"), text("R1"));
    assert!(rooms_and_members_agree(&server, &sessions, &rooms));
    server.create_chat_invite_as(&text("A"), text("T1"));
    server.join_chat(&text("B"), text("one"), text("T1"));
    assert!(rooms_and_members_agree(&server, &sessions, &rooms));
    server.create_chat_as(text("two"), &text("B"), text("R2"));
    assert!(rooms_and_members_agree(&server, &sessions, &rooms));
    server.create_chat_as(text("two"), &text("C"), text("R2"));
    assert!(rooms_and_members_agree(&server, &sessions, &rooms));
    server.create_chat_invite_as(&text("C"), text("T2"));
    server.join_chat(&text("B"), text("two"), text("T2"));
    assert!(rooms_and_members_agree(&server, &sessions, &rooms));
    server.leave_chat(&text("B"));
    assert!(rooms_and_members_agree(&server, &sessions, &rooms));
    server.join_chat(&text("B"), text("two"), text("T2"));
    assert!(rooms_and_members_agree(&server, &sessions, &rooms));
    assert_eq!(server.current_room(&text("B")), Some(text("R2")));
    server.unregister(ServerDisconnectRequest(text("C")));
    assert!(rooms_and_members_agree(&server, &sessions, &rooms));
    assert!(!server.has_room(&text("R2")));
    server.disconnect_stream(&text("A"));
    assert!(rooms_and_members_agree(&server, &sessions, &rooms));
    assert_eq!(server.room_count(), 0);
    assert_eq!(server.session_count(), 1);
}

#[test]
fn the_heartbeat_frame_is_passed_over() {
    let mut server = full_room();
    assert_eq!(server.client_frame(&text("B"), "ping", None), vec![]);
    assert_eq!(
        server.client_frame(&text("B"), " ping\n", Some(ClientWsMessage::ChatLeave)),
        vec![]
    );
    assert_eq!(server.members(&text("R")), Some(vec![text("A"), text("B"), text("C")]));
    assert_eq!(server.current_room(&text("B")), Some(text("R")));
}

#[test]
fn a_frame_without_message_is_passed_over() {
    let mut server = full_room();
    assert_eq!(server.client_frame(&text("B"), "{not json", None), vec![]);
    assert_eq!(server.client_frame(&text("B"), "", None), vec![]);
    assert_eq!(server.members(&text("R")), Some(vec![text("A"), text("B"), text("C")]));
    assert_eq!(server.session_count(), 3);
}

#[test]
fn a_frame_with_a_message_is_carried_out() {
    let mut server = full_room();
    let out = server.client_frame(&text("B"), "\"ChatLeave\"", Some(ClientWsMessage::ChatLeave));
    assert_eq!(out, vec![system("A", "bob left chat"), system("C", "bob left chat")]);
    assert_eq!(server.current_room(&text("B")), None);
    let out = server.client_frame(
        &text("A"),
        "{\"Message\":\"hi\"}",
        Some(ClientWsMessage::Message(text("hi"))),
    );
    assert_eq!(out.len(), 2);
}

#[test]
fn an_id_in_use_is_made_longer_until_it_is_free() {
    let t = "0123456789abcdef0123456789abcdef";
    let taken = vec![text(t), format!("{}0", t), format!("{}000", t), text("other")];
    assert_eq!(unused_among(&taken, text(t)), format!("{}00", t));
    assert_eq!(unused_among(&vec![], text(t)), t);
    assert_eq!(unused_among(&vec![text("other")], text(t)), t);
}

#[test]
fn register_grants_every_acceptable_name() {
    let mut server = Server::new(text("1.2.3"));
    let mut ids = Vec::new();
    for _ in 0..20 {
        match server.register(ServerConnectRequest(text("alice"))) {
            Response::Accept(ServerConnectResponse(id, _)) => {
                assert!(!ids.contains(&id));
                ids.push(id);
            }
            Response::Fail(reason) => panic!("refused: {}", reason),
        }
    }
    assert_eq!(server.session_count(), 20);
    assert!(server.is_wf());
}

#[test]
fn create_chat_puts_the_session_into_a_room() {
    let mut server = three();
    server.create_chat(text("general"), &text("A"));
    let first = server.current_room(&text("A")).unwrap();
    assert_eq!(
        server.create_chat(text("second"), &text("A")),
        vec![system("A", "You are already in a chat")]
    );
    assert_eq!(server.current_room(&text("A")), Some(first.clone()));
    server.create_chat(text("general"), &text("B"));
    let second = server.current_room(&text("B")).unwrap();
    assert_ne!(first, second);
    assert_eq!(server.members(&first), Some(vec![text("A")]));
    assert_eq!(server.members(&second), Some(vec![text("B")]));
    assert!(server.is_wf());
}

#[test]
fn every_invite_is_new_to_the_room() {
    let mut server = three();
    server.create_chat_as(text("general"), &text("A"), text("R"));
    for n in 1..=10 {
        server.create_chat_invite(&text("A"));
        let invites = server.invites(&text("R")).unwrap();
        assert_eq!(invites.len(), n);
        assert!(!invites[..n - 1].contains(&invites[n - 1]));
    }
}

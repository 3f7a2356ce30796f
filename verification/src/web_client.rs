//! What the server's answers to the session requests change in the client.

use crate::client::{Client, ClientView, Location};
use crate::input_handler::{effs, Effect, EffectView};
use crate::protocol::{
    Response, ResponseView, ServerConnectResponse, ServerDisconnectResponse, ServerUrl,
    UserName,
};
use vstd::prelude::*;
use vstd::string::*;

verus! {

/// The address at which the server at `server` takes the session requests.
pub open spec fn register_address(server: Seq<char>) -> Seq<char> {
    "http://"@ + server + "/api/register"@
}

/// The address of the stream of the session `user_id` on the server at `server`.
pub open spec fn socket_address(server: Seq<char>, user_id: Seq<char>) -> Seq<char> {
    "wss://"@ + server + "/ws/"@ + user_id
}

pub fn register_url(server: &str) -> (r: String)
    ensures
        r@ == register_address(server@),
{
    let mut r = String::from_str("http://");
    r.append(server);
    r.append("/api/register");
    r
}

pub fn socket_url(server: &str, user_id: &str) -> (r: String)
    ensures
        r@ == socket_address(server@, user_id@),
{
    let mut r = String::from_str("wss://");
    r.append(server);
    r.append("/ws/");
    r.append(user_id);
    r
}

/// The view of an answer that may not have arrived: the answer, or why there is none.
pub open spec fn reply_view<T: View>(reply: Result<Response<T>, String>) -> Result<
    ResponseView<T::V>,
    Seq<char>,
> {
    match reply {
        Ok(r) => Ok(r@),
        Err(e) => Err(e@),
    }
}

/// The client in the lobby of the server `url`, as the session `id` named `name`.
pub open spec fn connected(
    c: ClientView,
    url: Seq<char>,
    name: Seq<char>,
    id: Seq<char>,
    version: Seq<char>,
) -> ClientView {
    ClientView {
        server: Some(url),
        name: Some(name),
        user_id: Some(id),
        server_version: Some(version),
        loc: Location::Lobby,
        ..c
    }
}

/// The client back at home, without a session.
pub open spec fn disconnected(c: ClientView) -> ClientView {
    ClientView {
        server: None,
        user_id: None,
        name: None,
        chat_id: None,
        loc: Location::Home,
        ..c
    }
}

/// What is shown when a request was refused.
pub open spec fn refusal(reason: Seq<char>) -> Seq<char> {
    "Error: "@ + reason
}

/// The client after the answer to its request for a session.
pub open spec fn after_connect(
    c: ClientView,
    url: Seq<char>,
    name: Seq<char>,
    reply: Result<ResponseView<(Seq<char>, Seq<char>)>, Seq<char>>,
) -> ClientView {
    match reply {
        Ok(ResponseView::Accept((id, version))) => connected(c, url, name, id, version),
        _ => c,
    }
}

/// What is to be done after the answer to the request for a session: on success the
/// user is told and the stream is opened, else the user is told why not.
pub open spec fn connect_effects(
    url: Seq<char>,
    name: Seq<char>,
    reply: Result<ResponseView<(Seq<char>, Seq<char>)>, Seq<char>>,
) -> Seq<EffectView> {
    match reply {
        Ok(ResponseView::Accept(_)) => seq![
            EffectView::Write("Connected to server "@ + url + " as "@ + name),
            EffectView::OpenSocket,
        ],
        Ok(ResponseView::Fail(reason)) => seq![EffectView::Write(refusal(reason))],
        Err(e) => seq![
            EffectView::Write("Unable to connect to server "@ + url + " as "@ + name + ": "@ + e),
        ],
    }
}

/// The client after the answer to its request to end the session.
pub open spec fn after_disconnect(
    c: ClientView,
    reply: Result<ResponseView<()>, Seq<char>>,
) -> ClientView {
    match reply {
        Ok(ResponseView::Accept(_)) => disconnected(c),
        _ => c,
    }
}

/// What is to be done after the answer to the request to end the session: on success
/// the stream is closed and the user is told, else the user is told why not.
pub open spec fn disconnect_effects(
    url: Seq<char>,
    reply: Result<ResponseView<()>, Seq<char>>,
) -> Seq<EffectView> {
    match reply {
        Ok(ResponseView::Accept(_)) => seq![
            EffectView::CloseSocket,
            EffectView::Write("Disconnected from server "@ + url),
        ],
        Ok(ResponseView::Fail(reason)) => seq![EffectView::Write(refusal(reason))],
        Err(e) => seq![
            EffectView::Write("Unable to disconnect from server "@ + url + ": "@ + e),
        ],
    }
}

fn single(line: String) -> (v: Vec<Effect>)
    ensures
        effs(v@) == seq![EffectView::Write(line@)],
{
    let mut v: Vec<Effect> = Vec::new();
    v.push(Effect::Write(line));
    assert(effs(v@) =~= seq![EffectView::Write(line@)]);
    v
}

fn refusal_line(reason: &str) -> (r: String)
    ensures
        r@ == refusal(reason@),
{
    let mut r = String::from_str("Error: ");
    r.append(reason);
    r
}

impl Client {
    /// Takes in the answer to the request for a session on the server at `url` under
    /// the name `name`: `reply` is the server's answer, or the reason why none came.
    pub fn connect_server(
        &mut self,
        url: ServerUrl,
        name: UserName,
        reply: Result<Response<ServerConnectResponse>, String>,
    ) -> (effects: Vec<Effect>)
        ensures
            final(self)@ == after_connect(old(self)@, url@, name@, reply_view(reply)),
            effs(effects@) == connect_effects(url@, name@, reply_view(reply)),
            old(self)@.wf() ==> final(self)@.wf(),
    {
        match reply {
            Ok(Response::Accept(ServerConnectResponse(uuid, version))) => {
                let mut line = String::from_str("Connected to server ");
                line.append(url.as_str());
                line.append(" as ");
                line.append(name.as_str());
                self.server = Some(url);
                self.name = Some(name);
                self.user_id = Some(uuid);
                self.server_version = Some(version);
                self.loc = Location::Lobby;
                let mut v: Vec<Effect> = Vec::new();
                v.push(Effect::Write(line));
                v.push(Effect::OpenSocket);
                assert(effs(v@) =~= connect_effects(url@, name@, reply_view(reply)));
                v
            },
            Ok(Response::Fail(reason)) => single(refusal_line(reason.as_str())),
            Err(e) => {
                let mut line = String::from_str("Unable to connect to server ");
                line.append(url.as_str());
                line.append(" as ");
                line.append(name.as_str());
                line.append(": ");
                line.append(e.as_str());
                single(line)
            },
        }
    }

    /// Takes in the answer to the request to end the session: `reply` is the server's
    /// answer, or the reason why none came.
    pub fn disconnect_server(
        &mut self,
        reply: Result<Response<ServerDisconnectResponse>, String>,
    ) -> (effects: Vec<Effect>)
        requires
            old(self)@.server is Some,
        ensures
            final(self)@ == after_disconnect(old(self)@, reply_view(reply)),
            effs(effects@) == disconnect_effects(old(self)@.server.unwrap(), reply_view(reply)),
            old(self)@.wf() ==> final(self)@.wf(),
    {
        match reply {
            Ok(Response::Accept(ServerDisconnectResponse())) => {
                let mut line = String::from_str("Disconnected from server ");
                line.append(self.server.as_ref().unwrap().as_str());
                self.server = None;
                self.user_id = None;
                self.name = None;
                self.chat_id = None;
                self.loc = Location::Home;
                let mut v: Vec<Effect> = Vec::new();
                v.push(Effect::CloseSocket);
                v.push(Effect::Write(line));
                assert(effs(v@) =~= disconnect_effects(
                    old(self)@.server.unwrap(),
                    reply_view(reply),
                ));
                v
            },
            Ok(Response::Fail(reason)) => single(refusal_line(reason.as_str())),
            Err(e) => {
                let mut line = String::from_str("Unable to disconnect from server ");
                line.append(self.server.as_ref().unwrap().as_str());
                line.append(": ");
                line.append(e.as_str());
                single(line)
            },
        }
    }
}

} // verus!

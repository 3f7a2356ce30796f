//! A multi-room chat: the server's session and room registries with the
//! invite-based room lifecycle, and the terminal client's command language
//! and view of the connection.

pub mod chat;
pub mod client;
pub mod handler;
pub mod input_handler;
pub mod laws;
pub mod protocol;
pub mod registry;
pub mod text;
pub mod token;
pub mod validator;
pub mod web_client;
pub mod ws;
pub mod ws_client;

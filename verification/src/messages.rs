//! The wire message model: a tagged union of everything that crosses a
//! connection, with per-variant records.  Identity and session token are
//! read through `Message::username` and `Message::auth_token`.

use vstd::prelude::*;

verus! {

/// A chat text message bound for one channel.  `message_id` and
/// `timestamp` are assigned by the server; values supplied by a client
/// are overwritten by the pipeline.
pub struct TextMessage {
    pub username: String,
    pub auth_token: String,
    pub body: String,
    pub channel: String,
    pub embed_pointer: Option<usize>,
    pub embed_type: Option<String>,
    pub message_id: Option<u32>,
    pub timestamp: u64,
}

/// A file transfer record.  Declared for wire compatibility; the hub does
/// not route it anywhere yet.
pub struct FileMessage {
    pub username: String,
    pub auth_token: String,
    pub filename: String,
    pub data: String,
}

/// A metadata request such as a history replay or a channel listing.
pub struct CommandMessage {
    pub username: String,
    pub auth_token: String,
    pub command_type: String,
    pub args: Vec<String>,
}

/// The login handshake record.  A client sends it with `password` set;
/// the server answers with `auth_token` set and `password` cleared.
pub struct AuthMessage {
    pub username: String,
    pub auth_token: Option<String>,
    pub password: Option<String>,
}

/// A server-to-client metadata push, such as the channel list.
pub struct InfoMessage {
    pub header: String,
    pub data: String,
}

/// Everything that can cross a connection, as one tagged union.
pub enum Message {
    Text(TextMessage),
    File(FileMessage),
    Command(CommandMessage),
    Auth(AuthMessage),
    Info(InfoMessage),
}

impl Message {
    /// The identity a message claims.  `Info` messages originate from the
    /// server itself.
    pub open spec fn spec_username(&self) -> Seq<char> {
        match self {
            Message::Text(inner) => inner.username@,
            Message::File(inner) => inner.username@,
            Message::Command(inner) => inner.username@,
            Message::Auth(inner) => inner.username@,
            Message::Info(_) => "Server"@,
        }
    }

    /// The session token a message presents, if any.
    pub open spec fn spec_auth_token(&self) -> Option<Seq<char>> {
        match self {
            Message::Text(inner) => Some(inner.auth_token@),
            Message::File(inner) => Some(inner.auth_token@),
            Message::Command(inner) => Some(inner.auth_token@),
            Message::Auth(inner) => match inner.auth_token {
                Some(token) => Some(token@),
                None => None,
            },
            Message::Info(_) => None,
        }
    }

    pub fn username(&self) -> (name: String)
        ensures
            name@ == self.spec_username(),
    {
        match self {
            Message::Text(inner) => inner.username.clone(),
            Message::File(inner) => inner.username.clone(),
            Message::Command(inner) => inner.username.clone(),
            Message::Auth(inner) => inner.username.clone(),
            Message::Info(_) => "Server".to_owned(),
        }
    }

    pub fn auth_token(&self) -> (token: Option<String>)
        ensures
            match token {
                Some(t) => self.spec_auth_token() == Some(t@),
                None => self.spec_auth_token() is None,
            },
    {
        match self {
            Message::Text(inner) => Some(inner.auth_token.clone()),
            Message::File(inner) => Some(inner.auth_token.clone()),
            Message::Command(inner) => Some(inner.auth_token.clone()),
            Message::Auth(inner) => match &inner.auth_token {
                Some(token) => Some(token.clone()),
                None => None,
            },
            Message::Info(_) => None,
        }
    }
}

} // verus!

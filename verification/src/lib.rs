//! Core engine of a multi-user chat hub.
//!
//! The library holds the authoritative logic of the server: the wire message
//! model, the credential store with salted password hashing, the session
//! registry, direct-message channel naming and authorization, the message
//! pipeline that stamps and persists text messages, and the command
//! processor for history replay and channel listing.  Socket handling,
//! JSON framing and durable storage live outside the library and drive it
//! through the state transitions defined here.

pub mod auth;
pub mod commands;
pub mod credentials;
pub mod crypto;
pub mod digits;
pub mod dm;
pub mod history;
pub mod messages;
pub mod pipeline;
pub mod registry;
pub mod routing;
pub mod state;
pub mod strmap;

pub use messages::AuthMessage;
pub use messages::CommandMessage;
pub use messages::FileMessage;
pub use messages::InfoMessage;
pub use messages::Message;
pub use messages::TextMessage;

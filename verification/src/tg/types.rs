//! The values that travel between the bot and the messaging platform.

use vstd::prelude::*;

verus! {

/// The envelope of every answer of the platform.
#[derive(Clone, Debug, PartialEq, Eq)]
pub struct Response<T> {
    pub ok: bool,
    pub result: Option<T>,
    pub description: Option<String>,
}

/// An account on the platform.
#[derive(Clone, Debug, PartialEq, Eq)]
pub struct User {
    pub id: i64,
    pub is_bot: bool,
    pub first_name: String,
    pub last_name: Option<String>,
    pub username: Option<String>,
    pub language_code: Option<String>,
}

/// One incoming event, with the identifier that orders it among the others.
#[derive(Clone, Debug, PartialEq, Eq)]
pub struct Update {
    pub update_id: i64,
    pub message: Option<Message>,
}

/// What a request for updates asks for.
#[derive(Clone, Debug, Default, PartialEq, Eq)]
pub struct GetUpdates {
    /// The lowest identifier that is wanted; `None` asks from the start.
    pub offset: Option<i64>,
    /// The largest number of updates in one answer.
    pub limit: Option<i64>,
    /// How many seconds the platform may hold the request open.
    pub timeout: Option<i64>,
    pub allowed_updates: Option<Vec<String>>,
}

/// A conversation.
#[derive(Clone, Debug, PartialEq, Eq)]
pub struct Chat {
    pub id: i64,
}

/// A text to send to a conversation.
#[derive(Clone, Debug, PartialEq, Eq)]
pub struct SendMessage {
    pub chat_id: i64,
    pub text: String,
}

/// A message that was sent in a conversation.
#[derive(Clone, Debug, PartialEq, Eq)]
pub struct Message {
    pub message_id: i64,
    pub chat: Chat,
    /// The text of the message, where it has one.
    pub text: Option<String>,
}

} // verus!

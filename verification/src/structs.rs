//! The records of the registration-based variant of the server: a client
//! that may or may not have a socket yet, the answer to a registration, and a
//! published event.

use vstd::prelude::*;

verus! {

/// The model of a [`Client`].
pub struct ClientRecord {
    pub user_id: Seq<char>,
    pub nick: Seq<char>,
    pub channel: Seq<char>,
    pub has_sender: bool,
}

/// A registered client: its user id, nickname and channel, and whether a
/// socket is attached to it (lines are only sent to clients that have one).
pub struct Client {
    pub user_id: String,
    pub nick: String,
    pub channel: String,
    pub has_sender: bool,
}

impl View for Client {
    type V = ClientRecord;

    open spec fn view(&self) -> ClientRecord {
        ClientRecord {
            user_id: self.user_id@,
            nick: self.nick@,
            channel: self.channel@,
            has_sender: self.has_sender,
        }
    }
}

impl Client {
    /// A copy of this client.
    pub fn duplicate(&self) -> (r: Client)
        ensures
            r@ == self@,
    {
        Client {
            user_id: self.user_id.clone(),
            nick: self.nick.clone(),
            channel: self.channel.clone(),
            has_sender: self.has_sender,
        }
    }
}

/// A registration request: the user id of the client to register.
pub struct RegisterRequest {
    pub user_id: usize,
}

/// An event published through the registration-based server: a topic, an
/// optional user id that restricts who receives it, and the text.
pub struct TopicEvent {
    pub topic: String,
    pub user_id: Option<usize>,
    pub message: String,
}

/// The answer to a registration: the address of the client's socket.
pub struct RegisterResponse {
    pub url: String,
}

/// A line to publish: the channel (or client id) it goes to, the optional
/// author, and the text.
pub struct Event {
    pub channel: String,
    pub nick: Option<String>,
    pub message: String,
}

} // verus!

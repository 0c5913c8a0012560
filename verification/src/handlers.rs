//! The request handlers of the registration-based variant of the server.

use vstd::prelude::*;
use vstd::string::*;
use crate::commands::{Clients, contains_key, key_index, remove_entry, insert_entry};
use crate::delivery::{Delivery, DeliveryView, delivery_views, lemma_delivery_views_push};
use crate::structs::{Client, ClientRecord, RegisterRequest, RegisterResponse, TopicEvent};
use crate::text::{is_simple_uuid, decimal, decimal_string};
use crate::trusted::new_user_id;

verus! {

/// The address of the socket of the client registered under `id`.
pub open spec fn ws_url(id: Seq<char>) -> Seq<char> {
    "ws://127.0.0.1:8000/ws/"@ + id
}

/// Why a socket request is turned down.
pub enum Rejection {
    /// No client is registered under the requested id.
    NotFound,
}

/// The answer to the registration of `id`: the address of its socket.
pub fn register_response(id: &str) -> (r: RegisterResponse)
    ensures
        r.url@ == ws_url(id@),
{
    let mut url = String::from_str("ws://127.0.0.1:8000/ws/");
    url.append(id);
    RegisterResponse { url }
}

/// The client that a registration with user id `user_id` stores: the user id
/// in decimal, no nickname, subscribed to the one topic `general` (its
/// channel), and no socket yet.
pub open spec fn registered_record(user_id: nat) -> ClientRecord {
    ClientRecord { user_id: decimal(user_id), nick: Seq::empty(), channel: "general"@, has_sender: false }
}

/// Stores under `id` the newly registered client with user id `user_id`.
pub fn register_client(id: String, user_id: usize, clients: &mut Clients)
    ensures
        final(clients)@ == insert_entry(old(clients)@, id@, registered_record(user_id as nat)),
{
    let client = Client {
        user_id: decimal_string(user_id),
        nick: String::new(),
        channel: String::from_str("general"),
        has_sender: false,
    };
    clients.insert(id, client);
}

/// Registers the client of `body` under a fresh random registration id and
/// builds the answer that names its socket. Returns the id and the answer.
pub fn register_handler(body: RegisterRequest, clients: &mut Clients) -> (r: (String, RegisterResponse))
    ensures
        is_simple_uuid(r.0@),
        r.1.url@ == ws_url(r.0@),
        final(clients)@ == insert_entry(old(clients)@, r.0@, registered_record(body.user_id as nat)),
{
    let id = new_user_id();
    register_client(id.clone(), body.user_id, clients);
    let response = register_response(id.as_str());
    (id, response)
}

/// The entry `e` gets an event on `topic` restricted to `user_id`: its user
/// id is the one asked for (when one is), its topic (its channel) is the
/// event's, and it has a socket.
pub open spec fn topic_receives(e: (Seq<char>, ClientRecord), user_id: Option<nat>, topic: Seq<char>) -> bool {
    &&& match user_id {
        Some(v) => e.1.user_id == decimal(v),
        None => true,
    }
    &&& e.1.channel == topic
    &&& e.1.has_sender
}

/// The line `message` for each entry that gets the event, addressed by its
/// key, in the registry's order.
pub open spec fn topic_deliveries(
    s: Seq<(Seq<char>, ClientRecord)>,
    user_id: Option<nat>,
    topic: Seq<char>,
    message: Seq<char>,
) -> Seq<DeliveryView>
    decreases s.len(),
{
    if s.len() == 0 {
        Seq::empty()
    } else if topic_receives(s.last(), user_id, topic) {
        topic_deliveries(s.drop_last(), user_id, topic, message).push(DeliveryView { recipient: s.last().0, text: message })
    } else {
        topic_deliveries(s.drop_last(), user_id, topic, message)
    }
}

/// The model of an optional user id.
pub open spec fn user_id_view(u: Option<usize>) -> Option<nat> {
    match u {
        Some(v) => Some(v as nat),
        None => None,
    }
}

/// Sends the event's message to every registered client with a socket whose
/// topic is the event's and, when the event names a user id, whose user id it
/// is.
pub fn publish_handler(body: &TopicEvent, clients: &Clients) -> (r: Vec<Delivery>)
    ensures
        delivery_views(r@) == topic_deliveries(clients@, user_id_view(body.user_id), body.topic@, body.message@),
{
    let wanted: Option<String> = match body.user_id {
        Some(v) => Some(decimal_string(v)),
        None => None,
    };
    let entries = clients.entries();
    let mut r: Vec<Delivery> = Vec::new();
    let mut i: usize = 0;
    while i < entries.len()
        invariant
            i <= entries@.len(),
            entries@.len() == clients@.len(),
            forall|j: int| 0 <= j < entries@.len() ==> crate::commands::entry_view(#[trigger] entries@[j]) == clients@[j],
            wanted matches Some(w) ==> body.user_id is Some && w@ == decimal(body.user_id->0 as nat),
            wanted is None ==> body.user_id is None,
            delivery_views(r@) == topic_deliveries(clients@.take(i as int), user_id_view(body.user_id), body.topic@, body.message@),
        decreases entries@.len() - i,
    {
        proof {
            assert(clients@.take(i + 1).drop_last() =~= clients@.take(i as int));
            assert(crate::commands::entry_view(entries@[i as int]) == clients@[i as int]);
        }
        let entry = &entries[i];
        let user_matches = match &wanted {
            Some(w) => entry.1.user_id == *w,
            None => true,
        };
        if user_matches && entry.1.channel == body.topic && entry.1.has_sender {
            let d = Delivery { recipient: entry.0.clone(), text: body.message.clone() };
            proof {
                lemma_delivery_views_push(r@, d);
            }
            r.push(d);
        }
        i = i + 1;
    }
    proof {
        assert(clients@.take(clients@.len() as int) =~= clients@);
    }
    r
}

/// Forgets the client registered under `id`.
pub fn unregister_handler(id: &str, clients: &mut Clients)
    ensures
        final(clients)@ == remove_entry(old(clients)@, id@),
{
    clients.remove(id);
}

/// A socket request for `id`: the registered client to connect, or
/// `NotFound` when no client is registered under `id`.
pub fn ws_handler(id: &str, clients: &Clients) -> (r: Result<Client, Rejection>)
    ensures
        r is Ok == contains_key(clients@, id@),
        r matches Ok(c) ==> c@ == clients@[key_index(clients@, id@)].1,
{
    match clients.get(id) {
        Some(c) => Ok(c),
        None => Err(Rejection::NotFound),
    }
}

} // verus!

//! The commands of the registration-based variant of the server, over a
//! registry of clients keyed by their registration ids.
//!
//! Here a published line carries the message alone, and reaches only the
//! addressed clients that have a socket.

use vstd::prelude::*;
use vstd::string::*;
use crate::chat_server::{ClientView, users_text, list_text, channel_lines};
use crate::delivery::{Delivery, DeliveryView, delivery_views, lemma_delivery_views_push};
use crate::structs::{Client, ClientRecord, Event};
use crate::text::{concat_strings, string_views};
use crate::trusted::unique_lines;

verus! {

/// No two entries share a key.
pub open spec fn distinct_keys(s: Seq<(Seq<char>, ClientRecord)>) -> bool {
    forall|i: int, j: int| 0 <= i < s.len() && 0 <= j < s.len() && i != j ==> #[trigger] s[i].0 != #[trigger] s[j].0
}

/// Some entry has the key `key`.
pub open spec fn contains_key(s: Seq<(Seq<char>, ClientRecord)>, key: Seq<char>) -> bool {
    exists|i: int| 0 <= i < s.len() && #[trigger] s[i].0 == key
}

/// The position of the entry with key `key` (meaningful when there is one).
pub open spec fn key_index(s: Seq<(Seq<char>, ClientRecord)>, key: Seq<char>) -> int {
    choose|i: int| 0 <= i < s.len() && #[trigger] s[i].0 == key
}

/// `s` with `c` stored under `key`: replaced in place, or appended.
pub open spec fn insert_entry(s: Seq<(Seq<char>, ClientRecord)>, key: Seq<char>, c: ClientRecord) -> Seq<(Seq<char>, ClientRecord)> {
    if contains_key(s, key) {
        s.update(key_index(s, key), (key, c))
    } else {
        s.push((key, c))
    }
}

/// `s` without the entry with key `key`.
pub open spec fn remove_entry(s: Seq<(Seq<char>, ClientRecord)>, key: Seq<char>) -> Seq<(Seq<char>, ClientRecord)> {
    if contains_key(s, key) {
        s.remove(key_index(s, key))
    } else {
        s
    }
}

/// `s` with the client under `key` marked as having a socket or not; `s`
/// itself when no client is stored under `key`.
pub open spec fn set_sender(s: Seq<(Seq<char>, ClientRecord)>, key: Seq<char>, connected: bool) -> Seq<(Seq<char>, ClientRecord)> {
    if contains_key(s, key) {
        let i = key_index(s, key);
        s.update(i, (key, ClientRecord { has_sender: connected, ..s[i].1 }))
    } else {
        s
    }
}

/// The clients of the registry, as the chat server sees clients.
pub open spec fn chat_clients(s: Seq<(Seq<char>, ClientRecord)>) -> Seq<ClientView> {
    s.map_values(|e: (Seq<char>, ClientRecord)| ClientView { user_id: e.1.user_id, nick: e.1.nick, channel: e.1.channel })
}

/// The entry `e` gets a line published to `channel`: it is in that channel
/// or has that user id, and it has a socket.
pub open spec fn receives(e: (Seq<char>, ClientRecord), channel: Seq<char>) -> bool {
    (e.1.channel == channel || e.1.user_id == channel) && e.1.has_sender
}

/// The line `message` for each entry that receives what is published to
/// `channel`, addressed by its key, in the registry's order.
pub open spec fn event_deliveries(s: Seq<(Seq<char>, ClientRecord)>, channel: Seq<char>, message: Seq<char>) -> Seq<DeliveryView>
    decreases s.len(),
{
    if s.len() == 0 {
        Seq::empty()
    } else if receives(s.last(), channel) {
        event_deliveries(s.drop_last(), channel, message).push(DeliveryView { recipient: s.last().0, text: message })
    } else {
        event_deliveries(s.drop_last(), channel, message)
    }
}

/// With distinct keys, the entry found at `i` is the one `key_index` names.
pub proof fn lemma_key_index(s: Seq<(Seq<char>, ClientRecord)>, key: Seq<char>, i: int)
    requires
        distinct_keys(s),
        0 <= i < s.len(),
        s[i].0 == key,
    ensures
        contains_key(s, key),
        key_index(s, key) == i,
{
    assert(contains_key(s, key));
}

/// Appending an entry under a key not in use keeps the keys distinct.
pub proof fn lemma_push_keeps_distinct_keys(s: Seq<(Seq<char>, ClientRecord)>, e: (Seq<char>, ClientRecord))
    requires
        distinct_keys(s),
        !contains_key(s, e.0),
    ensures
        distinct_keys(s.push(e)),
{
    let r = s.push(e);
    assert forall|a: int, b: int| 0 <= a < r.len() && 0 <= b < r.len() && a != b implies #[trigger] r[a].0
        != #[trigger] r[b].0 by {
        if a < s.len() {
            assert(r[a] == s[a]);
        }
        if b < s.len() {
            assert(r[b] == s[b]);
        }
    }
}

/// Replacing an entry by one with the same key keeps the keys distinct.
pub proof fn lemma_update_keeps_distinct_keys(s: Seq<(Seq<char>, ClientRecord)>, i: int, e: (Seq<char>, ClientRecord))
    requires
        distinct_keys(s),
        0 <= i < s.len(),
        e.0 == s[i].0,
    ensures
        distinct_keys(s.update(i, e)),
{
    let r = s.update(i, e);
    assert forall|a: int, b: int| 0 <= a < r.len() && 0 <= b < r.len() && a != b implies #[trigger] r[a].0
        != #[trigger] r[b].0 by {
        assert(r[a].0 == s[a].0);
        assert(r[b].0 == s[b].0);
    }
}

/// Removing an entry keeps the keys distinct.
pub proof fn lemma_remove_keeps_distinct_keys(s: Seq<(Seq<char>, ClientRecord)>, i: int)
    requires
        distinct_keys(s),
        0 <= i < s.len(),
    ensures
        distinct_keys(s.remove(i)),
{
    let r = s.remove(i);
    assert forall|a: int, b: int| 0 <= a < r.len() && 0 <= b < r.len() && a != b implies #[trigger] r[a].0
        != #[trigger] r[b].0 by {
        let a2 = if a < i { a } else { a + 1 };
        let b2 = if b < i { b } else { b + 1 };
        assert(r[a] == s[a2]);
        assert(r[b] == s[b2]);
    }
}

/// The model of one registry entry.
pub open spec fn entry_view(e: (String, Client)) -> (Seq<char>, ClientRecord) {
    (e.0@, e.1@)
}

/// The registered clients, each under its registration id, in the order in
/// which they were registered.
pub struct Clients {
    entries: Vec<(String, Client)>,
}

impl View for Clients {
    type V = Seq<(Seq<char>, ClientRecord)>;

    closed spec fn view(&self) -> Seq<(Seq<char>, ClientRecord)> {
        self.entries@.map_values(|e: (String, Client)| entry_view(e))
    }
}

impl Clients {
    /// Every registry keeps its keys distinct; `use_type_invariant` gives a
    /// caller this fact for any registry it holds.
    #[verifier::type_invariant]
    pub open spec fn well_formed(self) -> bool {
        distinct_keys(self@)
    }

    /// An empty registry.
    pub fn new() -> (r: Clients)
        ensures
            r@ == Seq::<(Seq<char>, ClientRecord)>::empty(),
    {
        let r = Clients { entries: Vec::new() };
        assert(r@ =~= Seq::<(Seq<char>, ClientRecord)>::empty());
        r
    }

    /// The position of the entry with key `key`.
    fn find(&self, key: &String) -> (r: Option<usize>)
        ensures
            match r {
                Some(i) => i < self@.len() && self@[i as int].0 == key@ && contains_key(self@, key@)
                    && key_index(self@, key@) == i,
                None => !contains_key(self@, key@),
            },
    {
        proof {
            use_type_invariant(self);
        }
        let mut i: usize = 0;
        while i < self.entries.len()
            invariant
                i <= self.entries@.len(),
                distinct_keys(self@),
                forall|j: int| 0 <= j < i ==> #[trigger] self@[j].0 != key@,
            decreases self.entries@.len() - i,
        {
            if self.entries[i].0 == *key {
                proof {
                    lemma_key_index(self@, key@, i as int);
                }
                return Some(i);
            }
            i = i + 1;
        }
        None
    }

    /// Stores `client` under `key`, replacing the client stored there.
    pub fn insert(&mut self, key: String, client: Client)
        ensures
            final(self)@ == insert_entry(old(self)@, key@, client@),
    {
        proof {
            use_type_invariant(&*self);
        }
        let ghost old_entries = self.entries@;
        let ghost e = (key@, client@);
        let found = self.find(&key);
        let entry = (key, client);
        assert(entry_view(entry) == e);
        let mut v: Vec<(String, Client)> = Vec::new();
        std::mem::swap(&mut v, &mut self.entries);
        match found {
            Some(i) => {
                proof {
                    assert(old_entries.update(i as int, entry).map_values(|e: (String, Client)| entry_view(e))
                        =~= old_entries.map_values(|e: (String, Client)| entry_view(e)).update(i as int, e));
                }
                v.set(i, entry);
            },
            None => {
                proof {
                    assert(old_entries.push(entry).map_values(|e: (String, Client)| entry_view(e))
                        =~= old_entries.map_values(|e: (String, Client)| entry_view(e)).push(e));
                }
                v.push(entry);
            },
        }
        self.entries = v;
    }

    /// Removes the client stored under `key`, if there is one.
    pub fn remove(&mut self, key: &str)
        ensures
            final(self)@ == remove_entry(old(self)@, key@),
            !contains_key(final(self)@, key@),
    {
        proof {
            use_type_invariant(&*self);
        }
        let k = String::from_str(key);
        match self.find(&k) {
            Some(i) => {
                let ghost old_entries = self.entries@;
                let ghost s = self@;
                proof {
                    assert(old_entries.remove(i as int).map_values(|e: (String, Client)| entry_view(e)) =~= s.remove(i as int));
                    lemma_remove_keeps_distinct_keys(s, i as int);
                }
                let mut v: Vec<(String, Client)> = Vec::new();
                std::mem::swap(&mut v, &mut self.entries);
                v.remove(i);
                self.entries = v;
            },
            None => {},
        }
    }

    /// A copy of the client stored under `key`, if there is one.
    pub fn get(&self, key: &str) -> (r: Option<Client>)
        ensures
            r is Some == contains_key(self@, key@),
            r matches Some(c) ==> c@ == self@[key_index(self@, key@)].1,
    {
        let k = String::from_str(key);
        match self.find(&k) {
            Some(i) => Some(self.entries[i].1.duplicate()),
            None => None,
        }
    }

    /// Marks the client stored under `key` as having a socket attached
    /// (`connected`) or not; does nothing when no client is stored there.
    pub fn set_connected(&mut self, key: &str, connected: bool)
        ensures
            final(self)@ == set_sender(old(self)@, key@, connected),
    {
        match self.get(key) {
            Some(mut c) => {
                c.has_sender = connected;
                self.insert(String::from_str(key), c);
            },
            None => {},
        }
    }

    /// The registered clients, each under its key, in order.
    pub fn entries(&self) -> (r: &Vec<(String, Client)>)
        ensures
            r@.len() == self@.len(),
            forall|j: int| 0 <= j < r@.len() ==> entry_view(#[trigger] r@[j]) == self@[j],
    {
        &self.entries
    }

    /// The number of registered clients.
    pub fn len(&self) -> (r: usize)
        ensures
            r == self@.len(),
    {
        self.entries.len()
    }

    /// The nicknames of the clients in `channel`, one per line.
    fn users_in(&self, channel: &String) -> (r: String)
        ensures
            r@ == users_text(chat_clients(self@), channel@),
    {
        let mut r = String::new();
        let mut i: usize = 0;
        while i < self.entries.len()
            invariant
                i <= self.entries@.len(),
                r@ == users_text(chat_clients(self@.take(i as int)), channel@),
            decreases self.entries@.len() - i,
        {
            proof {
                assert(chat_clients(self@.take(i + 1)).drop_last() =~= chat_clients(self@.take(i as int)));
            }
            if self.entries[i].1.channel == *channel {
                r.append(self.entries[i].1.nick.as_str());
                r.append("\n");
            }
            i = i + 1;
        }
        proof {
            assert(self@.take(self@.len() as int) =~= self@);
        }
        r
    }

    /// The channel of each client followed by a newline.
    fn channel_lines(&self) -> (r: Vec<String>)
        ensures
            string_views(r@) == channel_lines(chat_clients(self@)),
    {
        let mut r: Vec<String> = Vec::new();
        let mut i: usize = 0;
        while i < self.entries.len()
            invariant
                i <= self.entries@.len(),
                string_views(r@) == channel_lines(chat_clients(self@.take(i as int))),
            decreases self.entries@.len() - i,
        {
            let mut line = self.entries[i].1.channel.clone();
            line.append("\n");
            proof {
                assert(line@ == self@[i as int].1.channel + "\n"@);
                assert(string_views(r@.push(line)) =~= string_views(r@).push(line@));
                assert(channel_lines(chat_clients(self@.take(i + 1))) =~= channel_lines(chat_clients(self@.take(i as int))).push(line@));
            }
            r.push(line);
            i = i + 1;
        }
        proof {
            assert(self@.take(self@.len() as int) =~= self@);
        }
        r
    }
}

/// Gives `client` the nickname `nick`.
pub fn set_nick(client: &mut Client, nick: &str)
    ensures
        final(client)@ == (ClientRecord { nick: nick@, ..old(client)@ }),
{
    client.nick = String::from_str(nick);
}

/// Moves `client` to `channel`.
pub fn join(client: &mut Client, channel: &str)
    ensures
        final(client)@ == (ClientRecord { channel: channel@, ..old(client)@ }),
{
    client.channel = String::from_str(channel);
}

/// Sends `client` each channel in use, once, one per line.
pub fn list(client: &Client, clients: &Clients) -> (r: Vec<Delivery>)
    ensures
        delivery_views(r@) == event_deliveries(clients@, client@.user_id, list_text(chat_clients(clients@))),
{
    let lines = unique_lines(clients.channel_lines());
    let channels_list = concat_strings(&lines);
    send_system_message(client.user_id.clone(), channels_list, clients)
}

/// Sends `client` the nicknames of the clients in its channel.
pub fn users(client: &Client, clients: &Clients) -> (r: Vec<Delivery>)
    ensures
        delivery_views(r@) == event_deliveries(clients@, client@.user_id, users_text(chat_clients(clients@), client@.channel)),
{
    let users_list = clients.users_in(&client.channel);
    send_system_message(client.user_id.clone(), users_list, clients)
}

/// Publishes `message` to `channel` on behalf of the system.
pub fn send_system_message(channel: String, message: String, clients: &Clients) -> (r: Vec<Delivery>)
    ensures
        delivery_views(r@) == event_deliveries(clients@, channel@, message@),
{
    publish_message(Event { channel, nick: Some(String::from_str("System")), message }, clients)
}

/// Sends the event's message, alone, to every client with a socket that is in
/// the event's channel or has it as user id.
pub fn publish_message(body: Event, clients: &Clients) -> (r: Vec<Delivery>)
    ensures
        delivery_views(r@) == event_deliveries(clients@, body.channel@, body.message@),
{
    let mut r: Vec<Delivery> = Vec::new();
    let mut i: usize = 0;
    while i < clients.entries.len()
        invariant
            i <= clients.entries@.len(),
            delivery_views(r@) == event_deliveries(clients@.take(i as int), body.channel@, body.message@),
        decreases clients.entries@.len() - i,
    {
        proof {
            assert(clients@.take(i + 1).drop_last() =~= clients@.take(i as int));
        }
        let entry = &clients.entries[i];
        if (entry.1.channel == body.channel || entry.1.user_id == body.channel) && entry.1.has_sender {
            let d = Delivery { recipient: entry.0.clone(), text: body.message.clone() };
            proof {
                lemma_delivery_views_push(r@, d);
            }
            r.push(d);
        }
        i = i + 1;
    }
    proof {
        assert(clients@.take(clients@.len() as int) =~= clients@);
    }
    r
}

} // verus!

//! The chat server: the connected clients, and what each of their commands
//! changes and sends.
//!
//! A client is known by its id. Every client has a nickname and sits in one
//! channel. A line sent "to" a target reaches every client whose channel is the
//! target and every client whose id is the target.

use vstd::prelude::*;
use vstd::string::*;
use vstd::utf8::is_ascii_chars;
use crate::delivery::{Delivery, DeliveryView, delivery_views, lemma_delivery_views_push, lemma_delivery_views_add};
use crate::text::{split_once_space, split_command, concat_strings, concat_all, dedup_first, string_views, is_simple_uuid};
use crate::trusted::{new_user_id, unique_lines};

verus! {

/// The model of a [`Client`].
pub struct ClientView {
    pub user_id: Seq<char>,
    pub nick: Seq<char>,
    pub channel: Seq<char>,
}

/// A connected client: its id, its nickname and the channel it is in.
pub struct Client {
    pub user_id: String,
    pub nick: String,
    pub channel: String,
}

impl View for Client {
    type V = ClientView;

    open spec fn view(&self) -> ClientView {
        ClientView { user_id: self.user_id@, nick: self.nick@, channel: self.channel@ }
    }
}

impl Client {
    /// A copy of this client.
    pub fn duplicate(&self) -> (r: Client)
        ensures
            r@ == self@,
    {
        Client {
            user_id: self.user_id.clone(),
            nick: self.nick.clone(),
            channel: self.channel.clone(),
        }
    }
}

// ---------------------------------------------------------------------------
// The model: a sequence of clients with pairwise distinct ids.
// ---------------------------------------------------------------------------

/// No two clients share an id.
pub open spec fn distinct_ids(s: Seq<ClientView>) -> bool {
    forall|i: int, j: int|
        0 <= i < s.len() && 0 <= j < s.len() && i != j ==> #[trigger] s[i].user_id != #[trigger] s[j].user_id
}

/// Some client has the id `id`.
pub open spec fn contains_id(s: Seq<ClientView>, id: Seq<char>) -> bool {
    exists|i: int| 0 <= i < s.len() && #[trigger] s[i].user_id == id
}

/// The position of the client with id `id` (meaningful when there is one).
pub open spec fn index_of(s: Seq<ClientView>, id: Seq<char>) -> int {
    choose|i: int| 0 <= i < s.len() && #[trigger] s[i].user_id == id
}

/// The ids of the clients, in order.
pub open spec fn ids(s: Seq<ClientView>) -> Seq<Seq<char>> {
    s.map_values(|c: ClientView| c.user_id)
}

/// `s` with `c` stored under its id: the client with that id is replaced in
/// place, or `c` is appended when there is none.
pub open spec fn insert_client(s: Seq<ClientView>, c: ClientView) -> Seq<ClientView> {
    if contains_id(s, c.user_id) {
        s.update(index_of(s, c.user_id), c)
    } else {
        s.push(c)
    }
}

/// `s` without the client whose id is `id`.
pub open spec fn remove_id(s: Seq<ClientView>, id: Seq<char>) -> Seq<ClientView> {
    if contains_id(s, id) {
        s.remove(index_of(s, id))
    } else {
        s
    }
}

/// The text of a published line: the author's name, a colon and the message.
pub open spec fn published_text(message: Seq<char>, nick: Seq<char>) -> Seq<char> {
    nick + ": "@ + message
}

/// The text that `send_system_message` publishes for `message`. It hands
/// `"System"` over as the message and `message` as the author, so the line
/// reads `"<message>: System"`.
pub open spec fn system_text(message: Seq<char>) -> Seq<char> {
    published_text("System"@, message)
}

/// The client `c` is reached by a line sent to `target`.
pub open spec fn addressed(c: ClientView, target: Seq<char>) -> bool {
    c.channel == target || c.user_id == target
}

/// One line `text` for each client reached by `target`, in the clients' order.
pub open spec fn deliveries(s: Seq<ClientView>, target: Seq<char>, text: Seq<char>) -> Seq<DeliveryView>
    decreases s.len(),
{
    if s.len() == 0 {
        Seq::empty()
    } else if addressed(s.last(), target) {
        deliveries(s.drop_last(), target, text).push(DeliveryView { recipient: s.last().user_id, text })
    } else {
        deliveries(s.drop_last(), target, text)
    }
}

/// The nickname of each client in `channel`, each followed by a newline.
pub open spec fn users_text(s: Seq<ClientView>, channel: Seq<char>) -> Seq<char>
    decreases s.len(),
{
    if s.len() == 0 {
        Seq::empty()
    } else if s.last().channel == channel {
        users_text(s.drop_last(), channel) + s.last().nick + "\n"@
    } else {
        users_text(s.drop_last(), channel)
    }
}

/// The channel of each client followed by a newline, in the clients' order.
pub open spec fn channel_lines(s: Seq<ClientView>) -> Seq<Seq<char>> {
    s.map_values(|c: ClientView| c.channel + "\n"@)
}

/// The channel list: each channel in use once, followed by a newline, in the
/// order in which the channels first occur among the clients.
pub open spec fn list_text(s: Seq<ClientView>) -> Seq<char> {
    concat_all(dedup_first(channel_lines(s)))
}

/// The nickname given to a new client with id `id`.
pub open spec fn default_nick(id: Seq<char>) -> Seq<char> {
    "user"@ + id.take(5)
}

/// A new client as `add_client` makes it.
pub open spec fn new_client(id: Seq<char>) -> ClientView {
    ClientView { user_id: id, nick: default_nick(id), channel: "general"@ }
}

/// Adding the client with id `id`: the new state and the welcome line.
pub open spec fn add_step(s: Seq<ClientView>, id: Seq<char>) -> (Seq<ClientView>, Seq<DeliveryView>) {
    let c = new_client(id);
    let s2 = insert_client(s, c);
    (s2, deliveries(s2, c.nick, system_text("Welcome to the server"@)))
}

/// `/nick` by the client at position `i`, with or without a new nickname.
pub open spec fn nick_step(s: Seq<ClientView>, i: int, nick: Option<Seq<char>>) -> (Seq<ClientView>, Seq<DeliveryView>) {
    let c = s[i];
    match nick {
        Some(n) => {
            let s2 = s.update(i, ClientView { nick: n, ..c });
            (s2, deliveries(s2, c.channel, system_text(c.nick + " changed nick to "@ + n)))
        },
        None => (s, deliveries(s, c.user_id, system_text("Current nick: "@ + c.nick))),
    }
}

/// `/join` by the client at position `i`, with or without a channel.
pub open spec fn join_step(s: Seq<ClientView>, i: int, channel: Option<Seq<char>>) -> (Seq<ClientView>, Seq<DeliveryView>) {
    let c = s[i];
    match channel {
        Some(ch) => if ch != c.channel {
            let left = deliveries(s, c.channel, system_text(c.nick + " left the channel"@));
            let s2 = s.update(i, ClientView { channel: ch, ..c });
            let joined = deliveries(s2, ch, system_text(c.nick + " joined the channel"@));
            (s2, left + joined)
        } else {
            (s, deliveries(s, c.user_id, system_text("Already in channel '"@ + c.channel + "'"@)))
        },
        None => (s, deliveries(s, c.user_id, system_text("Current channel: '"@ + c.channel + "'"@))),
    }
}

/// `/users` by the client at position `i`.
pub open spec fn users_step(s: Seq<ClientView>, i: int) -> Seq<DeliveryView> {
    deliveries(s, s[i].user_id, system_text(users_text(s, s[i].channel)))
}

/// `/list` by the client at position `i`.
pub open spec fn list_step(s: Seq<ClientView>, i: int) -> Seq<DeliveryView> {
    deliveries(s, s[i].user_id, system_text(list_text(s)))
}

/// The answer to a command word that is not known.
pub open spec fn unknown_command_text(command: Seq<char>) -> Seq<char> {
    "Unknown command '"@ + command + "'"@
}

/// What the client at position `i` says in its channel: the message `m`,
/// written by its nickname, to everyone in its channel.
pub open spec fn chat_step(s: Seq<ClientView>, i: int, m: Seq<char>) -> Seq<DeliveryView> {
    deliveries(s, s[i].channel, published_text(m, s[i].nick))
}

/// A text message `m` from the client with id `id`: the new state and the
/// lines to send. A message from an id that is not connected does nothing. A
/// message that starts with `/` is a command, cut at its first space into the
/// command word and its parameters; any other message is published to the
/// sender's channel under the sender's nickname.
pub open spec fn handle_step(s: Seq<ClientView>, id: Seq<char>, m: Seq<char>) -> (Seq<ClientView>, Seq<DeliveryView>) {
    if m.len() > 0 && m[0] == '/' && contains_id(s, id) {
        let command = split_command(m).0;
        let params = split_command(m).1;
        let i = index_of(s, id);
        if command == "/nick"@ {
            nick_step(s, i, params)
        } else if command == "/join"@ {
            join_step(s, i, params)
        } else if command == "/ping"@ {
            (s, Seq::empty())
        } else if command == "/users"@ {
            (s, users_step(s, i))
        } else if command == "/list"@ {
            (s, list_step(s, i))
        } else {
            (s, deliveries(s, id, system_text(unknown_command_text(command))))
        }
    } else if contains_id(s, id) {
        (s, chat_step(s, index_of(s, id), m))
    } else {
        (s, Seq::empty())
    }
}

/// The model of an optional string slice.
pub open spec fn str_opt_view(o: Option<&str>) -> Option<Seq<char>> {
    match o {
        Some(s) => Some(s@),
        None => None,
    }
}

/// With distinct ids, the client found at `i` is the one `index_of` names.
pub proof fn lemma_index_of(s: Seq<ClientView>, id: Seq<char>, i: int)
    requires
        distinct_ids(s),
        0 <= i < s.len(),
        s[i].user_id == id,
    ensures
        contains_id(s, id),
        index_of(s, id) == i,
{
    assert(contains_id(s, id));
}

/// Removing a client keeps the ids distinct.
pub proof fn lemma_remove_keeps_distinct(s: Seq<ClientView>, i: int)
    requires
        distinct_ids(s),
        0 <= i < s.len(),
    ensures
        distinct_ids(s.remove(i)),
{
    let r = s.remove(i);
    assert forall|a: int, b: int| 0 <= a < r.len() && 0 <= b < r.len() && a != b implies #[trigger] r[a].user_id
        != #[trigger] r[b].user_id by {
        let a2 = if a < i { a } else { a + 1 };
        let b2 = if b < i { b } else { b + 1 };
        assert(r[a] == s[a2]);
        assert(r[b] == s[b2]);
    }
}

/// Appending a client under an id not in use keeps the ids distinct.
pub proof fn lemma_push_keeps_distinct(s: Seq<ClientView>, c: ClientView)
    requires
        distinct_ids(s),
        !contains_id(s, c.user_id),
    ensures
        distinct_ids(s.push(c)),
{
    let r = s.push(c);
    assert forall|a: int, b: int| 0 <= a < r.len() && 0 <= b < r.len() && a != b implies #[trigger] r[a].user_id
        != #[trigger] r[b].user_id by {
        if a < s.len() {
            assert(r[a] == s[a]);
        }
        if b < s.len() {
            assert(r[b] == s[b]);
        }
    }
}

/// Replacing a client by one with the same id keeps the ids distinct.
pub proof fn lemma_update_keeps_distinct(s: Seq<ClientView>, i: int, c: ClientView)
    requires
        distinct_ids(s),
        0 <= i < s.len(),
        c.user_id == s[i].user_id,
    ensures
        distinct_ids(s.update(i, c)),
{
    let r = s.update(i, c);
    assert forall|a: int, b: int| 0 <= a < r.len() && 0 <= b < r.len() && a != b implies #[trigger] r[a].user_id
        != #[trigger] r[b].user_id by {
        assert(r[a].user_id == s[a].user_id);
        assert(r[b].user_id == s[b].user_id);
    }
}

// ---------------------------------------------------------------------------
// The executable server.
// ---------------------------------------------------------------------------

/// The connected clients, in the order in which they arrived.
pub struct ChatServer {
    clients: Vec<Client>,
}

impl View for ChatServer {
    type V = Seq<ClientView>;

    closed spec fn view(&self) -> Seq<ClientView> {
        self.clients@.map_values(|c: Client| c@)
    }
}

impl ChatServer {
    /// Every server keeps its clients' ids distinct; `use_type_invariant`
    /// gives a caller this fact for any server it holds.
    #[verifier::type_invariant]
    pub open spec fn well_formed(self) -> bool {
        distinct_ids(self@)
    }

    /// A server with no clients.
    pub fn new() -> (r: ChatServer)
        ensures
            r@ == Seq::<ClientView>::empty(),
    {
        let r = ChatServer { clients: Vec::new() };
        assert(r@ =~= Seq::<ClientView>::empty());
        r
    }

    /// The connected clients, in order.
    pub fn clients(&self) -> (r: &Vec<Client>)
        ensures
            r@.map_values(|c: Client| c@) == self@,
    {
        &self.clients
    }

    /// The position of the client with id `id`.
    fn find(&self, id: &String) -> (r: Option<usize>)
        ensures
            match r {
                Some(i) => i < self@.len() && self@[i as int].user_id == id@ && contains_id(self@, id@)
                    && index_of(self@, id@) == i,
                None => !contains_id(self@, id@),
            },
    {
        proof {
            use_type_invariant(self);
        }
        let mut i: usize = 0;
        while i < self.clients.len()
            invariant
                i <= self.clients@.len(),
                distinct_ids(self@),
                forall|j: int| 0 <= j < i ==> #[trigger] self@[j].user_id != id@,
            decreases self.clients@.len() - i,
        {
            if self.clients[i].user_id == *id {
                proof {
                    lemma_index_of(self@, id@, i as int);
                }
                return Some(i);
            }
            i = i + 1;
        }
        None
    }

    /// The client with id `id`, if it is connected.
    pub fn get(&self, id: &str) -> (r: Option<Client>)
        ensures
            r is Some == contains_id(self@, id@),
            r matches Some(c) ==> c@ == self@[index_of(self@, id@)],
    {
        let key = String::from_str(id);
        match self.find(&key) {
            Some(i) => Some(self.clients[i].duplicate()),
            None => None,
        }
    }

    /// One line `text` for each client reached by `target`.
    fn deliver(&self, target: &String, text: &String) -> (r: Vec<Delivery>)
        ensures
            delivery_views(r@) == deliveries(self@, target@, text@),
    {
        let mut r: Vec<Delivery> = Vec::new();
        let mut i: usize = 0;
        while i < self.clients.len()
            invariant
                i <= self.clients@.len(),
                delivery_views(r@) == deliveries(self@.take(i as int), target@, text@),
            decreases self.clients@.len() - i,
        {
            proof {
                assert(self@.take(i + 1).drop_last() =~= self@.take(i as int));
            }
            let c = &self.clients[i];
            if c.channel == *target || c.user_id == *target {
                let d = Delivery { recipient: c.user_id.clone(), text: text.clone() };
                proof {
                    lemma_delivery_views_push(r@, d);
                }
                r.push(d);
            }
            i = i + 1;
        }
        proof {
            assert(self@.take(self@.len() as int) =~= self@);
        }
        r
    }

    /// Sends `message`, written by `nick`, to every client reached by `channel`.
    pub fn publish_message(&self, channel: &str, message: &str, nick: &str) -> (r: Vec<Delivery>)
        ensures
            delivery_views(r@) == deliveries(self@, channel@, published_text(message@, nick@)),
    {
        let target = String::from_str(channel);
        let mut text = String::from_str(nick);
        text.append(": ");
        text.append(message);
        self.deliver(&target, &text)
    }

    /// Publishes `message` on behalf of the system to every client reached by
    /// `channel`.
    pub fn send_system_message(&self, channel: &str, message: &str) -> (r: Vec<Delivery>)
        ensures
            delivery_views(r@) == deliveries(self@, channel@, system_text(message@)),
    {
        self.publish_message(channel, "System", message)
    }

    /// Adds a client with a fresh random id, in channel `general`, with a
    /// nickname made of `user` and the first five digits of the id, and
    /// welcomes it. Returns the id and the lines to send.
    pub fn add_client(&mut self) -> (r: (String, Vec<Delivery>))
        ensures
            is_simple_uuid(r.0@),
            (final(self)@, delivery_views(r.1@)) == add_step(old(self)@, r.0@),
    {
        let id = new_user_id();
        proof {
            assert forall|k: int| 0 <= k < id@.take(5).len() implies '\0' <= #[trigger] id@.take(5)[k] <= '\u{7f}' by {
                assert(crate::text::is_lower_hex(id@[k]));
            }
        }
        let sent = self.add_client_with_id(id.clone());
        (id, sent)
    }

    /// Adds (or replaces) the client with id `id`, as `add_client` does with
    /// the id it draws.
    pub fn add_client_with_id(&mut self, id: String) -> (r: Vec<Delivery>)
        requires
            id@.len() >= 5,
            is_ascii_chars(id@.take(5)),
        ensures
            (final(self)@, delivery_views(r@)) == add_step(old(self)@, id@),
    {
        proof {
            use_type_invariant(&*self);
        }
        let mut nick = String::from_str("user");
        nick.append(id.as_str().substring_char(0, 5));
        let client = Client { user_id: id.clone(), nick: nick.clone(), channel: String::from_str("general") };
        let ghost old_clients = self.clients@;
        let ghost c = client@;
        proof {
            assert(id@.subrange(0, 5) =~= id@.take(5));
            assert(c == new_client(id@));
        }
        match self.find(&id) {
            Some(i) => {
                proof {
                    assert(old_clients.update(i as int, client).map_values(|c: Client| c@) =~= self@.update(i as int, c));
                }
                let mut v: Vec<Client> = Vec::new();
                std::mem::swap(&mut v, &mut self.clients);
                v.set(i, client);
                self.clients = v;
            },
            None => {
                proof {
                    assert(old_clients.push(client).map_values(|c: Client| c@) =~= self@.push(c));
                }
                let mut v: Vec<Client> = Vec::new();
                std::mem::swap(&mut v, &mut self.clients);
                v.push(client);
                self.clients = v;
            },
        }
        self.send_system_message(nick.as_str(), "Welcome to the server")
    }

    /// Removes the client with id `id`, if it is connected.
    pub fn remove_client(&mut self, id: &str)
        ensures
            final(self)@ == remove_id(old(self)@, id@),
            !contains_id(final(self)@, id@),
    {
        proof {
            use_type_invariant(&*self);
        }
        let key = String::from_str(id);
        match self.find(&key) {
            Some(i) => {
                let ghost old_clients = self.clients@;
                proof {
                    assert(old_clients.remove(i as int).map_values(|c: Client| c@) =~= self@.remove(i as int));
                    use_type_invariant(&*self);
                    lemma_remove_keeps_distinct(self@, i as int);
                }
                let mut v: Vec<Client> = Vec::new();
                std::mem::swap(&mut v, &mut self.clients);
                v.remove(i);
                self.clients = v;
            },
            None => {},
        }
    }

    /// Stores `c` at position `i`, which holds the client with the same id.
    fn replace_at(&mut self, i: usize, c: Client)
        requires
            i < old(self)@.len(),
            c@.user_id == old(self)@[i as int].user_id,
        ensures
            final(self)@ == old(self)@.update(i as int, c@),
    {
        proof {
            use_type_invariant(&*self);
        }
        let ghost old_clients = self.clients@;
        let ghost cv = c@;
        proof {
            assert(old_clients.update(i as int, c).map_values(|x: Client| x@) =~= self@.update(i as int, cv));
        }
        let mut v: Vec<Client> = Vec::new();
        std::mem::swap(&mut v, &mut self.clients);
        v.set(i, c);
        self.clients = v;
    }

    /// `/nick` from the client with id `id`: with a nickname, renames the
    /// client and tells its channel; without one, tells the client its
    /// current nickname.
    pub fn nick(&mut self, id: &str, nick: Option<&str>) -> (r: Vec<Delivery>)
        requires
            contains_id(old(self)@, id@),
        ensures
            (final(self)@, delivery_views(r@)) == nick_step(old(self)@, index_of(old(self)@, id@), str_opt_view(nick)),
    {
        let key = String::from_str(id);
        let i = self.find(&key).unwrap();
        match nick {
            Some(set_nick) => {
                let old_nick = self.clients[i].nick.clone();
                let channel = self.clients[i].channel.clone();
                let mut c = self.clients[i].duplicate();
                c.nick = String::from_str(set_nick);
                self.replace_at(i, c);
                let mut text = old_nick;
                text.append(" changed nick to ");
                text.append(set_nick);
                self.send_system_message(channel.as_str(), text.as_str())
            },
            None => {
                let mut text = String::from_str("Current nick: ");
                text.append(self.clients[i].nick.as_str());
                self.send_system_message(self.clients[i].user_id.as_str(), text.as_str())
            },
        }
    }

    /// `/join` from the client with id `id`: with a channel other than its
    /// own, tells its old channel that it left, moves it, and tells the new
    /// channel that it joined; otherwise tells the client where it is.
    pub fn join(&mut self, id: &str, channel: Option<&str>) -> (r: Vec<Delivery>)
        requires
            contains_id(old(self)@, id@),
        ensures
            (final(self)@, delivery_views(r@)) == join_step(old(self)@, index_of(old(self)@, id@), str_opt_view(channel)),
    {
        let key = String::from_str(id);
        let i = self.find(&key).unwrap();
        match channel {
            Some(set_channel) => {
                let wanted = String::from_str(set_channel);
                if wanted != self.clients[i].channel {
                    let mut left_text = self.clients[i].nick.clone();
                    left_text.append(" left the channel");
                    let left = self.send_system_message(self.clients[i].channel.as_str(), left_text.as_str());
                    let mut joined_text = self.clients[i].nick.clone();
                    joined_text.append(" joined the channel");
                    let mut c = self.clients[i].duplicate();
                    c.channel = wanted;
                    self.replace_at(i, c);
                    let joined = self.send_system_message(set_channel, joined_text.as_str());
                    let mut all = left;
                    let mut rest = joined;
                    proof {
                        lemma_delivery_views_add(all@, rest@);
                    }
                    all.append(&mut rest);
                    all
                } else {
                    let mut text = String::from_str("Already in channel '");
                    text.append(self.clients[i].channel.as_str());
                    text.append("'");
                    self.send_system_message(self.clients[i].user_id.as_str(), text.as_str())
                }
            },
            None => {
                let mut text = String::from_str("Current channel: '");
                text.append(self.clients[i].channel.as_str());
                text.append("'");
                self.send_system_message(self.clients[i].user_id.as_str(), text.as_str())
            },
        }
    }

    /// The nicknames of the clients in `channel`, one per line.
    fn users_in(&self, channel: &String) -> (r: String)
        ensures
            r@ == users_text(self@, channel@),
    {
        let mut r = String::new();
        let mut i: usize = 0;
        while i < self.clients.len()
            invariant
                i <= self.clients@.len(),
                r@ == users_text(self@.take(i as int), channel@),
            decreases self.clients@.len() - i,
        {
            proof {
                assert(self@.take(i + 1).drop_last() =~= self@.take(i as int));
            }
            if self.clients[i].channel == *channel {
                r.append(self.clients[i].nick.as_str());
                r.append("\n");
            }
            i = i + 1;
        }
        proof {
            assert(self@.take(self@.len() as int) =~= self@);
        }
        r
    }

    /// `/users` from the client with id `id`: sends it the nicknames of the
    /// clients in its channel.
    pub fn users(&self, id: &str) -> (r: Vec<Delivery>)
        requires
            contains_id(self@, id@),
        ensures
            delivery_views(r@) == users_step(self@, index_of(self@, id@)),
    {
        let key = String::from_str(id);
        let i = self.find(&key).unwrap();
        let users_list = self.users_in(&self.clients[i].channel);
        self.send_system_message(self.clients[i].user_id.as_str(), users_list.as_str())
    }

    /// The channel of each client followed by a newline.
    fn channel_lines(&self) -> (r: Vec<String>)
        ensures
            string_views(r@) == channel_lines(self@),
    {
        let mut r: Vec<String> = Vec::new();
        let mut i: usize = 0;
        while i < self.clients.len()
            invariant
                i <= self.clients@.len(),
                string_views(r@) == channel_lines(self@.take(i as int)),
            decreases self.clients@.len() - i,
        {
            let mut line = self.clients[i].channel.clone();
            line.append("\n");
            proof {
                assert(line@ == self@[i as int].channel + "\n"@);
                assert(string_views(r@.push(line)) =~= string_views(r@).push(line@));
                assert(channel_lines(self@.take(i + 1)) =~= channel_lines(self@.take(i as int)).push(line@));
            }
            r.push(line);
            i = i + 1;
        }
        proof {
            assert(self@.take(self@.len() as int) =~= self@);
        }
        r
    }

    /// `/list` from the client with id `id`: sends it each channel in use,
    /// once, one per line.
    pub fn list(&self, id: &str) -> (r: Vec<Delivery>)
        requires
            contains_id(self@, id@),
        ensures
            delivery_views(r@) == list_step(self@, index_of(self@, id@)),
    {
        let key = String::from_str(id);
        let i = self.find(&key).unwrap();
        let lines = unique_lines(self.channel_lines());
        let channels_list = concat_strings(&lines);
        self.send_system_message(self.clients[i].user_id.as_str(), channels_list.as_str())
    }

    /// A text message from the client with id `id`. A message that starts
    /// with `/` is a command, cut at its first space into the command word and
    /// its parameters: `/nick`, `/join`, `/ping` (which does nothing), `/users`
    /// and `/list`; any other word is answered as unknown. Any other message is
    /// published to the sender's channel, written by its nickname. Messages
    /// from ids that are not connected change nothing and send nothing.
    pub fn handle_message(&mut self, id: &str, message: &str) -> (r: Vec<Delivery>)
        ensures
            (final(self)@, delivery_views(r@)) == handle_step(old(self)@, id@, message@),
    {
        let key = String::from_str(id);
        let found = self.find(&key);
        let i = match found {
            Some(i) => i,
            None => {
                return Vec::new();
            },
        };
        let n = message.unicode_len();
        if n == 0 || message.get_char(0) != '/' {
            return self.publish_message(self.clients[i].channel.as_str(), message, self.clients[i].nick.as_str());
        }
        let (command, params) = split_once_space(message);
        let p: Option<&str> = match &params {
            Some(text) => Some(text.as_str()),
            None => None,
        };
        if command == String::from_str("/nick") {
            self.nick(id, p)
        } else if command == String::from_str("/join") {
            self.join(id, p)
        } else if command == String::from_str("/ping") {
            Vec::new()
        } else if command == String::from_str("/users") {
            self.users(id)
        } else if command == String::from_str("/list") {
            self.list(id)
        } else {
            let mut text = String::from_str("Unknown command '");
            text.append(command.as_str());
            text.append("'");
            self.send_system_message(id, text.as_str())
        }
    }
}

} // verus!

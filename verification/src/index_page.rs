//! The state of the chat page in the browser, and how each event changes it.
//!
//! The page shows the current channel's name, every line received so far and
//! the draft being typed. The page follows the server's join announcements to
//! keep the channel's name up to date.

use vstd::prelude::*;
use vstd::string::*;
use crate::text::{chars_of, matches_at, has_newline};

verus! {

/// The model of an [`IndexPageState`].
pub struct IndexPageStateView {
    pub channel: Seq<char>,
    pub messages: Seq<char>,
    pub draft: Seq<char>,
}

/// What the chat page holds: the channel's name, the received lines and the
/// draft.
pub struct IndexPageState {
    pub channel: String,
    pub messages: String,
    pub draft: String,
}

impl View for IndexPageState {
    type V = IndexPageStateView;

    open spec fn view(&self) -> IndexPageStateView {
        IndexPageStateView { channel: self.channel@, messages: self.messages@, draft: self.draft@ }
    }
}

/// `text` reads `"System: <name> joined <channel>"`, with a name and a
/// channel that are not empty and hold no newline: the announcements that
/// `^System: .+ joined (.+)$` matches.
pub open spec fn join_split(text: Seq<char>, name: Seq<char>, channel: Seq<char>) -> bool {
    &&& text == "System: "@ + name + " joined "@ + channel
    &&& name.len() > 0
    &&& channel.len() > 0
    &&& !name.contains('\n')
    &&& !channel.contains('\n')
}

/// `text` is a join announcement.
pub open spec fn is_join_announcement(text: Seq<char>) -> bool {
    exists|name: Seq<char>, channel: Seq<char>| join_split(text, name, channel)
}

/// `channel` is the channel that the announcement `text` names: among all the
/// ways to read `text` as an announcement, the one with the longest name (the
/// page's pattern `^System: .+ joined (.+)$` takes the name greedily), so
/// the shortest channel.
pub open spec fn announces(text: Seq<char>, channel: Seq<char>) -> bool {
    &&& exists|name: Seq<char>| join_split(text, name, channel)
    &&& forall|name2: Seq<char>, channel2: Seq<char>|
        #[trigger] join_split(text, name2, channel2) ==> channel.len() <= channel2.len()
}

/// The channel that the announcement `text` names.
pub open spec fn announced_channel(text: Seq<char>) -> Seq<char> {
    choose|channel: Seq<char>| announces(text, channel)
}

/// ` joined ` stands at position `q` of `text`.
pub open spec fn joined_at(text: Seq<char>, q: int) -> bool {
    text.subrange(q, q + 8) == " joined "@
}

/// What any reading of an announcement tells about its text: its length,
/// where the prefix, the name, ` joined ` and the channel stand, and that it
/// holds no newline.
proof fn lemma_split_facts(text: Seq<char>, name: Seq<char>, channel: Seq<char>)
    requires
        join_split(text, name, channel),
    ensures
        text.len() == 16 + name.len() + channel.len(),
        text.subrange(0, 8) == "System: "@,
        text.subrange(8 + name.len() as int, 16 + name.len() as int) == " joined "@,
        text.subrange(8, 8 + name.len() as int) == name,
        text.subrange(16 + name.len() as int, text.len() as int) == channel,
        !text.contains('\n'),
{
    reveal_strlit("System: ");
    reveal_strlit(" joined ");
    let p = "System: "@;
    let j = " joined "@;
    let q = 8 + name.len() as int;
    assert(text.subrange(0, 8) =~= p);
    assert(text.subrange(q, q + 8) =~= j);
    assert(text.subrange(8, q) =~= name);
    assert(text.subrange(q + 8, text.len() as int) =~= channel);
    if text.contains('\n') {
        let k = choose|k: int| 0 <= k < text.len() && text[k] == '\n';
        if k < 8 {
            assert(p[k] == text[k]);
        } else if k < q {
            assert(name[k - 8] == text[k]);
            assert(name.contains('\n'));
        } else if k < q + 8 {
            assert(j[k - q] == text[k]);
        } else {
            assert(channel[k - q - 8] == text[k]);
            assert(channel.contains('\n'));
        }
    }
}

/// A text that starts with the prefix, holds no newline, and has ` joined `
/// at `pos`, with something before and after it, is an announcement read at
/// `pos`.
proof fn lemma_split_at(text: Seq<char>, pos: int)
    requires
        text.subrange(0, 8) == "System: "@,
        !text.contains('\n'),
        9 <= pos,
        pos + 9 <= text.len(),
        text.subrange(pos, pos + 8) == " joined "@,
    ensures
        join_split(text, text.subrange(8, pos), text.subrange(pos + 8, text.len() as int)),
{
    reveal_strlit("System: ");
    reveal_strlit(" joined ");
    let name = text.subrange(8, pos);
    let channel = text.subrange(pos + 8, text.len() as int);
    assert(text =~= "System: "@ + name + " joined "@ + channel);
    if name.contains('\n') {
        let k = choose|k: int| 0 <= k < name.len() && name[k] == '\n';
        assert(text[k + 8] == '\n');
    }
    if channel.contains('\n') {
        let k = choose|k: int| 0 <= k < channel.len() && channel[k] == '\n';
        assert(text[k + pos + 8] == '\n');
    }
}

/// The channel that the join announcement `text` names, when `text` is one:
/// it must start with `System: `, hold no newline, and hold ` joined ` with a
/// name before it and a channel after it; the last such ` joined ` is taken.
pub fn join_announcement_channel(text: &str) -> (r: Option<String>)
    ensures
        r is Some <==> is_join_announcement(text@),
        r matches Some(c) ==> announces(text@, c@),
{
    let t = chars_of(text);
    let prefix = chars_of("System: ");
    let joined = chars_of(" joined ");
    let ghost s = text@;
    proof {
        reveal_strlit("System: ");
        reveal_strlit(" joined ");
    }
    let n = t.len();
    if n < 18 || !matches_at(&t, 0, &prefix) || has_newline(&t) {
        proof {
            assert forall|a: Seq<char>, b: Seq<char>| !join_split(s, a, b) by {
                if join_split(s, a, b) {
                    lemma_split_facts(s, a, b);
                }
            }
        }
        return None;
    }
    assert(prefix@.len() == 8);
    assert(s.subrange(0, 8) == "System: "@);
    let mut p: usize = n - 9;
    while p >= 9
        invariant
            n == s.len(),
            t@ == s,
            text@ == s,
            s.subrange(0, 8) == "System: "@,
            !s.contains('\n'),
            joined@ == " joined "@,
            joined@.len() == 8,
            8 <= p <= n - 9,
            forall|q: int| p < q <= n - 9 ==> !#[trigger] joined_at(s, q),
        decreases p,
    {
        if matches_at(&t, p, &joined) {
            let channel = String::from_str(text.substring_char(p + 8, n));
            proof {
                lemma_split_at(s, p as int);
                let c = channel@;
                assert forall|a2: Seq<char>, b2: Seq<char>| #[trigger] join_split(s, a2, b2) implies c.len() <= b2.len() by {
                    lemma_split_facts(s, a2, b2);
                    let q = 8 + a2.len() as int;
                    assert(joined_at(s, q));
                    assert(q <= p);
                }
                assert(join_split(s, s.subrange(8, p as int), c));
            }
            return Some(channel);
        }
        p = p - 1;
    }
    proof {
        assert forall|a: Seq<char>, b: Seq<char>| !join_split(s, a, b) by {
            if join_split(s, a, b) {
                lemma_split_facts(s, a, b);
                let q = 8 + a.len() as int;
                assert(joined_at(s, q));
            }
        }
    }
    None
}

/// The state of a freshly built page.
pub open spec fn initial_page() -> IndexPageStateView {
    IndexPageStateView { channel: "General"@, messages: Seq::empty(), draft: Seq::empty() }
}

/// The page after it received the line `text`: an announcement that the
/// reader joined a channel renames the page's channel, and every line is
/// appended to the messages with a newline.
pub open spec fn message_step(page: IndexPageStateView, text: Seq<char>) -> IndexPageStateView {
    IndexPageStateView {
        channel: if is_join_announcement(text) {
            announced_channel(text)
        } else {
            page.channel
        },
        messages: page.messages + text + "\n"@,
        draft: page.draft,
    }
}

/// Two readings of one announcement with channels of equal length name the
/// same channel.
proof fn lemma_announced_unique(text: Seq<char>, n1: Seq<char>, c1: Seq<char>, n2: Seq<char>, c2: Seq<char>)
    requires
        join_split(text, n1, c1),
        join_split(text, n2, c2),
        c1.len() == c2.len(),
    ensures
        c1 == c2,
{
    let k = text.len() - c1.len();
    assert(text.subrange(k, text.len() as int) =~= c1);
    assert(text.subrange(k, text.len() as int) =~= c2);
}

/// The page state that the page is built with: the channel `General`, no
/// messages and an empty draft.
pub fn get_build_state(_path: String, _locale: String) -> (r: IndexPageState)
    ensures
        r@ == initial_page(),
{
    IndexPageState {
        channel: String::from_str("General"),
        draft: String::new(),
        messages: String::new(),
    }
}

/// Applies a line received from the server to the page.
pub fn on_message(page: &mut IndexPageState, text: &str)
    ensures
        final(page)@ == message_step(old(page)@, text@),
{
    match join_announcement_channel(text) {
        Some(channel_name) => {
            proof {
                let c = channel_name@;
                let n = choose|n: Seq<char>| join_split(text@, n, c);
                assert(announces(text@, c));
                let c2 = announced_channel(text@);
                let n2 = choose|n2: Seq<char>| join_split(text@, n2, c2);
                lemma_announced_unique(text@, n, c, n2, c2);
            }
            page.channel = channel_name;
        },
        None => {},
    }
    let mut messages = page.messages.clone();
    messages.append(text);
    messages.append("\n");
    page.messages = messages;
}

/// Shown while the page is rendered away from a browser.
pub fn on_server_render(page: &mut IndexPageState)
    ensures
        final(page)@ == (IndexPageStateView { messages: "Loading..."@, ..old(page)@ }),
{
    page.messages = String::from_str("Loading...");
}

/// Shown when the page could not open its socket, or could not send the
/// opening command.
pub fn on_connection_failed(page: &mut IndexPageState)
    ensures
        final(page)@ == (IndexPageStateView { messages: "Could not connect to server"@, ..old(page)@ }),
{
    page.messages = String::from_str("Could not connect to server");
}

/// The command that the page sends once its socket is open.
pub fn opening_command() -> (r: String)
    ensures
        r@ == "/help"@,
{
    String::from_str("/help")
}

/// Setting the page up: in a browser, a socket is opened; away from a
/// browser, `Loading...` is shown first. Unless the page is in a browser and
/// its socket opened, `Could not connect to server` is then shown. Returns
/// whether the page listens on the socket.
pub fn on_setup(page: &mut IndexPageState, in_browser: bool, socket_ok: bool) -> (r: bool)
    ensures
        r == (in_browser && socket_ok),
        final(page)@ == if r {
            old(page)@
        } else {
            IndexPageStateView { messages: "Could not connect to server"@, ..old(page)@ }
        },
{
    if !in_browser {
        on_server_render(page);
    }
    if in_browser && socket_ok {
        true
    } else {
        on_connection_failed(page);
        false
    }
}

/// Once the socket is open the page sends `opening_command()`; `sent_ok` is
/// whether that send went through. A failed send shows that the page could
/// not connect.
pub fn on_open(page: &mut IndexPageState, sent_ok: bool)
    ensures
        final(page)@ == if sent_ok {
            old(page)@
        } else {
            IndexPageStateView { messages: "Could not connect to server"@, ..old(page)@ }
        },
{
    if !sent_ok {
        on_connection_failed(page);
    }
}

/// Submitting the form: returns the draft to send when the socket is open
/// (nothing otherwise), and empties the draft either way.
pub fn on_submit(page: &mut IndexPageState, socket_open: bool) -> (r: Option<String>)
    ensures
        r is Some == socket_open,
        r matches Some(text) ==> text@ == old(page)@.draft,
        final(page)@ == (IndexPageStateView { draft: Seq::empty(), ..old(page)@ }),
{
    let text = if socket_open {
        Some(page.draft.clone())
    } else {
        None
    };
    page.draft = String::new();
    text
}

/// The placeholder of the input field: `Message ` and the channel's name.
pub fn placeholder(page: &IndexPageState) -> (r: String)
    ensures
        r@ == "Message "@ + page@.channel,
{
    let mut r = String::from_str("Message ");
    r.append(page.channel.as_str());
    r
}

} // verus!

//! What holds of the chat server across its operations.

use vstd::prelude::*;
use crate::delivery::DeliveryView;
use crate::chat_server::{ClientView, lemma_push_keeps_distinct, lemma_update_keeps_distinct, distinct_ids, contains_id, index_of, ids, insert_client, remove_id, new_client, add_step, handle_step, join_step, nick_step, deliveries, channel_lines, lemma_index_of, users_text, list_text, system_text};
use crate::text::{dedup_first, concat_all};
use crate::commands::{lemma_push_keeps_distinct_keys, lemma_update_keeps_distinct_keys, distinct_keys, contains_key, key_index, insert_entry, remove_entry, event_deliveries, lemma_key_index};
use crate::structs::ClientRecord;
use crate::handlers::topic_deliveries;
use crate::text::decimal;
use crate::index_page::{IndexPageStateView, message_step};

verus! {

/// Removing a client that was just added, under an id that was not in use,
/// gives back the clients as they were.
pub proof fn law_remove_undoes_add(s: Seq<ClientView>, id: Seq<char>)
    requires
        distinct_ids(s),
        !contains_id(s, id),
    ensures
        remove_id(add_step(s, id).0, id) == s,
{
    let c = new_client(id);
    let s2 = s.push(c);
    assert(insert_client(s, c) == s2);
    lemma_push_keeps_distinct(s, c);
    lemma_index_of(s2, id, s.len() as int);
    assert(s2.remove(s.len() as int) =~= s);
}

/// Adding a client keeps the ids distinct, and the client is then connected.
pub proof fn law_add_keeps_ids_distinct(s: Seq<ClientView>, id: Seq<char>)
    requires
        distinct_ids(s),
    ensures
        distinct_ids(add_step(s, id).0),
        contains_id(add_step(s, id).0, id),
{
    let c = new_client(id);
    let s2 = add_step(s, id).0;
    if contains_id(s, id) {
        let i = index_of(s, id);
        assert(s2 == s.update(i, c));
        assert(s2[i].user_id == id);
        lemma_update_keeps_distinct(s, i, c);
    } else {
        assert(s2 == s.push(c));
        assert(s2[s.len() as int].user_id == id);
        lemma_push_keeps_distinct(s, c);
    }
}

/// A message changes at most the record of the client that sent it: every
/// client keeps its id and its position, and every other client is left as
/// it was.
pub proof fn law_message_changes_only_its_sender(s: Seq<ClientView>, id: Seq<char>, m: Seq<char>)
    requires
        distinct_ids(s),
    ensures
        ids(handle_step(s, id, m).0) == ids(s),
        distinct_ids(handle_step(s, id, m).0),
        forall|j: int|
            0 <= j < s.len() && s[j].user_id != id ==> #[trigger] handle_step(s, id, m).0[j] == s[j],
{
    let s2 = handle_step(s, id, m).0;
    assert(s2.len() == s.len());
    assert forall|j: int| 0 <= j < s.len() implies #[trigger] s2[j].user_id == s[j].user_id && (s[j].user_id != id
        ==> s2[j] == s[j]) by {
        if contains_id(s, id) {
            let i = index_of(s, id);
            assert(s[i].user_id == id);
        }
    }
    assert(ids(s2) =~= ids(s));
    assert forall|a: int, b: int| 0 <= a < s2.len() && 0 <= b < s2.len() && a != b implies #[trigger] s2[a].user_id
        != #[trigger] s2[b].user_id by {
        assert(s2[a].user_id == s[a].user_id);
        assert(s2[b].user_id == s[b].user_id);
    }
}

/// A message from an id that is not connected changes nothing and sends
/// nothing.
pub proof fn law_unknown_senders_are_ignored(s: Seq<ClientView>, id: Seq<char>, m: Seq<char>)
    requires
        !contains_id(s, id),
    ensures
        handle_step(s, id, m) == (s, Seq::<DeliveryView>::empty()),
{
}

/// A message that does not start with `/`, from a connected client, changes
/// nothing and is forwarded: the clients reached by the sender's channel each
/// get the message written by the sender's nickname.
pub proof fn law_plain_text_is_forwarded(s: Seq<ClientView>, id: Seq<char>, m: Seq<char>)
    requires
        contains_id(s, id),
        m.len() == 0 || m[0] != '/',
    ensures
        handle_step(s, id, m) == (s, deliveries(
            s,
            s[index_of(s, id)].channel,
            s[index_of(s, id)].nick + ": "@ + m,
        )),
{
}

/// Joining another channel and then joining the old one again puts the
/// clients back as they were.
pub proof fn law_join_then_join_back(s: Seq<ClientView>, i: int, ch: Seq<char>)
    requires
        0 <= i < s.len(),
        ch != s[i].channel,
    ensures
        join_step(join_step(s, i, Some(ch)).0, i, Some(s[i].channel)).0 == s,
{
    let s2 = join_step(s, i, Some(ch)).0;
    assert(s2[i].channel == ch);
    assert(s2.update(i, ClientView { channel: s[i].channel, ..s2[i] }) =~= s);
}

/// Renaming a client and then renaming it back puts the clients back as they
/// were.
pub proof fn law_nick_then_nick_back(s: Seq<ClientView>, i: int, n: Seq<char>)
    requires
        0 <= i < s.len(),
    ensures
        nick_step(nick_step(s, i, Some(n)).0, i, Some(s[i].nick)).0 == s,
{
    let s2 = nick_step(s, i, Some(n)).0;
    assert(s2.update(i, ClientView { nick: s[i].nick, ..s2[i] }) =~= s);
}

/// Some delivery of `ds` goes to `recipient`.
pub open spec fn reaches(ds: Seq<DeliveryView>, recipient: Seq<char>) -> bool {
    exists|k: int| 0 <= k < ds.len() && #[trigger] ds[k].recipient == recipient
}

/// Some client of `s` with id `id` is reached by `target`.
pub open spec fn addressed_id(s: Seq<ClientView>, target: Seq<char>, id: Seq<char>) -> bool {
    exists|j: int| 0 <= j < s.len() && (s[j].channel == target || s[j].user_id == target) && #[trigger] s[j].user_id == id
}

/// A line sent to a target reaches exactly the clients whose channel or id is
/// the target: every delivery carries the text to such a client, and every
/// such client gets one; with distinct ids, no client gets two.
pub proof fn law_lines_reach_exactly_the_addressed(s: Seq<ClientView>, target: Seq<char>, text: Seq<char>)
    ensures
        distinct_ids(s) ==> forall|a: int, b: int|
            0 <= a < deliveries(s, target, text).len() && 0 <= b < deliveries(s, target, text).len() && a != b
                ==> (#[trigger] deliveries(s, target, text)[a]).recipient != (#[trigger] deliveries(
                s,
                target,
                text,
            )[b]).recipient,
        forall|k: int|
            0 <= k < deliveries(s, target, text).len() ==> (#[trigger] deliveries(s, target, text)[k]).text == text
                && addressed_id(s, target, deliveries(s, target, text)[k].recipient),
        forall|j: int|
            0 <= j < s.len() && ((#[trigger] s[j]).channel == target || s[j].user_id == target) ==> reaches(deliveries(s, target, text), s[j].user_id),
    decreases s.len(),
{
    if s.len() > 0 {
        let p = s.drop_last();
        law_lines_reach_exactly_the_addressed(p, target, text);
        let dp = deliveries(p, target, text);
        let d = deliveries(s, target, text);
        assert forall|k: int| 0 <= k < d.len() implies (#[trigger] d[k]).text == text && addressed_id(s, target, d[k].recipient) by {
            if k < dp.len() {
                assert(d[k] == dp[k]);
                assert(addressed_id(p, target, dp[k].recipient));
                let j = choose|j: int| 0 <= j < p.len() && (p[j].channel == target || p[j].user_id == target) && #[trigger] p[j].user_id == dp[k].recipient;
                assert(s[j] == p[j]);
            } else {
                assert(s[s.len() - 1] == s.last());
            }
        }
        assert forall|j: int| 0 <= j < s.len() && ((#[trigger] s[j]).channel == target || s[j].user_id == target) implies reaches(d, s[j].user_id) by {
            if j < p.len() {
                assert(s[j] == p[j]);
                assert((p[j].channel == target || p[j].user_id == target));
                let k = choose|k: int| 0 <= k < dp.len() && #[trigger] dp[k].recipient == p[j].user_id;
                assert(d[k] == dp[k]);
            } else {
                assert(d[d.len() - 1].recipient == s[j].user_id);
            }
        }
        if distinct_ids(s) {
            assert(distinct_ids(p)) by {
                assert forall|a: int, b: int| 0 <= a < p.len() && 0 <= b < p.len() && a != b implies #[trigger] p[a].user_id
                    != #[trigger] p[b].user_id by {
                    assert(p[a] == s[a] && p[b] == s[b]);
                }
            }
            assert forall|a: int, b: int| 0 <= a < d.len() && 0 <= b < d.len() && a != b implies (#[trigger] d[a]).recipient
                != (#[trigger] d[b]).recipient by {
                if a < dp.len() && b < dp.len() {
                    assert(d[a] == dp[a] && d[b] == dp[b]);
                } else if a < dp.len() || b < dp.len() {
                    let k = if a < dp.len() { a } else { b };
                    assert(d[k] == dp[k]);
                    assert(addressed_id(p, target, dp[k].recipient));
                    let j = choose|j: int| 0 <= j < p.len() && (p[j].channel == target || p[j].user_id == target) && #[trigger] p[j].user_id == dp[k].recipient;
                    assert(s[j] == p[j]);
                    assert(s[j].user_id != s[s.len() - 1].user_id);
                }
            }
        }
    }
}

/// `dedup_first` keeps each value once and keeps every value.
pub proof fn lemma_dedup_first(xs: Seq<Seq<char>>)
    ensures
        forall|a: int, b: int|
            0 <= a < dedup_first(xs).len() && 0 <= b < dedup_first(xs).len() && a != b ==> #[trigger] dedup_first(
                xs,
            )[a] != #[trigger] dedup_first(xs)[b],
        forall|x: Seq<char>| #[trigger] dedup_first(xs).contains(x) <==> xs.contains(x),
    decreases xs.len(),
{
    if xs.len() > 0 {
        let p = xs.drop_last();
        lemma_dedup_first(p);
        let dp = dedup_first(p);
        let d = dedup_first(xs);
        assert forall|x: Seq<char>| #[trigger] d.contains(x) <==> xs.contains(x) by {
            if xs.contains(x) {
                let i = choose|i: int| 0 <= i < xs.len() && xs[i] == x;
                if i < p.len() {
                    assert(p[i] == x);
                    assert(dp.contains(x));
                    let k = choose|k: int| 0 <= k < dp.len() && dp[k] == x;
                    assert(d[k] == x);
                } else {
                    assert(x == xs.last());
                    if !p.contains(x) {
                        assert(d[d.len() - 1] == x);
                    } else {
                        assert(dp.contains(x));
                        let k = choose|k: int| 0 <= k < dp.len() && dp[k] == x;
                        assert(d[k] == x);
                    }
                }
            }
            if d.contains(x) {
                let k = choose|k: int| 0 <= k < d.len() && d[k] == x;
                if k < dp.len() {
                    assert(dp[k] == x);
                    assert(dp.contains(x));
                    let i = choose|i: int| 0 <= i < p.len() && p[i] == x;
                    assert(xs[i] == x);
                } else {
                    assert(xs[xs.len() - 1] == x);
                }
            }
        }
        if !p.contains(xs.last()) {
            assert forall|a: int, b: int| 0 <= a < d.len() && 0 <= b < d.len() && a != b implies #[trigger] d[a]
                != #[trigger] d[b] by {
                if a < dp.len() && b < dp.len() {
                    assert(d[a] == dp[a] && d[b] == dp[b]);
                } else if a < dp.len() {
                    assert(d[a] == dp[a]);
                    assert(dp.contains(dp[a]));
                } else {
                    assert(d[b] == dp[b]);
                    assert(dp.contains(dp[b]));
                }
            }
        }
    }
}

/// The channel list names every channel in use, names nothing else, and
/// names each channel once.
pub proof fn law_list_names_each_channel_once(s: Seq<ClientView>)
    ensures
        forall|a: int, b: int|
            0 <= a < dedup_first(channel_lines(s)).len() && 0 <= b < dedup_first(channel_lines(s)).len() && a != b
                ==> #[trigger] dedup_first(channel_lines(s))[a] != #[trigger] dedup_first(channel_lines(s))[b],
        forall|j: int| 0 <= j < s.len() ==> dedup_first(channel_lines(s)).contains(#[trigger] s[j].channel + "\n"@),
        forall|line: Seq<char>|
            #[trigger] dedup_first(channel_lines(s)).contains(line) ==> exists|j: int|
                0 <= j < s.len() && line == #[trigger] s[j].channel + "\n"@,
{
    let lines = channel_lines(s);
    lemma_dedup_first(lines);
    assert forall|j: int| 0 <= j < s.len() implies dedup_first(lines).contains(#[trigger] s[j].channel + "\n"@) by {
        assert(lines[j] == s[j].channel + "\n"@);
        assert(lines.contains(lines[j]));
    }
    assert forall|line: Seq<char>| #[trigger] dedup_first(lines).contains(line) implies exists|j: int|
        0 <= j < s.len() && line == #[trigger] s[j].channel + "\n"@ by {
        assert(lines.contains(line));
        let j = choose|j: int| 0 <= j < lines.len() && lines[j] == line;
        assert(line == s[j].channel + "\n"@);
    }
}


/// Unregistering a key that was just registered, and was not in use before,
/// gives back the registry as it was.
pub proof fn law_unregister_undoes_register(s: Seq<(Seq<char>, ClientRecord)>, key: Seq<char>, c: ClientRecord)
    requires
        distinct_keys(s),
        !contains_key(s, key),
    ensures
        remove_entry(insert_entry(s, key, c), key) == s,
{
    let s2 = s.push((key, c));
    assert(insert_entry(s, key, c) == s2);
    lemma_push_keeps_distinct_keys(s, (key, c));
    lemma_key_index(s2, key, s.len() as int);
    assert(s2.remove(s.len() as int) =~= s);
}

/// A client just stored under `key` is found under `key`, as stored: a
/// socket request for a freshly registered id succeeds with the registered
/// client.
pub proof fn law_registered_client_is_found(s: Seq<(Seq<char>, ClientRecord)>, key: Seq<char>, c: ClientRecord)
    requires
        distinct_keys(s),
    ensures
        distinct_keys(insert_entry(s, key, c)),
        contains_key(insert_entry(s, key, c), key),
        insert_entry(s, key, c)[key_index(insert_entry(s, key, c), key)].1 == c,
{
    let s2 = insert_entry(s, key, c);
    let i = if contains_key(s, key) { key_index(s, key) } else { s.len() as int };
    if contains_key(s, key) {
        assert(s[i].0 == key);
        assert(s2 == s.update(i, (key, c)));
        lemma_update_keeps_distinct_keys(s, i, (key, c));
    } else {
        assert(s2 == s.push((key, c)));
        lemma_push_keeps_distinct_keys(s, (key, c));
    }
    assert(s2[i] == (key, c));
    lemma_key_index(s2, key, i);
}

/// Some entry of `s` under `key` receives what is published to `channel`.
pub open spec fn receiving_key(s: Seq<(Seq<char>, ClientRecord)>, channel: Seq<char>, key: Seq<char>) -> bool {
    exists|j: int| 0 <= j < s.len() && ((s[j].1.channel == channel || s[j].1.user_id == channel) && s[j].1.has_sender) && #[trigger] s[j].0 == key
}

/// A published event reaches exactly the registered clients that have a
/// socket and are in its channel (or have it as user id), each with the
/// event's message.
pub proof fn law_events_reach_exactly_clients_with_sockets(
    s: Seq<(Seq<char>, ClientRecord)>,
    channel: Seq<char>,
    message: Seq<char>,
)
    ensures
        forall|k: int|
            0 <= k < event_deliveries(s, channel, message).len() ==> (#[trigger] event_deliveries(s, channel, message)[k]).text
                == message && receiving_key(s, channel, event_deliveries(s, channel, message)[k].recipient),
        forall|j: int|
            0 <= j < s.len() && (((#[trigger] s[j]).1.channel == channel || s[j].1.user_id == channel) && s[j].1.has_sender) ==> reaches(event_deliveries(s, channel, message), s[j].0),
    decreases s.len(),
{
    if s.len() > 0 {
        let p = s.drop_last();
        law_events_reach_exactly_clients_with_sockets(p, channel, message);
        let dp = event_deliveries(p, channel, message);
        let d = event_deliveries(s, channel, message);
        assert forall|k: int| 0 <= k < d.len() implies (#[trigger] d[k]).text == message && receiving_key(s, channel, d[k].recipient) by {
            if k < dp.len() {
                assert(d[k] == dp[k]);
                assert(receiving_key(p, channel, dp[k].recipient));
                let j = choose|j: int| 0 <= j < p.len() && ((p[j].1.channel == channel || p[j].1.user_id == channel) && p[j].1.has_sender) && #[trigger] p[j].0 == dp[k].recipient;
                assert(s[j] == p[j]);
            } else {
                assert(s[s.len() - 1] == s.last());
            }
        }
        assert forall|j: int| 0 <= j < s.len() && (((#[trigger] s[j]).1.channel == channel || s[j].1.user_id == channel) && s[j].1.has_sender) implies reaches(d, s[j].0) by {
            if j < p.len() {
                assert(s[j] == p[j]);
                assert(((p[j].1.channel == channel || p[j].1.user_id == channel) && p[j].1.has_sender));
                let k = choose|k: int| 0 <= k < dp.len() && #[trigger] dp[k].recipient == p[j].0;
                assert(d[k] == dp[k]);
            } else {
                assert(d[d.len() - 1].recipient == s[j].0);
            }
        }
    }
}

/// The page after it received each of `texts`, in order.
pub open spec fn receive_all(page: IndexPageStateView, texts: Seq<Seq<char>>) -> IndexPageStateView
    decreases texts.len(),
{
    if texts.len() == 0 {
        page
    } else {
        message_step(receive_all(page, texts.drop_last()), texts.last())
    }
}

/// Every line shown, in the order received, each followed by a newline.
pub open spec fn shown_lines(texts: Seq<Seq<char>>) -> Seq<char>
    decreases texts.len(),
{
    if texts.len() == 0 {
        Seq::empty()
    } else {
        shown_lines(texts.drop_last()) + texts.last() + "\n"@
    }
}

/// The page shows every line it received, in order, after what it showed
/// before, and receiving lines never touches the draft.
pub proof fn law_page_shows_every_line(page: IndexPageStateView, texts: Seq<Seq<char>>)
    ensures
        receive_all(page, texts).messages == page.messages + shown_lines(texts),
        receive_all(page, texts).draft == page.draft,
    decreases texts.len(),
{
    if texts.len() > 0 {
        law_page_shows_every_line(page, texts.drop_last());
        assert(page.messages + shown_lines(texts.drop_last()) + texts.last() + "\n"@ =~= page.messages + shown_lines(texts));
    } else {
        assert(page.messages + shown_lines(texts) =~= page.messages);
    }
}


/// Joining strings gives all of them, in order: the same as vstd's
/// `flatten`.
pub proof fn law_concat_all_joins_every_part(xs: Seq<Seq<char>>)
    ensures
        concat_all(xs) == xs.flatten(),
    decreases xs.len(),
{
    if xs.len() > 0 {
        law_concat_all_joins_every_part(xs.drop_last());
        xs.drop_last().lemma_flatten_push(xs.last());
        assert(xs.drop_last().push(xs.last()) =~= xs);
    } else {
        assert(xs.flatten() =~= Seq::<char>::empty());
    }
}

/// The `/users` text is the nickname of every client whose channel is
/// exactly `channel`, each followed by a newline, in the clients' order, and
/// nothing else.
pub proof fn law_users_lists_exactly_the_channel(s: Seq<ClientView>, channel: Seq<char>)
    ensures
        users_text(s, channel) == s.filter(|c: ClientView| c.channel == channel).map_values(
            |c: ClientView| c.nick + "\n"@,
        ).flatten(),
    decreases s.len(),
{
    let p = |c: ClientView| c.channel == channel;
    let f = |c: ClientView| c.nick + "\n"@;
    if s.len() == 0 {
        reveal(Seq::filter);
        assert(s.filter(p).map_values(f) =~= Seq::<Seq<char>>::empty());
        assert(s.filter(p).map_values(f).flatten() =~= Seq::<char>::empty());
    } else {
        let q = s.drop_last();
        law_users_lists_exactly_the_channel(q, channel);
        assert(q.push(s.last()) =~= s);
        q.lemma_filter_push(s.last(), p);
        if p(s.last()) {
            assert(q.filter(p).push(s.last()).map_values(f) =~= q.filter(p).map_values(f).push(f(s.last())));
            q.filter(p).map_values(f).lemma_flatten_push(f(s.last()));
        }
    }
}

/// The `/list` text is a sequence of lines joined in order, in which every
/// client's channel appears once, followed by a newline, and nothing else
/// does.
pub proof fn law_list_text_names_every_channel(s: Seq<ClientView>)
    ensures
        exists|lines: Seq<Seq<char>>| {
            &&& list_text(s) == lines.flatten()
            &&& forall|a: int, b: int| 0 <= a < lines.len() && 0 <= b < lines.len() && a != b ==> #[trigger] lines[a] != #[trigger] lines[b]
            &&& forall|j: int| 0 <= j < s.len() ==> lines.contains(#[trigger] s[j].channel + "\n"@)
            &&& forall|line: Seq<char>| #[trigger] lines.contains(line) ==> exists|j: int| 0 <= j < s.len() && line == #[trigger] s[j].channel + "\n"@
        },
{
    let lines = dedup_first(channel_lines(s));
    law_list_names_each_channel_once(s);
    law_concat_all_joins_every_part(lines);
    assert(list_text(s) == lines.flatten());
}


/// A line with text `text` for `recipient`.
pub open spec fn line_to(recipient: Seq<char>, text: Seq<char>) -> DeliveryView {
    DeliveryView { recipient, text }
}

/// Some line of `ds` is `text` for `recipient`.
pub open spec fn gets(ds: Seq<DeliveryView>, recipient: Seq<char>, text: Seq<char>) -> bool {
    exists|k: int| 0 <= k < ds.len() && #[trigger] ds[k] == line_to(recipient, text)
}

/// The clients with the one at `i` renamed to `n`.
pub open spec fn renamed(s: Seq<ClientView>, i: int, n: Seq<char>) -> Seq<ClientView> {
    s.update(i, ClientView { nick: n, ..s[i] })
}

/// The clients with the one at `i` moved to channel `ch`.
pub open spec fn moved(s: Seq<ClientView>, i: int, ch: Seq<char>) -> Seq<ClientView> {
    s.update(i, ClientView { channel: ch, ..s[i] })
}

/// The `/nick` announcement: the renamer's old nickname, the new one, and the
/// system mark.
pub open spec fn rename_line(old_nick: Seq<char>, new_nick: Seq<char>) -> Seq<char> {
    old_nick + " changed nick to "@ + new_nick + ": "@ + "System"@
}

/// A `/nick` with a new name renames only the renamer, and the announcement
/// reaches every client in the renamer's channel and no one outside it (but
/// a client whose id is the channel's name).
pub proof fn law_rename_is_told_to_the_renamers_channel(s: Seq<ClientView>, i: int, n: Seq<char>)
    requires
        0 <= i < s.len(),
    ensures
        nick_step(s, i, Some(n)).0 == renamed(s, i, n),
        forall|j: int|
            0 <= j < s.len() && #[trigger] s[j].channel == s[i].channel ==> gets(nick_step(s, i, Some(n)).1, s[j].user_id, rename_line(s[i].nick, n)),
        forall|k: int|
            0 <= k < nick_step(s, i, Some(n)).1.len() ==> (#[trigger] nick_step(s, i, Some(n)).1[k]).text == rename_line(
                s[i].nick,
                n,
            ) && exists|j: int|
                0 <= j < s.len() && (s[j].channel == s[i].channel || s[j].user_id == s[i].channel) && #[trigger] s[j].user_id
                    == nick_step(s, i, Some(n)).1[k].recipient,
{
    let s2 = s.update(i, ClientView { nick: n, ..s[i] });
    let text = system_text(s[i].nick + " changed nick to "@ + n);
    assert(text == rename_line(s[i].nick, n));
    let out = deliveries(s2, s[i].channel, text);
    assert(nick_step(s, i, Some(n)) == (s2, out));
    law_lines_reach_exactly_the_addressed(s2, s[i].channel, text);
    assert forall|j: int| 0 <= j < s.len() && #[trigger] s[j].channel == s[i].channel implies gets(out, s[j].user_id, rename_line(s[i].nick, n)) by {
        assert(s2[j].user_id == s[j].user_id && s2[j].channel == s[j].channel);
        assert((s2[j].channel == s[i].channel || s2[j].user_id == s[i].channel));
        assert(reaches(out, s2[j].user_id));
        let k = choose|k: int| 0 <= k < out.len() && #[trigger] out[k].recipient == s2[j].user_id;
        assert(out[k] == line_to(s[j].user_id, rename_line(s[i].nick, n)));
        assert(gets(out, s[j].user_id, rename_line(s[i].nick, n)));
    }
    assert forall|k: int| 0 <= k < out.len() implies (#[trigger] out[k]).text == rename_line(s[i].nick, n) && exists|j: int|
        0 <= j < s.len() && (s[j].channel == s[i].channel || s[j].user_id == s[i].channel) && #[trigger] s[j].user_id == out[k].recipient by {
        assert(addressed_id(s2, s[i].channel, out[k].recipient));
        let j = choose|j: int| 0 <= j < s2.len() && (s2[j].channel == s[i].channel || s2[j].user_id == s[i].channel) && #[trigger] s2[j].user_id == out[k].recipient;
        assert(s2[j].user_id == s[j].user_id && s2[j].channel == s[j].channel);
    }
}

/// The `/join` announcement made to the new channel.
pub open spec fn joined_line(nick: Seq<char>) -> Seq<char> {
    nick + " joined the channel"@ + ": "@ + "System"@
}

/// The `/join` announcement made to the old channel.
pub open spec fn left_line(nick: Seq<char>) -> Seq<char> {
    nick + " left the channel"@ + ": "@ + "System"@
}

/// The two announcements differ.
proof fn lemma_joined_line_is_not_left_line(nick: Seq<char>)
    ensures
        joined_line(nick) != left_line(nick),
{
    reveal_strlit(" joined the channel");
    reveal_strlit(" left the channel");
    let k = nick.len() as int + 1;
    assert(joined_line(nick)[k] == 'j');
    assert(left_line(nick)[k] == 'l');
}

/// A `/join` to another channel moves only the joiner; every client in the
/// new channel (the joiner included) is told of the join, and the join is
/// told to no one outside the new channel (but a client whose id is the
/// channel's name). Every client of the old channel is told that the joiner
/// left.
pub proof fn law_join_is_told_to_the_new_channel(s: Seq<ClientView>, i: int, ch: Seq<char>)
    requires
        0 <= i < s.len(),
        ch != s[i].channel,
    ensures
        join_step(s, i, Some(ch)).0 == moved(s, i, ch),
        forall|j: int|
            0 <= j < s.len() && #[trigger] join_step(s, i, Some(ch)).0[j].channel == ch ==> gets(join_step(s, i, Some(ch)).1, s[j].user_id, joined_line(s[i].nick)),
        forall|k: int|
            0 <= k < join_step(s, i, Some(ch)).1.len() && (#[trigger] join_step(s, i, Some(ch)).1[k]).text == joined_line(
                s[i].nick,
            ) ==> exists|j: int|
                0 <= j < s.len() && (join_step(s, i, Some(ch)).0[j].channel == ch || s[j].user_id == ch)
                    && #[trigger] s[j].user_id == join_step(s, i, Some(ch)).1[k].recipient,
        forall|j: int|
            0 <= j < s.len() && #[trigger] s[j].channel == s[i].channel ==> gets(join_step(s, i, Some(ch)).1, s[j].user_id, left_line(s[i].nick)),
{
    let c = s[i];
    let s2 = s.update(i, ClientView { channel: ch, ..c });
    let lt = system_text(c.nick + " left the channel"@);
    let jt = system_text(c.nick + " joined the channel"@);
    assert(lt == left_line(c.nick));
    assert(jt == joined_line(c.nick));
    let left = deliveries(s, c.channel, lt);
    let joined = deliveries(s2, ch, jt);
    let out = left + joined;
    assert(join_step(s, i, Some(ch)) == (s2, out));
    law_lines_reach_exactly_the_addressed(s, c.channel, lt);
    law_lines_reach_exactly_the_addressed(s2, ch, jt);
    lemma_joined_line_is_not_left_line(c.nick);
    assert forall|j: int| 0 <= j < s.len() && #[trigger] s2[j].channel == ch implies gets(out, s[j].user_id, joined_line(c.nick)) by {
        assert(s2[j].user_id == s[j].user_id);
        assert((s2[j].channel == ch || s2[j].user_id == ch));
        assert(reaches(joined, s2[j].user_id));
        let k = choose|k: int| 0 <= k < joined.len() && #[trigger] joined[k].recipient == s2[j].user_id;
        assert(out[left.len() + k] == joined[k]);
        assert(gets(out, s[j].user_id, joined_line(c.nick)));
    }
    assert forall|k: int| 0 <= k < out.len() && (#[trigger] out[k]).text == joined_line(c.nick) implies exists|j: int|
        0 <= j < s.len() && (s2[j].channel == ch || s[j].user_id == ch) && #[trigger] s[j].user_id == out[k].recipient by {
        if k < left.len() {
            assert(out[k] == left[k]);
            assert(left[k].text == lt);
        } else {
            assert(out[k] == joined[k - left.len()]);
            assert(addressed_id(s2, ch, joined[k - left.len()].recipient));
            let j = choose|j: int| 0 <= j < s2.len() && (s2[j].channel == ch || s2[j].user_id == ch) && #[trigger] s2[j].user_id == joined[k - left.len()].recipient;
            assert(s2[j].user_id == s[j].user_id);
        }
    }
    assert forall|j: int| 0 <= j < s.len() && #[trigger] s[j].channel == c.channel implies gets(out, s[j].user_id, left_line(c.nick)) by {
        assert((s[j].channel == c.channel || s[j].user_id == c.channel));
        assert(reaches(left, s[j].user_id));
        let k = choose|k: int| 0 <= k < left.len() && #[trigger] left[k].recipient == s[j].user_id;
        assert(out[k] == left[k]);
        assert(gets(out, s[j].user_id, left_line(c.nick)));
    }
}


/// Some entry of `s` under `key` has a socket, is on `topic`, and has user id
/// `user` in decimal.
pub open spec fn user_on_topic(s: Seq<(Seq<char>, ClientRecord)>, user: nat, topic: Seq<char>, key: Seq<char>) -> bool {
    exists|j: int|
        0 <= j < s.len() && #[trigger] s[j].0 == key && s[j].1.user_id == decimal(user) && s[j].1.channel == topic
            && s[j].1.has_sender
}

/// An event restricted to user `user` reaches only clients whose user id is
/// exactly `user` (in decimal), on the event's topic and with a socket, each
/// with the event's message; and every such client gets it.
pub proof fn law_restricted_event_reaches_only_that_user(
    s: Seq<(Seq<char>, ClientRecord)>,
    user: nat,
    topic: Seq<char>,
    message: Seq<char>,
)
    ensures
        forall|k: int|
            0 <= k < topic_deliveries(s, Some(user), topic, message).len() ==> (#[trigger] topic_deliveries(
                s,
                Some(user),
                topic,
                message,
            )[k]).text == message && user_on_topic(s, user, topic, topic_deliveries(s, Some(user), topic, message)[k].recipient),
        forall|j: int|
            0 <= j < s.len() && (#[trigger] s[j]).1.user_id == decimal(user) && s[j].1.channel == topic && s[j].1.has_sender
                ==> reaches(topic_deliveries(s, Some(user), topic, message), s[j].0),
    decreases s.len(),
{
    if s.len() > 0 {
        let p = s.drop_last();
        law_restricted_event_reaches_only_that_user(p, user, topic, message);
        let dp = topic_deliveries(p, Some(user), topic, message);
        let d = topic_deliveries(s, Some(user), topic, message);
        assert forall|k: int| 0 <= k < d.len() implies (#[trigger] d[k]).text == message && user_on_topic(s, user, topic, d[k].recipient) by {
            if k < dp.len() {
                assert(d[k] == dp[k]);
                assert(user_on_topic(p, user, topic, dp[k].recipient));
                let j = choose|j: int|
                    0 <= j < p.len() && #[trigger] p[j].0 == dp[k].recipient && p[j].1.user_id == decimal(user)
                        && p[j].1.channel == topic && p[j].1.has_sender;
                assert(s[j] == p[j]);
            } else {
                assert(s[s.len() - 1] == s.last());
            }
        }
        assert forall|j: int| 0 <= j < s.len() && (#[trigger] s[j]).1.user_id == decimal(user) && s[j].1.channel == topic
            && s[j].1.has_sender implies reaches(d, s[j].0) by {
            if j < p.len() {
                assert(s[j] == p[j]);
                let k = choose|k: int| 0 <= k < dp.len() && #[trigger] dp[k].recipient == p[j].0;
                assert(d[k] == dp[k]);
            } else {
                assert(d[d.len() - 1].recipient == s[j].0);
            }
        }
    }
}


/// The number that the decimal digits `ds` spell.
pub open spec fn digits_value(ds: Seq<char>) -> int
    decreases ds.len(),
{
    if ds.len() == 0 {
        0
    } else {
        digits_value(ds.drop_last()) * 10 + (ds.last() as int - '0' as int)
    }
}

/// A digit character has the value of its digit.
proof fn lemma_digit_value(d: int)
    requires
        0 <= d < 10,
    ensures
        crate::text::digit_char(d) as int - '0' as int == d,
        '0' <= crate::text::digit_char(d) <= '9',
{
}

/// The decimal text of `n` is a non-empty run of digits, without a leading
/// zero unless `n` is zero, that spells `n`; so distinct numbers have
/// distinct texts.
pub proof fn law_decimal_spells_the_number(n: nat)
    ensures
        decimal(n).len() > 0,
        forall|k: int| 0 <= k < decimal(n).len() ==> '0' <= #[trigger] decimal(n)[k] <= '9',
        decimal(n)[0] != '0' || n == 0,
        digits_value(decimal(n)) == n,
    decreases n,
{
    if n < 10 {
        lemma_digit_value(n as int);
        assert(decimal(n).drop_last() =~= Seq::<char>::empty());
        assert(digits_value(decimal(n).drop_last()) == 0);
        assert(decimal(n).last() == crate::text::digit_char(n as int));
    } else {
        lemma_digit_value((n % 10) as int);
        law_decimal_spells_the_number(n / 10);
        let d = decimal(n);
        let p = decimal(n / 10);
        assert(d == p + seq![crate::text::digit_char((n % 10) as int)]);
        assert(d.drop_last() =~= p);
        assert(d[0] == p[0]);
        assert(n / 10 != 0);
        assert((n / 10) * 10 + n % 10 == n) by (nonlinear_arith);
        assert(d.last() == crate::text::digit_char((n % 10) as int));
        assert(digits_value(d) == digits_value(p) * 10 + (d.last() as int - '0' as int));
        assert forall|k: int| 0 <= k < d.len() implies '0' <= #[trigger] d[k] <= '9' by {
            if k < p.len() {
                assert(d[k] == p[k]);
            }
        }
    }
}

} // verus!

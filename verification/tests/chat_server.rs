use rust_webapp::chat_server::{ChatServer, Client};
use rust_webapp::delivery::Delivery;

fn lines(ds: &[Delivery]) -> Vec<(String, String)> {
    ds.iter().map(|d| (d.recipient.clone(), d.text.clone())).collect()
}

fn pair(r: &str, t: &str) -> (String, String) {
    (r.to_string(), t.to_string())
}

fn client(s: &ChatServer, id: &str) -> Client {
    s.get(id).expect("client is connected")
}

/// Two clients, `aaaaa11111` and `bbbbb22222`, both in `general`.
fn two_clients() -> ChatServer {
    let mut s = ChatServer::new();
    s.add_client_with_id("aaaaa11111".to_string());
    s.add_client_with_id("bbbbb22222".to_string());
    s
}

#[test]
fn new_server_has_no_clients() {
    let s = ChatServer::new();
    assert!(s.clients().is_empty());
}

#[test]
fn added_client_gets_default_nick_and_channel() {
    let mut s = ChatServer::new();
    let sent = s.add_client_with_id("abcdef1234".to_string());
    let c = client(&s, "abcdef1234");
    assert_eq!(c.user_id, "abcdef1234");
    assert_eq!(c.nick, "userabcde");
    assert_eq!(c.channel, "general");
    // The welcome is published to the channel named like the nickname, where nobody is.
    assert!(sent.is_empty());
}

#[test]
fn welcome_reaches_a_client_in_the_channel_named_like_the_nick() {
    let mut s = ChatServer::new();
    s.add_client_with_id("zzzzz99999".to_string());
    s.handle_message("zzzzz99999", "/join userabcde");
    let sent = s.add_client_with_id("abcdef1234".to_string());
    assert_eq!(lines(&sent), vec![pair("zzzzz99999", "Welcome to the server: System")]);
}

#[test]
fn add_client_draws_a_simple_uuid() {
    let mut s = ChatServer::new();
    let (id, sent) = s.add_client();
    assert_eq!(id.len(), 32);
    assert!(id.chars().all(|c| c.is_ascii_digit() || ('a'..='f').contains(&c)));
    let c = client(&s, &id);
    assert_eq!(c.nick, format!("user{}", &id[0..5]));
    assert_eq!(c.channel, "general");
    assert!(sent.is_empty());
    let (id2, _) = s.add_client();
    assert_ne!(id, id2);
    assert_eq!(s.clients().len(), 2);
}

#[test]
fn adding_an_existing_id_replaces_the_client() {
    let mut s = two_clients();
    s.handle_message("aaaaa11111", "/nick alice");
    s.add_client_with_id("aaaaa11111".to_string());
    assert_eq!(s.clients().len(), 2);
    assert_eq!(client(&s, "aaaaa11111").nick, "useraaaaa");
    assert_eq!(s.clients()[0].user_id, "aaaaa11111");
}

#[test]
fn remove_client_forgets_it() {
    let mut s = two_clients();
    s.remove_client("aaaaa11111");
    assert!(s.get("aaaaa11111").is_none());
    assert_eq!(s.clients().len(), 1);
    s.remove_client("nobody");
    assert_eq!(s.clients().len(), 1);
}

#[test]
fn remove_undoes_add() {
    let mut s = two_clients();
    s.add_client_with_id("ccccc33333".to_string());
    s.remove_client("ccccc33333");
    let ids: Vec<String> = s.clients().iter().map(|c| c.user_id.clone()).collect();
    assert_eq!(ids, vec!["aaaaa11111".to_string(), "bbbbb22222".to_string()]);
}

#[test]
fn nick_renames_and_tells_the_channel() {
    let mut s = two_clients();
    let sent = s.handle_message("aaaaa11111", "/nick alice");
    assert_eq!(client(&s, "aaaaa11111").nick, "alice");
    assert_eq!(client(&s, "bbbbb22222").nick, "userbbbbb");
    let text = "useraaaaa changed nick to alice: System";
    assert_eq!(lines(&sent), vec![pair("aaaaa11111", text), pair("bbbbb22222", text)]);
}

#[test]
fn nick_keeps_everything_after_the_first_space() {
    let mut s = two_clients();
    s.handle_message("aaaaa11111", "/nick big  alice ");
    assert_eq!(client(&s, "aaaaa11111").nick, "big  alice ");
}

#[test]
fn nick_without_a_name_tells_the_current_one() {
    let mut s = two_clients();
    let sent = s.handle_message("aaaaa11111", "/nick");
    assert_eq!(lines(&sent), vec![pair("aaaaa11111", "Current nick: useraaaaa: System")]);
    assert_eq!(client(&s, "aaaaa11111").nick, "useraaaaa");
}

#[test]
fn nick_then_nick_back_restores_the_client() {
    let mut s = two_clients();
    s.handle_message("aaaaa11111", "/nick alice");
    s.handle_message("aaaaa11111", "/nick useraaaaa");
    assert_eq!(client(&s, "aaaaa11111").nick, "useraaaaa");
}

#[test]
fn join_moves_and_tells_both_channels() {
    let mut s = two_clients();
    let sent = s.handle_message("aaaaa11111", "/join rust");
    assert_eq!(client(&s, "aaaaa11111").channel, "rust");
    assert_eq!(client(&s, "bbbbb22222").channel, "general");
    assert_eq!(
        lines(&sent),
        vec![
            pair("aaaaa11111", "useraaaaa left the channel: System"),
            pair("bbbbb22222", "useraaaaa left the channel: System"),
            pair("aaaaa11111", "useraaaaa joined the channel: System"),
        ]
    );
}

#[test]
fn join_the_own_channel_is_answered() {
    let mut s = two_clients();
    let sent = s.handle_message("aaaaa11111", "/join general");
    assert_eq!(lines(&sent), vec![pair("aaaaa11111", "Already in channel 'general': System")]);
}

#[test]
fn join_without_a_channel_tells_the_current_one() {
    let mut s = two_clients();
    let sent = s.handle_message("bbbbb22222", "/join");
    assert_eq!(lines(&sent), vec![pair("bbbbb22222", "Current channel: 'general': System")]);
}

#[test]
fn join_then_join_back_restores_the_client() {
    let mut s = two_clients();
    s.handle_message("aaaaa11111", "/join rust");
    s.handle_message("aaaaa11111", "/join general");
    assert_eq!(client(&s, "aaaaa11111").channel, "general");
}

#[test]
fn users_lists_the_nicks_of_the_channel() {
    let mut s = two_clients();
    s.add_client_with_id("ccccc33333".to_string());
    s.handle_message("ccccc33333", "/join rust");
    let sent = s.handle_message("bbbbb22222", "/users");
    assert_eq!(lines(&sent), vec![pair("bbbbb22222", "useraaaaa\nuserbbbbb\n: System")]);
}

#[test]
fn list_names_each_channel_once() {
    let mut s = two_clients();
    s.add_client_with_id("ccccc33333".to_string());
    s.handle_message("bbbbb22222", "/join rust");
    let sent = s.handle_message("ccccc33333", "/list");
    assert_eq!(lines(&sent), vec![pair("ccccc33333", "general\nrust\n: System")]);
}

#[test]
fn ping_does_nothing() {
    let mut s = two_clients();
    let sent = s.handle_message("aaaaa11111", "/ping");
    assert!(sent.is_empty());
}

#[test]
fn unknown_command_is_answered() {
    let mut s = two_clients();
    let sent = s.handle_message("aaaaa11111", "/dance now");
    assert_eq!(lines(&sent), vec![pair("aaaaa11111", "Unknown command '/dance': System")]);
}

#[test]
fn plain_text_is_forwarded_to_the_channel() {
    let mut s = two_clients();
    s.add_client_with_id("ccccc33333".to_string());
    s.handle_message("ccccc33333", "/join rust");
    let sent = s.handle_message("aaaaa11111", "hello /nick x");
    let text = "useraaaaa: hello /nick x";
    assert_eq!(lines(&sent), vec![pair("aaaaa11111", text), pair("bbbbb22222", text)]);
    assert_eq!(client(&s, "aaaaa11111").nick, "useraaaaa");
    let sent = s.handle_message("ccccc33333", "");
    assert_eq!(lines(&sent), vec![pair("ccccc33333", "userccccc: ")]);
}

#[test]
fn messages_from_unknown_ids_are_ignored() {
    let mut s = two_clients();
    assert!(s.handle_message("nobody", "/nick x").is_empty());
    assert_eq!(s.clients().len(), 2);
}

#[test]
fn publish_reaches_channel_members_and_the_addressed_client() {
    let mut s = two_clients();
    s.handle_message("bbbbb22222", "/join rust");
    let sent = s.publish_message("rust", "hi", "carol");
    assert_eq!(lines(&sent), vec![pair("bbbbb22222", "carol: hi")]);
    let sent = s.publish_message("aaaaa11111", "psst", "dave");
    assert_eq!(lines(&sent), vec![pair("aaaaa11111", "dave: psst")]);
    assert!(s.publish_message("nowhere", "x", "y").is_empty());
}

#[test]
fn system_message_puts_the_text_before_system() {
    let s = two_clients();
    let sent = s.send_system_message("general", "hello");
    assert_eq!(lines(&sent), vec![pair("aaaaa11111", "hello: System"), pair("bbbbb22222", "hello: System")]);
}

#[test]
fn direct_command_calls_match_handle_message() {
    let mut s = two_clients();
    let sent = s.nick("aaaaa11111", Some("alice"));
    assert_eq!(sent.len(), 2);
    let sent = s.join("aaaaa11111", Some("rust"));
    assert_eq!(sent.len(), 3);
    let sent = s.users("aaaaa11111");
    assert_eq!(lines(&sent), vec![pair("aaaaa11111", "alice\n: System")]);
    let sent = s.list("bbbbb22222");
    assert_eq!(lines(&sent), vec![pair("bbbbb22222", "rust\ngeneral\n: System")]);
}

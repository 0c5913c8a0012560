use rust_webapp::commands::{join, list, publish_message, send_system_message, set_nick, users, Clients};
use rust_webapp::delivery::Delivery;
use rust_webapp::handlers::{
    publish_handler, register_client, register_handler, register_response, unregister_handler, ws_handler, Rejection,
};
use rust_webapp::structs::{Client, Event, RegisterRequest, TopicEvent};
use rust_webapp::text::decimal_string;

fn lines(ds: &[Delivery]) -> Vec<(String, String)> {
    ds.iter().map(|d| (d.recipient.clone(), d.text.clone())).collect()
}

fn pair(r: &str, t: &str) -> (String, String) {
    (r.to_string(), t.to_string())
}

fn record(user_id: &str, nick: &str, channel: &str, has_sender: bool) -> Client {
    Client { user_id: user_id.to_string(), nick: nick.to_string(), channel: channel.to_string(), has_sender }
}

/// Three registered clients: k1 and k2 in `general` with sockets, k3 in
/// `general` without one.
fn registry() -> Clients {
    let mut clients = Clients::new();
    clients.insert("k1".to_string(), record("u1", "ann", "general", true));
    clients.insert("k2".to_string(), record("u2", "bob", "general", true));
    clients.insert("k3".to_string(), record("u3", "cid", "general", false));
    clients
}

#[test]
fn set_nick_renames() {
    let mut c = record("u1", "ann", "general", true);
    set_nick(&mut c, "anna");
    assert_eq!(c.nick, "anna");
    assert_eq!(c.channel, "general");
}

#[test]
fn join_moves() {
    let mut c = record("u1", "ann", "general", true);
    join(&mut c, "rust");
    assert_eq!(c.channel, "rust");
    assert_eq!(c.nick, "ann");
}

#[test]
fn publish_sends_the_message_alone_to_clients_with_sockets() {
    let clients = registry();
    let sent = publish_message(
        Event { channel: "general".to_string(), nick: Some("ann".to_string()), message: "hi".to_string() },
        &clients,
    );
    assert_eq!(lines(&sent), vec![pair("k1", "hi"), pair("k2", "hi")]);
}

#[test]
fn publish_to_a_user_id_reaches_that_client() {
    let clients = registry();
    let sent = publish_message(Event { channel: "u2".to_string(), nick: None, message: "psst".to_string() }, &clients);
    assert_eq!(lines(&sent), vec![pair("k2", "psst")]);
}

#[test]
fn system_message_is_published_as_is() {
    let clients = registry();
    let sent = send_system_message("u1".to_string(), "welcome".to_string(), &clients);
    assert_eq!(lines(&sent), vec![pair("k1", "welcome")]);
}

#[test]
fn registry_users_lists_all_nicks() {
    let mut clients = registry();
    clients.insert("k4".to_string(), record("u4", "dan", "rust", true));
    let me = clients.get("k1").unwrap();
    let sent = users(&me, &clients);
    assert_eq!(lines(&sent), vec![pair("k1", "ann\nbob\ncid\n")]);
}

#[test]
fn registry_list_names_each_channel_once() {
    let mut clients = registry();
    clients.insert("k4".to_string(), record("u4", "dan", "rust", true));
    let me = clients.get("k4").unwrap();
    let sent = list(&me, &clients);
    assert_eq!(lines(&sent), vec![pair("k4", "general\nrust\n")]);
}

#[test]
fn insert_under_an_existing_key_replaces() {
    let mut clients = registry();
    clients.insert("k2".to_string(), record("u9", "zed", "rust", false));
    assert_eq!(clients.len(), 3);
    assert_eq!(clients.get("k2").unwrap().nick, "zed");
}

#[test]
fn register_response_names_the_socket() {
    let r = register_response("abc");
    assert_eq!(r.url, "ws://127.0.0.1:8000/ws/abc");
}

#[test]
fn register_handler_draws_an_id_and_registers() {
    let mut clients = Clients::new();
    let (id, r) = register_handler(RegisterRequest { user_id: 7 }, &mut clients);
    assert_eq!(id.len(), 32);
    assert_eq!(r.url, format!("ws://127.0.0.1:8000/ws/{}", id));
    assert_eq!(clients.len(), 1);
    match ws_handler(&id, &clients) {
        Ok(c) => {
            assert_eq!(c.user_id, "7");
            assert_eq!(c.channel, "general");
            assert_eq!(c.nick, "");
            assert!(!c.has_sender);
        }
        Err(_) => panic!("the client was just registered"),
    }
}

#[test]
fn register_client_stores_the_decimal_user_id() {
    let mut clients = Clients::new();
    register_client("key".to_string(), 4021, &mut clients);
    assert_eq!(clients.get("key").unwrap().user_id, "4021");
    register_client("key".to_string(), 0, &mut clients);
    assert_eq!(clients.len(), 1);
    assert_eq!(clients.get("key").unwrap().user_id, "0");
}

#[test]
fn decimal_string_writes_decimal() {
    assert_eq!(decimal_string(0), "0");
    assert_eq!(decimal_string(9), "9");
    assert_eq!(decimal_string(10), "10");
    assert_eq!(decimal_string(1234567890), "1234567890");
    assert_eq!(decimal_string(usize::MAX), usize::MAX.to_string());
}

#[test]
fn publish_handler_sends_to_the_topic() {
    let mut clients = Clients::new();
    clients.insert("k1".to_string(), record("1", "", "general", true));
    clients.insert("k2".to_string(), record("2", "", "general", true));
    clients.insert("k3".to_string(), record("3", "", "general", false));
    clients.insert("k4".to_string(), record("4", "", "rust", true));
    let all = publish_handler(
        &TopicEvent { topic: "general".to_string(), user_id: None, message: "hi".to_string() },
        &clients,
    );
    assert_eq!(lines(&all), vec![pair("k1", "hi"), pair("k2", "hi")]);
    let one = publish_handler(
        &TopicEvent { topic: "general".to_string(), user_id: Some(2), message: "psst".to_string() },
        &clients,
    );
    assert_eq!(lines(&one), vec![pair("k2", "psst")]);
    let none = publish_handler(
        &TopicEvent { topic: "rust".to_string(), user_id: Some(2), message: "x".to_string() },
        &clients,
    );
    assert!(none.is_empty());
}

#[test]
fn ws_handler_finds_registered_clients() {
    let clients = registry();
    match ws_handler("k2", &clients) {
        Ok(c) => assert_eq!(c.nick, "bob"),
        Err(_) => panic!("k2 is registered"),
    }
    assert!(matches!(ws_handler("k9", &clients), Err(Rejection::NotFound)));
}

#[test]
fn unregister_removes_the_client() {
    let mut clients = registry();
    unregister_handler("k1", &mut clients);
    assert_eq!(clients.len(), 2);
    assert!(clients.get("k1").is_none());
    assert!(matches!(ws_handler("k1", &clients), Err(Rejection::NotFound)));
}

#[test]
fn unregister_undoes_register() {
    let mut clients = registry();
    clients.insert("k7".to_string(), record("u7", "eve", "rust", true));
    unregister_handler("k7", &mut clients);
    assert_eq!(clients.len(), 3);
    assert!(clients.get("k7").is_none());
    assert_eq!(clients.get("k1").unwrap().nick, "ann");
}

#[test]
fn set_connected_marks_the_socket() {
    let mut clients = registry();
    clients.set_connected("k3", true);
    assert!(clients.get("k3").unwrap().has_sender);
    let sent = send_system_message("general".to_string(), "hi".to_string(), &clients);
    assert_eq!(sent.len(), 3);
    clients.set_connected("k1", false);
    assert!(!clients.get("k1").unwrap().has_sender);
    assert_eq!(clients.get("k1").unwrap().nick, "ann");
    clients.set_connected("missing", true);
    assert_eq!(clients.len(), 3);
}

use rust_webapp::index_page::{
    get_build_state, join_announcement_channel, on_connection_failed, on_message, on_open, on_server_render,
    on_setup, on_submit, opening_command, placeholder,
};

#[test]
fn build_state_starts_in_general() {
    let p = get_build_state("index".to_string(), "en-US".to_string());
    assert_eq!(p.channel, "General");
    assert_eq!(p.messages, "");
    assert_eq!(p.draft, "");
}

#[test]
fn received_lines_are_appended() {
    let mut p = get_build_state(String::new(), String::new());
    on_message(&mut p, "hello");
    on_message(&mut p, "world");
    assert_eq!(p.messages, "hello\nworld\n");
    assert_eq!(p.channel, "General");
}

#[test]
fn join_announcement_renames_the_channel() {
    let mut p = get_build_state(String::new(), String::new());
    on_message(&mut p, "System: bob joined rust");
    assert_eq!(p.channel, "rust");
    assert_eq!(p.messages, "System: bob joined rust\n");
}

#[test]
fn join_announcement_takes_the_last_joined() {
    let mut p = get_build_state(String::new(), String::new());
    on_message(&mut p, "System: a joined b joined c");
    assert_eq!(p.channel, "c");
}

#[test]
fn not_an_announcement_keeps_the_channel() {
    let mut p = get_build_state(String::new(), String::new());
    on_message(&mut p, "bob joined the channel: System");
    assert_eq!(p.channel, "General");
    on_message(&mut p, "System: bob joined ");
    assert_eq!(p.channel, "General");
    on_message(&mut p, "System: bob joined rust\nmore");
    assert_eq!(p.channel, "General");
    on_message(&mut p, "System:  joined x");
    assert_eq!(p.channel, "General");
}

#[test]
fn connection_states() {
    let mut p = get_build_state(String::new(), String::new());
    on_server_render(&mut p);
    assert_eq!(p.messages, "Loading...");
    on_connection_failed(&mut p);
    assert_eq!(p.messages, "Could not connect to server");
    assert_eq!(opening_command(), "/help");
}

#[test]
fn submitting_takes_and_clears_the_draft() {
    let mut p = get_build_state(String::new(), String::new());
    p.draft = "/nick alice".to_string();
    assert_eq!(on_submit(&mut p, true), Some("/nick alice".to_string()));
    assert_eq!(p.draft, "");
    p.draft = "lost".to_string();
    assert_eq!(on_submit(&mut p, false), None);
    assert_eq!(p.draft, "");
}

#[test]
fn setup_shows_connection_problems() {
    let mut p = get_build_state(String::new(), String::new());
    assert!(on_setup(&mut p, true, true));
    assert_eq!(p.messages, "");
    assert!(!on_setup(&mut p, true, false));
    assert_eq!(p.messages, "Could not connect to server");
    let mut q = get_build_state(String::new(), String::new());
    assert!(!on_setup(&mut q, false, true));
    assert_eq!(q.messages, "Could not connect to server");
}

#[test]
fn failed_opening_send_shows_the_problem() {
    let mut p = get_build_state(String::new(), String::new());
    on_open(&mut p, true);
    assert_eq!(p.messages, "");
    on_open(&mut p, false);
    assert_eq!(p.messages, "Could not connect to server");
}

#[test]
fn join_announcement_channel_reads_announcements() {
    assert_eq!(join_announcement_channel("System: bob joined rust"), Some("rust".to_string()));
    assert_eq!(join_announcement_channel("System: a joined b joined c"), Some("c".to_string()));
    assert_eq!(join_announcement_channel("System: a joined b joined "), Some("b joined ".to_string()));
    assert_eq!(join_announcement_channel("System: é joined ü"), Some("ü".to_string()));
    assert_eq!(join_announcement_channel("System:  joined x"), None);
    assert_eq!(join_announcement_channel("System: bob joined "), None);
    assert_eq!(join_announcement_channel("system: bob joined rust"), None);
    assert_eq!(join_announcement_channel("System: bob\n joined rust"), None);
    assert_eq!(join_announcement_channel("bob joined the channel: System"), None);
    assert_eq!(join_announcement_channel(""), None);
}

#[test]
fn placeholder_names_the_channel() {
    let mut p = get_build_state(String::new(), String::new());
    assert_eq!(placeholder(&p), "Message General");
    on_message(&mut p, "System: x joined dev");
    assert_eq!(placeholder(&p), "Message dev");
}

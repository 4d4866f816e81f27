use doki_bot::blacklist::{Blacklists, MarkovBlacklistedUsers, IdSet, Toggled};
use doki_bot::corpus::MarkovChain;
use doki_bot::engine::{
    add_or_remove_user_from_markov_blacklist, blacklist_change_message, blacklisted_command,
    on_message, route_message, should_add_message_to_markov_file, Action, ChatMessage,
    TRY_AGAIN_LATER,
};
use doki_bot::mentions::MentionedUser;

fn msg(content: &str, author: u64, directed: bool) -> ChatMessage {
    ChatMessage {
        content: content.to_string(),
        author_id: author,
        channel_id: 10,
        author_is_bot: false,
        directed_at_bot: directed,
        mentions: vec![MentionedUser { id: 123, name: "Alice".to_string() }],
    }
}

#[test]
fn message_is_learned() {
    let mut c = MarkovChain::new();
    let b = Blacklists::new();
    let r = on_message(&mut c, &b, &msg("<@123> that movie was really  good honestly", 5, false));
    assert_eq!(r, None);
    let e = c.export();
    assert_eq!(e.len(), 1);
    assert_eq!(e[0].text, "alice that movie was really good honestly");
    assert_eq!(e[0].refs, vec![5]);
}

#[test]
fn short_message_leaves_corpus_unchanged() {
    let mut c = MarkovChain::new();
    let b = Blacklists::new();
    assert_eq!(on_message(&mut c, &b, &msg("too short really", 5, false)), None);
    assert_eq!(c.len(), 0);
}

#[test]
fn blacklisted_author_not_learned() {
    let mut c = MarkovChain::new();
    let mut b = Blacklists::new();
    b.toggle_author(5);
    on_message(&mut c, &b, &msg("one two three four five six", 5, false));
    assert_eq!(c.len(), 0);
    on_message(&mut c, &b, &msg("one two three four five six", 6, false));
    assert_eq!(c.len(), 1);
}

#[test]
fn blacklisted_channel_not_learned() {
    let mut b = Blacklists::new();
    b.toggle_channel(10);
    assert_eq!(should_add_message_to_markov_file(&b, &msg("one two three four five", 1, false)), None);
}

#[test]
fn directed_message_gets_reply_and_is_not_learned() {
    let mut c = MarkovChain::new();
    let b = Blacklists::new();
    let r = on_message(&mut c, &b, &msg("hey bot say something nice now", 5, true));
    assert_eq!(r, Some(TRY_AGAIN_LATER.to_string()));
    assert_eq!(c.len(), 0);
}

#[test]
fn directed_message_gets_generated_line() {
    let mut c = MarkovChain::new();
    c.learn("the quick brown fox jumps over the lazy dog".to_string(), 1);
    c.learn("the quick brown fox jumps over the lazy dog".to_string(), 2);
    let b = Blacklists::new();
    let r = on_message(&mut c, &b, &msg("talk", 5, true));
    assert_eq!(r, Some("the quick brown fox jumps over the lazy dog".to_string()));
}

#[test]
fn toggle_messages() {
    assert_eq!(
        blacklist_change_message(Toggled::Added, true, "bob"),
        "Added bob to the list of blacklisted users"
    );
    assert_eq!(
        blacklist_change_message(Toggled::Removed, true, "bob"),
        "Removed bob from the list of blacklisted users"
    );
    assert_eq!(
        blacklist_change_message(Toggled::Added, false, "bob"),
        "Couldn't add the user to the file"
    );
    assert_eq!(
        blacklist_change_message(Toggled::Removed, false, "bob"),
        "Couldn't remove the user from the file"
    );
}

#[test]
fn user_blacklist_toggles() {
    let mut users = MarkovBlacklistedUsers { ids: IdSet::new() };
    assert_eq!(add_or_remove_user_from_markov_blacklist(&mut users, 3), Toggled::Added);
    assert!(users.ids.contains(3));
    assert_eq!(add_or_remove_user_from_markov_blacklist(&mut users, 3), Toggled::Removed);
    assert!(!users.ids.contains(3));
}

#[test]
fn blacklisted_list_text() {
    assert_eq!(blacklisted_command(&vec![]), "Currently there are no blacklisted users");
    assert_eq!(blacklisted_command(&vec!["ann".to_string()]), "Blacklisted users: ann");
    assert_eq!(
        blacklisted_command(&vec!["ann".to_string(), "bo".to_string(), "cy".to_string()]),
        "Blacklisted users: ann, bo, cy"
    );
}

#[test]
fn routing_follows_address_and_gates() {
    let mut b = Blacklists::new();
    assert!(matches!(route_message(&b, &msg("anything at all here now", 1, true)), Action::Reply));
    match route_message(&b, &msg("One two three four five!", 1, false)) {
        Action::Learn(line) => assert_eq!(line, "one two three four five"),
        other => panic!("expected a line to learn, got {other:?}"),
    }
    assert!(matches!(route_message(&b, &msg("one two", 1, false)), Action::Ignore));
    b.toggle_author(1);
    assert!(matches!(route_message(&b, &msg("one two three four five", 1, false)), Action::Ignore));
    assert!(matches!(route_message(&b, &msg("one two three four five", 1, true)), Action::Reply));
}

#[test]
fn bot_messages_are_ignored() {
    let mut c = MarkovChain::new();
    let b = Blacklists::new();
    let mut m = msg("one two three four five six", 5, false);
    m.author_is_bot = true;
    assert!(matches!(route_message(&b, &m), Action::Ignore));
    assert_eq!(on_message(&mut c, &b, &m), None);
    m.directed_at_bot = true;
    assert_eq!(on_message(&mut c, &b, &m), None);
    assert_eq!(c.len(), 0);
}

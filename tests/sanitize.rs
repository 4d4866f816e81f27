use doki_bot::mentions::MentionedUser;
use doki_bot::sanitize::{
    filter_message_for_markov_file, filter_string_for_markov_file, resolve_message_text,
};

fn alice() -> Vec<MentionedUser> {
    vec![MentionedUser { id: 123, name: "Alice".to_string() }]
}

#[test]
fn mention_is_resolved_and_learned() {
    let r = filter_message_for_markov_file(
        "<@123> that movie was really really good honestly",
        &alice(),
    );
    assert_eq!(r, Some("alice that movie was really really good honestly".to_string()));
}

#[test]
fn double_space_collapses_in_mention_scenario() {
    let r = filter_message_for_markov_file("<@123> that movie was really  good honestly", &alice());
    let line = r.unwrap();
    assert_eq!(line, "alice that movie was really good honestly");
    assert_eq!(line.split(' ').count(), 7);
}

#[test]
fn nickname_mention_is_resolved() {
    let r = filter_message_for_markov_file("hey <@!123> how are you doing", &alice());
    assert_eq!(r, Some("hey alice how are you doing".to_string()));
}

#[test]
fn unknown_mention_drops_message() {
    let r = filter_message_for_markov_file("<@999> that movie was really good", &alice());
    assert_eq!(r, None);
}

#[test]
fn oversized_mention_id_drops_message() {
    let r = filter_message_for_markov_file("<@99999999999999999999> one two three four five", &alice());
    assert_eq!(r, None);
}

#[test]
fn first_matching_mention_entry_wins() {
    let users = vec![
        MentionedUser { id: 7, name: "bob".to_string() },
        MentionedUser { id: 7, name: "carl".to_string() },
    ];
    let r = filter_message_for_markov_file("<@7> is here with us today", &users);
    assert_eq!(r, Some("bob is here with us today".to_string()));
}

#[test]
fn too_few_tokens_rejected() {
    assert_eq!(filter_message_for_markov_file("one two three four", &vec![]), None);
    assert_eq!(
        filter_message_for_markov_file("one two three four five", &vec![]),
        Some("one two three four five".to_string())
    );
}

#[test]
fn empty_message_rejected() {
    assert_eq!(filter_message_for_markov_file("", &vec![]), None);
}

#[test]
fn plain_variant_keeps_short_text() {
    assert_eq!(filter_string_for_markov_file("Hi there"), "hi there");
    assert_eq!(filter_string_for_markov_file(""), "");
}

#[test]
fn emote_is_blanked() {
    assert_eq!(filter_string_for_markov_file("nice <:pog:123456> one"), "nice one");
}

#[test]
fn animated_emote_is_blanked() {
    assert_eq!(filter_string_for_markov_file("lets <a:dance:42> go"), "lets go");
}

#[test]
fn role_mention_is_blanked() {
    assert_eq!(filter_string_for_markov_file("ping <@&987> now"), "ping now");
}

#[test]
fn symbols_become_spaces() {
    assert_eq!(filter_string_for_markov_file("wow!!! great, really?"), "wow great really");
    assert_eq!(filter_string_for_markov_file("a°b˝c"), "a b c");
}

#[test]
fn snowflake_token_removed() {
    assert_eq!(filter_string_for_markov_file("id 123456789012345678 here"), "id here");
    assert_eq!(
        filter_string_for_markov_file("id 1234567890123456789 here"),
        "id 1234567890123456789 here"
    );
    assert_eq!(filter_string_for_markov_file("123456789012345678"), "");
}

#[test]
fn line_feed_removed() {
    assert_eq!(filter_string_for_markov_file("hello\nworld"), "helloworld");
}

#[test]
fn capitals_lowered() {
    assert_eq!(filter_string_for_markov_file("McDonald ABc HELLO"), "mcdonald abc HELLO");
}

#[test]
fn url_is_cut_out() {
    assert_eq!(
        filter_string_for_markov_file("look at https://example.com/page right now ok"),
        "look at right now ok"
    );
}

#[test]
fn dotted_word_is_cut_as_host() {
    assert_eq!(filter_string_for_markov_file("I saw it. Then left"), "I saw then left");
}

#[test]
fn trailing_spaces_and_whitespace_trimmed() {
    assert_eq!(filter_string_for_markov_file("  \tsome words here   "), "some words here");
}

#[test]
fn plain_sanitizing_is_idempotent() {
    for s in [
        "<@123> Wow!!! Check https://x.org/a?b=1 now\nplease   OK",
        "  <:pog:1> 123456789012345678 Hello.World ",
        "ABc, DEf: ghi",
    ] {
        let once = filter_string_for_markov_file(s);
        assert_eq!(filter_string_for_markov_file(&once), once);
    }
}

#[test]
fn message_variant_returns_plain_text_unchanged() {
    let once = filter_string_for_markov_file("Well, THAT was quite the show tonight!");
    assert_eq!(filter_message_for_markov_file(&once, &alice()), Some(once.clone()));
}

#[test]
fn resolving_skips_links_and_floor() {
    assert_eq!(resolve_message_text("<@123> hi", &alice()), Some("alice hi".to_string()));
    assert_eq!(resolve_message_text("<@5> hi", &alice()), None);
}

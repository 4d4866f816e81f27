use doki_bot::commands::{ButtonIds, Command};
use doki_bot::global_data::{BotChannelIds, ListenerResponse};

#[test]
fn command_names_round_trip() {
    let all = [
        Command::ping, Command::id, Command::blacklisteddata, Command::stopsavingmymessages,
        Command::continuesavingmymessages, Command::createtag, Command::removetag, Command::tags,
        Command::blacklistmefromtags, Command::settagresponsechannel, Command::help,
        Command::version, Command::play, Command::skip, Command::stop, Command::playing,
        Command::queue, Command::loop_song, Command::swap_songs,
    ];
    for c in all {
        assert_eq!(Command::from_name(c.name()), Some(c));
    }
    assert_eq!(Command::loop_song.name(), "loop");
    assert_eq!(Command::from_name("blacklisted-data"), Some(Command::blacklisteddata));
    assert_eq!(Command::from_name("loop_song"), None);
    assert_eq!(Command::from_name(""), None);
}

#[test]
fn button_names_round_trip() {
    for b in [ButtonIds::BlacklistMeFromTags, ButtonIds::QueueNext, ButtonIds::QueuePrevious] {
        assert_eq!(ButtonIds::from_name(b.name()), Some(b));
    }
    assert_eq!(ButtonIds::from_name("QueueLast"), None);
}

#[test]
fn responses_are_replaced_by_keyword() {
    let mut t = ListenerResponse::new();
    assert_eq!(t.response("hi"), None);
    t.set("hi".to_string(), "hello".to_string());
    t.set("bye".to_string(), "see you".to_string());
    t.set("hi".to_string(), "hey".to_string());
    assert_eq!(t.response("hi"), Some("hey".to_string()));
    assert_eq!(t.response("bye"), Some("see you".to_string()));
}

#[test]
fn channel_per_guild() {
    let mut b = BotChannelIds::new();
    assert_eq!(b.channel_of(1), None);
    b.set_channel(1, 50);
    b.set_channel(2, 60);
    b.set_channel(1, 70);
    assert_eq!(b.channel_of(1), Some(70));
    assert_eq!(b.channel_of(2), Some(60));
}

//! The names of the slash commands and of the message buttons.
use vstd::prelude::*;
use crate::text::same_str;

verus! {

/// The slash commands, each named as users type it.
#[allow(non_camel_case_types)]
#[derive(Clone, Copy, PartialEq, Eq, Debug)]
pub enum Command {
    ping,
    id,
    blacklisteddata,
    stopsavingmymessages,
    continuesavingmymessages,
    createtag,
    removetag,
    tags,
    blacklistmefromtags,
    settagresponsechannel,
    help,
    version,
    play,
    skip,
    stop,
    playing,
    queue,
    /// Named `loop`.
    loop_song,
    swap_songs,
}

/// The name a command goes by.
pub open spec fn command_name(c: Command) -> Seq<char> {
    match c {
        Command::ping => "ping"@,
        Command::id => "id"@,
        Command::blacklisteddata => "blacklisted-data"@,
        Command::stopsavingmymessages => "stop-saving-my-messages"@,
        Command::continuesavingmymessages => "continue-saving-my-messages"@,
        Command::createtag => "create-tag"@,
        Command::removetag => "remove-tag"@,
        Command::tags => "tags"@,
        Command::blacklistmefromtags => "blacklist-me-from-tags"@,
        Command::settagresponsechannel => "set-tag-response-channel"@,
        Command::help => "help"@,
        Command::version => "version"@,
        Command::play => "play"@,
        Command::skip => "skip"@,
        Command::stop => "stop"@,
        Command::playing => "playing"@,
        Command::queue => "queue"@,
        Command::loop_song => "loop"@,
        Command::swap_songs => "swap-songs"@,
    }
}

/// The command that goes by `s`, if any.
pub open spec fn command_named(s: Seq<char>) -> Option<Command> {
    if s == "ping"@ {
        Some(Command::ping)
    } else if s == "id"@ {
        Some(Command::id)
    } else if s == "blacklisted-data"@ {
        Some(Command::blacklisteddata)
    } else if s == "stop-saving-my-messages"@ {
        Some(Command::stopsavingmymessages)
    } else if s == "continue-saving-my-messages"@ {
        Some(Command::continuesavingmymessages)
    } else if s == "create-tag"@ {
        Some(Command::createtag)
    } else if s == "remove-tag"@ {
        Some(Command::removetag)
    } else if s == "tags"@ {
        Some(Command::tags)
    } else if s == "blacklist-me-from-tags"@ {
        Some(Command::blacklistmefromtags)
    } else if s == "set-tag-response-channel"@ {
        Some(Command::settagresponsechannel)
    } else if s == "help"@ {
        Some(Command::help)
    } else if s == "version"@ {
        Some(Command::version)
    } else if s == "play"@ {
        Some(Command::play)
    } else if s == "skip"@ {
        Some(Command::skip)
    } else if s == "stop"@ {
        Some(Command::stop)
    } else if s == "playing"@ {
        Some(Command::playing)
    } else if s == "queue"@ {
        Some(Command::queue)
    } else if s == "loop"@ {
        Some(Command::loop_song)
    } else if s == "swap-songs"@ {
        Some(Command::swap_songs)
    } else {
        None
    }
}

impl Command {
    /// The name this command goes by.
    pub fn name(&self) -> (r: &'static str)
        ensures
            r@ == command_name(*self),
    {
        match self {
            Command::ping => "ping",
            Command::id => "id",
            Command::blacklisteddata => "blacklisted-data",
            Command::stopsavingmymessages => "stop-saving-my-messages",
            Command::continuesavingmymessages => "continue-saving-my-messages",
            Command::createtag => "create-tag",
            Command::removetag => "remove-tag",
            Command::tags => "tags",
            Command::blacklistmefromtags => "blacklist-me-from-tags",
            Command::settagresponsechannel => "set-tag-response-channel",
            Command::help => "help",
            Command::version => "version",
            Command::play => "play",
            Command::skip => "skip",
            Command::stop => "stop",
            Command::playing => "playing",
            Command::queue => "queue",
            Command::loop_song => "loop",
            Command::swap_songs => "swap-songs",
        }
    }

    /// The command that goes by `name`, if any.
    pub fn from_name(name: &str) -> (r: Option<Command>)
        ensures
            r == command_named(name@),
    {
        if same_str(name, "ping") {
            return Some(Command::ping);
        }
        if same_str(name, "id") {
            return Some(Command::id);
        }
        if same_str(name, "blacklisted-data") {
            return Some(Command::blacklisteddata);
        }
        if same_str(name, "stop-saving-my-messages") {
            return Some(Command::stopsavingmymessages);
        }
        if same_str(name, "continue-saving-my-messages") {
            return Some(Command::continuesavingmymessages);
        }
        if same_str(name, "create-tag") {
            return Some(Command::createtag);
        }
        if same_str(name, "remove-tag") {
            return Some(Command::removetag);
        }
        if same_str(name, "tags") {
            return Some(Command::tags);
        }
        if same_str(name, "blacklist-me-from-tags") {
            return Some(Command::blacklistmefromtags);
        }
        if same_str(name, "set-tag-response-channel") {
            return Some(Command::settagresponsechannel);
        }
        if same_str(name, "help") {
            return Some(Command::help);
        }
        if same_str(name, "version") {
            return Some(Command::version);
        }
        if same_str(name, "play") {
            return Some(Command::play);
        }
        if same_str(name, "skip") {
            return Some(Command::skip);
        }
        if same_str(name, "stop") {
            return Some(Command::stop);
        }
        if same_str(name, "playing") {
            return Some(Command::playing);
        }
        if same_str(name, "queue") {
            return Some(Command::queue);
        }
        if same_str(name, "loop") {
            return Some(Command::loop_song);
        }
        if same_str(name, "swap-songs") {
            return Some(Command::swap_songs);
        }
        None
    }
}

/// The buttons the bot attaches to messages, each named by its custom id.
#[allow(non_camel_case_types)]
#[derive(Clone, Copy, PartialEq, Eq, Debug)]
pub enum ButtonIds {
    BlacklistMeFromTags,
    QueueNext,
    QueuePrevious,
}

/// The custom id a button goes by.
pub open spec fn button_name(c: ButtonIds) -> Seq<char> {
    match c {
        ButtonIds::BlacklistMeFromTags => "BlacklistMeFromTags"@,
        ButtonIds::QueueNext => "QueueNext"@,
        ButtonIds::QueuePrevious => "QueuePrevious"@,
    }
}

/// The button whose custom id is `s`, if any.
pub open spec fn button_named(s: Seq<char>) -> Option<ButtonIds> {
    if s == "BlacklistMeFromTags"@ {
        Some(ButtonIds::BlacklistMeFromTags)
    } else if s == "QueueNext"@ {
        Some(ButtonIds::QueueNext)
    } else if s == "QueuePrevious"@ {
        Some(ButtonIds::QueuePrevious)
    } else {
        None
    }
}

impl ButtonIds {
    /// The custom id of this button.
    pub fn name(&self) -> (r: &'static str)
        ensures
            r@ == button_name(*self),
    {
        match self {
            ButtonIds::BlacklistMeFromTags => "BlacklistMeFromTags",
            ButtonIds::QueueNext => "QueueNext",
            ButtonIds::QueuePrevious => "QueuePrevious",
        }
    }

    /// The button whose custom id is `name`, if any.
    pub fn from_name(name: &str) -> (r: Option<ButtonIds>)
        ensures
            r == button_named(name@),
    {
        if same_str(name, "BlacklistMeFromTags") {
            return Some(ButtonIds::BlacklistMeFromTags);
        }
        if same_str(name, "QueueNext") {
            return Some(ButtonIds::QueueNext);
        }
        if same_str(name, "QueuePrevious") {
            return Some(ButtonIds::QueuePrevious);
        }
        None
    }
}

} // verus!

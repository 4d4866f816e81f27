//! What the bot does with a chat message: whether and what to learn from it,
//! and what to reply when it is addressed. The caller holds the corpus and the
//! blacklists and performs the sending and the saving.
use vstd::prelude::*;
use crate::blacklist::{Blacklists, MarkovBlacklistedUsers, Toggled, toggled};
use crate::corpus::{learned, ref_count, Exhausted, GenerationResult, MarkovChain, MIN_REFS};
use crate::mentions::{mention_table, MentionedUser};
use crate::sanitize::{filter_message_for_markov_file, message_text, MIN_NUM_OF_WORDS};
use crate::text::{joined, token_count};

verus! {

/// The reply when no generated line was accepted.
pub const TRY_AGAIN_LATER: &'static str = "Try again later.";

/// An inbound chat message, as the chat platform hands it over.
#[derive(Debug)]
pub struct ChatMessage {
    pub content: String,
    pub author_id: u64,
    pub channel_id: u64,
    /// The author is a bot; such messages are neither learned nor answered.
    pub author_is_bot: bool,
    /// The message mentions or replies to the bot.
    pub directed_at_bot: bool,
    /// Every user the content mentions.
    pub mentions: Vec<MentionedUser>,
}

/// The line to learn from `msg`: none for a message by a bot or addressed to
/// the bot, for a blacklisted author or channel, or where sanitizing rejects it.
pub open spec fn learnable(blocked: bool, msg: ChatMessage) -> Option<Seq<char>> {
    if msg.author_is_bot || msg.directed_at_bot || blocked {
        None
    } else {
        message_text(msg.content@, mention_table(msg.mentions@))
    }
}

/// Decides whether a message is learned, and in which sanitized form.
pub fn should_add_message_to_markov_file(blacklists: &Blacklists, msg: &ChatMessage) -> (r: Option<
    String,
>)
    ensures
        r matches Some(t) ==> learnable(blacklists.blocks(msg.author_id, msg.channel_id), *msg)
            == Some(t@),
        r is None ==> learnable(blacklists.blocks(msg.author_id, msg.channel_id), *msg) is None,
{
    if msg.author_is_bot || msg.directed_at_bot || blacklists.is_blocked(
        msg.author_id,
        msg.channel_id,
    ) {
        None
    } else {
        filter_message_for_markov_file(msg.content.as_str(), &msg.mentions)
    }
}

/// What to do with a message.
#[derive(Debug)]
pub enum Action {
    /// Generate a line and send it back.
    Reply,
    /// Learn this sanitized line from the author.
    Learn(String),
    /// Nothing.
    Ignore,
}

/// Decides what to do with a message: nothing when a bot wrote it, a reply
/// when it is addressed to the bot, else learn its sanitized form when
/// `should_add_message_to_markov_file` gives one. Only the blacklists are
/// read; the corpus is not needed yet.
pub fn route_message(blacklists: &Blacklists, msg: &ChatMessage) -> (r: Action)
    ensures
        msg.author_is_bot ==> r is Ignore,
        !msg.author_is_bot && msg.directed_at_bot ==> r is Reply,
        !msg.directed_at_bot ==> match learnable(blacklists.blocks(msg.author_id, msg.channel_id), *msg) {
            Some(line) => r matches Action::Learn(t) && t@ == line,
            None => r is Ignore,
        },
{
    if msg.author_is_bot {
        return Action::Ignore;
    }
    if msg.directed_at_bot {
        return Action::Reply;
    }
    match should_add_message_to_markov_file(blacklists, msg) {
        Some(line) => Action::Learn(line),
        None => Action::Ignore,
    }
}

/// The reply for a generation outcome: the line, or `TRY_AGAIN_LATER`.
pub fn send_markov_text(result: Result<GenerationResult, Exhausted>) -> (r: String)
    ensures
        result matches Ok(g) ==> r@ == g.text@,
        result is Err ==> r@ == TRY_AGAIN_LATER@,
{
    match result {
        Ok(g) => g.text,
        Err(_) => String::from_str(TRY_AGAIN_LATER),
    }
}

/// Handles one message: a message by a bot is ignored; one addressed to the
/// bot gets a generated reply
/// and teaches nothing; any other is learned from its author when the
/// blacklists let it through and sanitizing accepts it, and gets no reply.
pub fn on_message(corpus: &mut MarkovChain, blacklists: &Blacklists, msg: &ChatMessage) -> (r: Option<
    String,
>)
    ensures
        msg.author_is_bot ==> r is None && final(corpus)@ == old(corpus)@,
        !msg.author_is_bot && msg.directed_at_bot ==> final(corpus)@ == old(corpus)@ && (r matches Some(
            t,
        ) && (t@ == TRY_AGAIN_LATER@ || token_count(t@) >= MIN_NUM_OF_WORDS)),
        !msg.author_is_bot && msg.directed_at_bot && (forall|i: int|
            0 <= i < old(corpus)@.len() ==> ref_count(old(corpus)@, i) < MIN_REFS) ==> (r matches Some(
            t,
        ) && t@ == TRY_AGAIN_LATER@),
        !msg.directed_at_bot ==> r is None && final(corpus)@ == match learnable(
            blacklists.blocks(msg.author_id, msg.channel_id),
            *msg,
        ) {
            Some(line) => learned(old(corpus)@, line, msg.author_id),
            None => old(corpus)@,
        },
{
    match route_message(blacklists, msg) {
        Action::Reply => Some(send_markov_text(corpus.generate())),
        Action::Learn(line) => {
            corpus.learn(line, msg.author_id);
            None
        },
        Action::Ignore => None,
    }
}

/// Blacklists a user for learning, or lifts it, and says which.
pub fn add_or_remove_user_from_markov_blacklist(users: &mut MarkovBlacklistedUsers, user_id: u64) -> (r:
    Toggled)
    ensures
        final(users).ids@ == toggled(old(users).ids@, user_id),
        r == (if old(users).ids@.contains(user_id) {
            Toggled::Removed
        } else {
            Toggled::Added
        }),
{
    users.ids.toggle(user_id)
}

/// What to tell the user after a toggle, given whether saving the list worked.
pub fn blacklist_change_message(change: Toggled, saved: bool, user_name: &str) -> (r: String)
    ensures
        r@ == match (change, saved) {
            (Toggled::Removed, true) => "Removed "@ + user_name@
                + " from the list of blacklisted users"@,
            (Toggled::Removed, false) => "Couldn't remove the user from the file"@,
            (Toggled::Added, true) => "Added "@ + user_name@ + " to the list of blacklisted users"@,
            (Toggled::Added, false) => "Couldn't add the user to the file"@,
        },
{
    match (change, saved) {
        (Toggled::Removed, true) => {
            let mut m = String::from_str("Removed ");
            m.append(user_name);
            m.append(" from the list of blacklisted users");
            m
        },
        (Toggled::Removed, false) => String::from_str("Couldn't remove the user from the file"),
        (Toggled::Added, true) => {
            let mut m = String::from_str("Added ");
            m.append(user_name);
            m.append(" to the list of blacklisted users");
            m
        },
        (Toggled::Added, false) => String::from_str("Couldn't add the user to the file"),
    }
}

/// The list of blacklisted users, by name, or a note that there is none.
pub fn blacklisted_command(names: &Vec<String>) -> (r: String)
    ensures
        names@.len() == 0 ==> r@ == "Currently there are no blacklisted users"@,
        names@.len() > 0 ==> r@ == "Blacklisted users: "@ + joined(
            names@.map_values(|n: String| n@),
            ", "@,
        ),
{
    if names.len() == 0 {
        return String::from_str("Currently there are no blacklisted users");
    }
    let ghost views = names@.map_values(|n: String| n@);
    let mut list = names[0].clone();
    assert(views.subrange(0, 1).len() == 1);
    let mut k: usize = 1;
    while k < names.len()
        invariant
            1 <= k <= names@.len(),
            views == names@.map_values(|n: String| n@),
            list@ == joined(views.subrange(0, k as int), ", "@),
        decreases names.len() - k,
    {
        list.append(", ");
        list.append(names[k].as_str());
        assert(views.subrange(0, k + 1).drop_last() =~= views.subrange(0, k as int));
        k = k + 1;
    }
    assert(views.subrange(0, k as int) =~= views);
    let mut m = String::from_str("Blacklisted users: ");
    m.append(list.as_str());
    m
}

} // verus!

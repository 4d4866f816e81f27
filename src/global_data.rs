//! Lookup tables the bot keeps besides the corpus: keyword responses, and the
//! channel each server wants responses in.
use vstd::prelude::*;
use std::collections::HashMap;
use crate::text::same_str;

verus! {

broadcast use vstd::std_specs::hash::group_hash_axioms;

/// Keyword responses: each keyword once, with the text to answer it with.
#[derive(Debug)]
pub struct ListenerResponse {
    entries: Vec<(String, String)>,
}

impl View for ListenerResponse {
    type V = Seq<(Seq<char>, Seq<char>)>;

    closed spec fn view(&self) -> Seq<(Seq<char>, Seq<char>)> {
        self.entries@.map_values(|e: (String, String)| (e.0@, e.1@))
    }
}

/// The response stored for `keyword` in `table`.
pub open spec fn response_of(table: Seq<(Seq<char>, Seq<char>)>, keyword: Seq<char>) -> Option<
    Seq<char>,
>
    decreases table.len(),
{
    if table.len() == 0 {
        None
    } else if table[0].0 == keyword {
        Some(table[0].1)
    } else {
        response_of(table.drop_first(), keyword)
    }
}

impl ListenerResponse {
    /// No responses.
    pub fn new() -> (r: ListenerResponse)
        ensures
            r@ == Seq::<(Seq<char>, Seq<char>)>::empty(),
    {
        let r = ListenerResponse { entries: Vec::new() };
        assert(r@ =~= Seq::<(Seq<char>, Seq<char>)>::empty());
        r
    }

    /// The response for `keyword`, if one is stored.
    pub fn response(&self, keyword: &str) -> (r: Option<String>)
        ensures
            r matches Some(t) ==> response_of(self@, keyword@) == Some(t@),
            r is None ==> response_of(self@, keyword@) is None,
    {
        let mut k: usize = 0;
        assert(self@.subrange(0, self@.len() as int) =~= self@);
        while k < self.entries.len()
            invariant
                k <= self@.len() == self.entries@.len(),
                response_of(self@, keyword@) == response_of(
                    self@.subrange(k as int, self@.len() as int),
                    keyword@,
                ),
            decreases self.entries.len() - k,
        {
            let ghost rest = self@.subrange(k as int, self@.len() as int);
            assert(rest.drop_first() =~= self@.subrange(k + 1, self@.len() as int));
            assert(rest[0] == (self.entries@[k as int].0@, self.entries@[k as int].1@));
            if same_str(self.entries[k].0.as_str(), keyword) {
                return Some(self.entries[k].1.clone());
            }
            k = k + 1;
        }
        None
    }

    /// Stores `response` for `keyword`, in place of any earlier one.
    pub fn set(&mut self, keyword: String, response: String)
        ensures
            response_of(final(self)@, keyword@) == Some(response@),
            forall|w: Seq<char>| w != keyword@ ==> response_of(final(self)@, w) == response_of(
                old(self)@,
                w,
            ),
    {
        let mut k: usize = 0;
        let mut kept: Vec<(String, String)> = Vec::new();
        kept.push((keyword.clone(), response));
        let ghost head = seq![(keyword@, response@)];
        assert(kept@.map_values(|e: (String, String)| (e.0@, e.1@)) =~= head);
        assert(head.drop_first() =~= Seq::<(Seq<char>, Seq<char>)>::empty());
        assert(old(self)@.subrange(0, 0) =~= Seq::<(Seq<char>, Seq<char>)>::empty());
        while k < self.entries.len()
            invariant
                k <= old(self)@.len() == self.entries@.len(),
                self@ == old(self)@,
                kept@.len() >= 1,
                kept@.map_values(|e: (String, String)| (e.0@, e.1@))[0] == (keyword@, response@),
                forall|w: Seq<char>| w != keyword@ ==> response_of(
                    kept@.map_values(|e: (String, String)| (e.0@, e.1@)),
                    w,
                ) == response_of(old(self)@.subrange(0, k as int), w),
            decreases self.entries.len() - k,
        {
            let ghost before = kept@.map_values(|e: (String, String)| (e.0@, e.1@));
            if !same_str(self.entries[k].0.as_str(), keyword.as_str()) {
                let e = (self.entries[k].0.clone(), self.entries[k].1.clone());
                kept.push(e);
            }
            proof {
                let after = kept@.map_values(|e: (String, String)| (e.0@, e.1@));
                let p = old(self)@.subrange(0, k + 1);
                assert(p =~= old(self)@.subrange(0, k as int).push(old(self)@[k as int]));
                assert forall|w: Seq<char>| w != keyword@ implies response_of(after, w)
                    == response_of(p, w) by {
                    lemma_response_of_push(before, old(self)@[k as int], w);
                    lemma_response_of_push(old(self)@.subrange(0, k as int), old(self)@[k as int], w);
                    if old(self)@[k as int].0 == keyword@ {
                        assert(after =~= before);
                    } else {
                        assert(after =~= before.push(old(self)@[k as int]));
                    }
                }
            }
            k = k + 1;
        }
        self.entries = kept;
        assert(old(self)@.subrange(0, k as int) =~= old(self)@);
    }
}

proof fn lemma_response_of_push(t: Seq<(Seq<char>, Seq<char>)>, e: (Seq<char>, Seq<char>), w: Seq<char>)
    ensures
        response_of(t.push(e), w) == match response_of(t, w) {
            Some(r) => Some(r),
            None => if e.0 == w {
                Some(e.1)
            } else {
                None
            },
        },
    decreases t.len(),
{
    assert(t.push(e)[t.len() as int] == e);
    if t.len() > 0 {
        assert(t.push(e)[0] == t[0]);
        assert(t.push(e).drop_first() =~= t.drop_first().push(e));
        lemma_response_of_push(t.drop_first(), e, w);
    } else {
        assert(t.push(e).drop_first() =~= Seq::<(Seq<char>, Seq<char>)>::empty());
    }
}

/// For each server, the channel it wants responses in.
#[derive(Debug)]
pub struct BotChannelIds {
    channels: HashMap<u64, u64>,
}

impl View for BotChannelIds {
    type V = Map<u64, u64>;

    closed spec fn view(&self) -> Map<u64, u64> {
        self.channels@
    }
}

impl BotChannelIds {
    /// No channel set for any server.
    pub fn new() -> (r: BotChannelIds)
        ensures
            r@ == Map::<u64, u64>::empty(),
    {
        BotChannelIds { channels: HashMap::new() }
    }

    /// The response channel of `guild_id`, if one is set.
    pub fn channel_of(&self, guild_id: u64) -> (r: Option<u64>)
        ensures
            r matches Some(c) ==> self@.contains_key(guild_id) && self@[guild_id] == c,
            r is None ==> !self@.contains_key(guild_id),
    {
        match self.channels.get(&guild_id) {
            Some(c) => Some(*c),
            None => None,
        }
    }

    /// Sets the response channel of `guild_id`.
    pub fn set_channel(&mut self, guild_id: u64, channel_id: u64)
        ensures
            final(self)@ == old(self)@.insert(guild_id, channel_id),
    {
        self.channels.insert(guild_id, channel_id);
    }
}

} // verus!

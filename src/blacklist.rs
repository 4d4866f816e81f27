//! Blacklists: sets of author or channel ids whose messages are not learned,
//! and the text form they are stored in.
use vstd::prelude::*;
use crate::text::{decimal, joined};

verus! {

#[verifier::external_type_specification]
#[verifier::external_body]
pub struct ExJsonError(serde_json::Error);

/// The JSON text of a list of ids: the decimal numbers in order, joined by
/// commas, between brackets.
pub open spec fn ids_json(ids: Seq<u64>) -> Seq<char> {
    seq!['['] + joined(ids.map_values(|x: u64| decimal(x as nat)), seq![',']) + seq![']']
}

/// The list of ids that a JSON text holds; `None` where it holds none.
pub uninterp spec fn json_ids(text: Seq<char>) -> Option<Seq<u64>>;

/// Relies on `serde_json::to_string`: a sequence of integers is written as a
/// compact JSON array of decimal numbers, in order. It fails only where a
/// `Serialize` impl fails or a map has non-string keys, neither of which a
/// `Vec<u64>` has.
#[verifier::external_body]
fn ids_to_json(ids: &Vec<u64>) -> (r: Result<String, serde_json::Error>)
    ensures
        r is Ok,
        r matches Ok(t) ==> t@ == ids_json(ids@),
{
    serde_json::to_string(ids)
}

/// Relies on `serde_json::from_str`: reads a JSON array of unsigned 64-bit
/// integers, or fails; a compact array of decimal numbers reads as those
/// numbers, in order.
#[verifier::external_body]
fn ids_from_json(text: &str) -> (r: Result<Vec<u64>, serde_json::Error>)
    ensures
        r matches Ok(v) ==> json_ids(text@) == Some(v@),
        r is Err ==> json_ids(text@) is None,
        r is Ok || !exists|v: Seq<u64>| text@ == ids_json(v),
        r matches Ok(w) ==> forall|v: Seq<u64>| text@ == ids_json(v) ==> w@ == v,
{
    serde_json::from_str::<Vec<u64>>(text)
}

/// Why a stored set could not be read.
#[derive(Debug, Clone, Copy, PartialEq, Eq)]
pub enum PersistError {
    /// The stored text is not a list of ids.
    Malformed,
}

/// What a toggle did.
#[derive(Debug, Clone, Copy, PartialEq, Eq)]
pub enum Toggled {
    Added,
    Removed,
}

/// `s` with `id` removed if it holds it, else added.
pub open spec fn toggled(s: Set<u64>, id: u64) -> Set<u64> {
    if s.contains(id) {
        s.remove(id)
    } else {
        s.insert(id)
    }
}

/// A set of ids, kept in the order they were added.
#[derive(Debug)]
pub struct IdSet {
    ids: Vec<u64>,
}

impl View for IdSet {
    type V = Set<u64>;

    closed spec fn view(&self) -> Set<u64> {
        self.ids@.to_set()
    }
}

proof fn lemma_push_to_set(s: Seq<u64>, x: u64)
    ensures
        s.push(x).to_set() == s.to_set().insert(x),
{
    assert forall|y: u64| #[trigger] s.push(x).to_set().contains(y) == s.to_set().insert(
        x,
    ).contains(y) by {
        if s.push(x).contains(y) && y != x {
            let j = choose|j: int| 0 <= j < s.push(x).len() && s.push(x)[j] == y;
            assert(s[j] == y);
        }
        if s.contains(y) {
            let j = choose|j: int| 0 <= j < s.len() && s[j] == y;
            assert(s.push(x)[j] == y);
        }
        if y == x {
            assert(s.push(x)[s.len() as int] == x);
        }
    }
    assert(s.push(x).to_set() =~= s.to_set().insert(x));
}

proof fn lemma_remove_to_set(s: Seq<u64>, k: int)
    requires
        s.no_duplicates(),
        0 <= k < s.len(),
    ensures
        s.remove(k).to_set() == s.to_set().remove(s[k]),
        s.remove(k).no_duplicates(),
{
    let r = s.remove(k);
    assert forall|y: u64| #[trigger] r.to_set().contains(y) == s.to_set().remove(s[k]).contains(
        y,
    ) by {
        if r.contains(y) {
            let j = choose|j: int| 0 <= j < r.len() && r[j] == y;
            if j < k {
                assert(s[j] == y);
            } else {
                assert(s[j + 1] == y);
            }
        }
        if s.contains(y) && y != s[k] {
            let j = choose|j: int| 0 <= j < s.len() && s[j] == y;
            if j < k {
                assert(r[j] == y);
            } else {
                assert(r[j - 1] == y);
            }
        }
    }
    assert(r.to_set() =~= s.to_set().remove(s[k]));
    assert forall|i: int, j: int| 0 <= i < r.len() && 0 <= j < r.len() && i != j implies r[i]
        != r[j] by {
        let si = if i < k {
            i
        } else {
            i + 1
        };
        let sj = if j < k {
            j
        } else {
            j + 1
        };
        assert(r[i] == s[si] && r[j] == s[sj]);
    }
}

impl IdSet {
    /// No id twice.
    #[verifier::type_invariant]
    closed spec fn wf(&self) -> bool {
        self.ids@.no_duplicates()
    }

    /// The ids in the order they were added.
    pub closed spec fn order(&self) -> Seq<u64> {
        self.ids@
    }

    /// An empty set.
    pub fn new() -> (r: IdSet)
        ensures
            r@ == Set::<u64>::empty(),
    {
        let ids: Vec<u64> = Vec::new();
        assert(ids@.to_set() =~= Set::<u64>::empty());
        IdSet { ids }
    }

    fn position(&self, id: u64) -> (r: Option<usize>)
        ensures
            r matches Some(k) ==> k < self.ids@.len() && self.ids@[k as int] == id,
            r is None ==> !self@.contains(id),
    {
        let mut k: usize = 0;
        while k < self.ids.len()
            invariant
                k <= self.ids@.len(),
                forall|j: int| 0 <= j < k ==> self.ids@[j] != id,
            decreases self.ids.len() - k,
        {
            if self.ids[k] == id {
                return Some(k);
            }
            k = k + 1;
        }
        None
    }

    /// Whether the set holds `id`.
    pub fn contains(&self, id: u64) -> (r: bool)
        ensures
            r == self@.contains(id),
    {
        match self.position(id) {
            Some(k) => {
                assert(self.ids@.contains(id));
                true
            },
            None => false,
        }
    }

    /// Adds `id`; `false` where it was there already.
    pub fn insert(&mut self, id: u64) -> (r: bool)
        ensures
            final(self)@ == old(self)@.insert(id),
            r == !old(self)@.contains(id),
    {
        proof {
            use_type_invariant(&*self);
        }
        if self.contains(id) {
            assert(self@.insert(id) =~= self@);
            false
        } else {
            proof {
                lemma_push_to_set(self.ids@, id);
            }
            let mut v: Vec<u64> = Vec::new();
            core::mem::swap(&mut self.ids, &mut v);
            v.push(id);
            assert forall|i: int, j: int| 0 <= i < v@.len() && 0 <= j < v@.len() && i != j implies v@[i]
                != v@[j] by {
                if i == old(self).ids@.len() {
                    assert(old(self).ids@.contains(v@[j]));
                }
                if j == old(self).ids@.len() {
                    assert(old(self).ids@.contains(v@[i]));
                }
            }
            core::mem::swap(&mut self.ids, &mut v);
            true
        }
    }

    /// Removes `id`; `false` where it was not there.
    pub fn remove(&mut self, id: u64) -> (r: bool)
        ensures
            final(self)@ == old(self)@.remove(id),
            r == old(self)@.contains(id),
    {
        proof {
            use_type_invariant(&*self);
        }
        match self.position(id) {
            Some(k) => {
                proof {
                    lemma_remove_to_set(self.ids@, k as int);
                }
                let mut v: Vec<u64> = Vec::new();
                core::mem::swap(&mut self.ids, &mut v);
                v.remove(k);
                core::mem::swap(&mut self.ids, &mut v);
                assert(old(self).ids@.contains(id));
                true
            },
            None => {
                assert(self@.remove(id) =~= self@);
                false
            },
        }
    }

    /// Removes `id` if the set holds it, else adds it, and says which.
    pub fn toggle(&mut self, id: u64) -> (r: Toggled)
        ensures
            final(self)@ == toggled(old(self)@, id),
            r == (if old(self)@.contains(id) {
                Toggled::Removed
            } else {
                Toggled::Added
            }),
    {
        if self.remove(id) {
            Toggled::Removed
        } else {
            self.insert(id);
            Toggled::Added
        }
    }

    /// The set of the ids in `ids`, each kept once, in the order of first occurrence.
    pub fn from_ids(ids: &Vec<u64>) -> (r: IdSet)
        ensures
            r@ == ids@.to_set(),
    {
        let mut r = IdSet::new();
        let mut k: usize = 0;
        while k < ids.len()
            invariant
                k <= ids@.len(),
                r@ == ids@.subrange(0, k as int).to_set(),
            decreases ids.len() - k,
        {
            r.insert(ids[k]);
            proof {
                lemma_push_to_set(ids@.subrange(0, k as int), ids@[k as int]);
                assert(ids@.subrange(0, k + 1) =~= ids@.subrange(0, k as int).push(ids@[k as int]));
            }
            k = k + 1;
        }
        assert(ids@.subrange(0, k as int) =~= ids@);
        r
    }

    /// The ids, each once, in the order they were added.
    pub fn ids(&self) -> (r: Vec<u64>)
        ensures
            r@ == self.order(),
            r@.to_set() == self@,
            r@.no_duplicates(),
    {
        proof {
            use_type_invariant(self);
        }
        self.ids.clone()
    }

    /// The stored text form: a JSON array of the ids in the order they were
    /// added, each id of the set exactly once.
    pub fn to_json(&self) -> (r: String)
        ensures
            r@ == ids_json(self.order()),
            self.order().to_set() == self@,
            self.order().no_duplicates(),
    {
        proof {
            use_type_invariant(self);
        }
        ids_to_json(&self.ids).unwrap()
    }

    /// Reads the stored text form; `Malformed` where it is not a JSON array of ids.
    pub fn from_json(text: &str) -> (r: Result<IdSet, PersistError>)
        ensures
            r is Ok <==> json_ids(text@) is Some,
            r matches Ok(s) ==> s@ == json_ids(text@).unwrap().to_set(),
            forall|v: Seq<u64>| text@ == ids_json(v) ==> (r matches Ok(s) && s@ == v.to_set()),
            r matches Err(e) ==> e == PersistError::Malformed,
    {
        match ids_from_json(text) {
            Ok(v) => Ok(IdSet::from_ids(&v)),
            Err(_) => Err(PersistError::Malformed),
        }
    }
}

/// Toggling an id twice gives the set back.
pub proof fn lemma_toggle_twice(s: Set<u64>, id: u64)
    ensures
        toggled(toggled(s, id), id) == s,
        toggled(toggled(s, id), id).contains(id) == s.contains(id),
{
    if s.contains(id) {
        assert(s.remove(id).insert(id) =~= s);
    } else {
        assert(s.insert(id).remove(id) =~= s);
    }
}

/// Author ids whose messages are not learned.
#[derive(Debug)]
pub struct MarkovBlacklistedUsers {
    pub ids: IdSet,
}

/// Channel ids whose messages are not learned.
#[derive(Debug)]
pub struct MarkovBlacklistedChannels {
    pub ids: IdSet,
}

/// Author ids that keyword responses ignore.
#[derive(Debug)]
pub struct ListenerBlacklistedUsers {
    pub ids: IdSet,
}

/// The two blacklists that gate learning.
#[derive(Debug)]
pub struct Blacklists {
    pub users: MarkovBlacklistedUsers,
    pub channels: MarkovBlacklistedChannels,
}

impl Blacklists {
    /// Whether a message by `author_id` in `channel_id` must not be learned.
    pub open spec fn blocks(&self, author_id: u64, channel_id: u64) -> bool {
        self.users.ids@.contains(author_id) || self.channels.ids@.contains(channel_id)
    }

    /// Both lists empty.
    pub fn new() -> (r: Blacklists)
        ensures
            r.users.ids@ == Set::<u64>::empty(),
            r.channels.ids@ == Set::<u64>::empty(),
    {
        Blacklists {
            users: MarkovBlacklistedUsers { ids: IdSet::new() },
            channels: MarkovBlacklistedChannels { ids: IdSet::new() },
        }
    }

    /// True where either the author or the channel is blacklisted.
    pub fn is_blocked(&self, author_id: u64, channel_id: u64) -> (r: bool)
        ensures
            r == self.blocks(author_id, channel_id),
    {
        self.users.ids.contains(author_id) || self.channels.ids.contains(channel_id)
    }

    /// Blacklists the author, or lifts it, and says which.
    pub fn toggle_author(&mut self, id: u64) -> (r: Toggled)
        ensures
            final(self).users.ids@ == toggled(old(self).users.ids@, id),
            final(self).channels.ids@ == old(self).channels.ids@,
            r == (if old(self).users.ids@.contains(id) {
                Toggled::Removed
            } else {
                Toggled::Added
            }),
    {
        self.users.ids.toggle(id)
    }

    /// Blacklists the channel, or lifts it, and says which.
    pub fn toggle_channel(&mut self, id: u64) -> (r: Toggled)
        ensures
            final(self).channels.ids@ == toggled(old(self).channels.ids@, id),
            final(self).users.ids@ == old(self).users.ids@,
            r == (if old(self).channels.ids@.contains(id) {
                Toggled::Removed
            } else {
                Toggled::Added
            }),
    {
        self.channels.ids.toggle(id)
    }
}

} // verus!

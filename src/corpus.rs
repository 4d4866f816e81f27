//! The corpus store: learned lines, each with the sources it was learned from,
//! and the n-gram generator built from them.
use vstd::prelude::*;
use crate::sanitize::{filter_string_for_markov_file, plain_text, MIN_NUM_OF_WORDS};
use crate::text::{chars_of, has_tokens, joined, token_count, trim};
use std::collections::HashMap;

verus! {

broadcast use vstd::std_specs::hash::group_hash_axioms;

#[verifier::external_type_specification]
#[verifier::external_body]
pub struct ExMarkov(markov_strings::Markov);

#[verifier::external_type_specification]
#[verifier::external_body]
pub struct ExErrorType(markov_strings::ErrorType);

/// The texts a generator was given, in the order they were added.
pub uninterp spec fn markov_texts(m: markov_strings::Markov) -> Seq<Seq<char>>;

/// The number of words in each state of a generator.
pub uninterp spec fn markov_state_size(m: markov_strings::Markov) -> nat;

/// Whether a generator has indexed any start state.
pub uninterp spec fn markov_has_starts(m: markov_strings::Markov) -> bool;

/// Whether a generator's index was built by `add_to_corpus` from its own data:
/// every position it records names an item of the data whose text has the
/// recorded states at that place under the current state size, no state is
/// recorded without continuations, and there are start states whenever any
/// state is recorded.
pub uninterp spec fn markov_built(m: markov_strings::Markov) -> bool;

/// A generator's try count: how many walks one `generate` makes at most, and
/// how many steps each walk takes at most.
pub uninterp spec fn markov_max_tries(m: markov_strings::Markov) -> nat;

/// The number of distinct continuations a generator's index records for the
/// state `b`.
pub uninterp spec fn markov_fanout(m: markov_strings::Markov, b: Seq<char>) -> nat;

/// The pieces that splitting `t` at each space gives, in order.
pub open spec fn split_spaces(t: Seq<char>) -> Seq<Seq<char>>
    decreases t.len(),
{
    if t.len() == 0 {
        seq![seq![]]
    } else if t.last() == ' ' {
        split_spaces(t.drop_last()).push(seq![])
    } else {
        let p = split_spaces(t.drop_last());
        p.update(p.len() - 1, p.last().push(t.last()))
    }
}

/// The `size` words of `t` from word `i` on, joined by spaces: a state.
pub open spec fn block(t: Seq<char>, i: int, size: nat) -> Seq<char> {
    joined(split_spaces(t).subrange(i, i + size), seq![' '])
}

/// `b` opens one of `texts`.
pub open spec fn starts_text(texts: Seq<Seq<char>>, size: nat, b: Seq<char>) -> bool {
    exists|j: int|
        0 <= j < texts.len() && split_spaces(texts[j]).len() >= size && b == #[trigger] block(
            texts[j],
            0,
            size,
        )
}

/// `b` closes one of `texts`.
pub open spec fn ends_text(texts: Seq<Seq<char>>, size: nat, b: Seq<char>) -> bool {
    exists|j: int|
        0 <= j < texts.len() && split_spaces(texts[j]).len() >= size && b == #[trigger] block(
            texts[j],
            split_spaces(texts[j]).len() - size,
            size,
        )
}

/// In `t`, the state `n` directly follows the state `b` somewhere.
pub open spec fn occurs_in(t: Seq<char>, size: nat, b: Seq<char>, n: Seq<char>) -> bool {
    exists|i: int|
        0 <= i && i + 2 * size <= split_spaces(t).len() && b == #[trigger] block(t, i, size) && n
            == block(t, i + size, size)
}

/// `line` is a walk over states seen in `texts`, and `idx` names the texts its
/// steps were recorded from: it opens where a text opens and closes where a
/// text closes; each step, from one state to the next, occurs in a text that
/// `idx` names, and each text `idx` names holds one of the steps; the states
/// are joined by spaces and the whole is trimmed.
pub open spec fn drawn_from(texts: Seq<Seq<char>>, size: nat, line: Seq<char>, idx: Seq<usize>) -> bool {
    exists|bs: Seq<Seq<char>>|
        #![trigger joined(bs, seq![' '])]
        bs.len() >= 2 && starts_text(texts, size, bs[0]) && ends_text(texts, size, bs.last())
            && (forall|k: int|
            #![trigger bs[k]]
            0 <= k < bs.len() - 1 ==> exists|q: int|
                #![trigger idx[q]]
                0 <= q < idx.len() && idx[q] < texts.len() && occurs_in(
                    texts[idx[q] as int],
                    size,
                    bs[k],
                    bs[k + 1],
                )) && (forall|q: int|
            #![trigger idx[q]]
            0 <= q < idx.len() ==> idx[q] < texts.len() && exists|k: int|
                #![trigger bs[k]]
                0 <= k < bs.len() - 1 && occurs_in(
                    texts[idx[q] as int],
                    size,
                    bs[k],
                    bs[k + 1],
                )) && line == trim(joined(bs, seq![' ']))
}

/// How many of the first `n` word positions of `t` hold the state `b`
/// followed by a whole state, with states of `size` words.
pub open spec fn follow_positions(t: Seq<char>, size: nat, b: Seq<char>, n: int) -> nat
    decreases n,
{
    if n <= 0 {
        0
    } else {
        follow_positions(t, size, b, n - 1) + if (n - 1) + 2 * size <= split_spaces(t).len() && block(
            t,
            n - 1,
            size,
        ) == b {
            1nat
        } else {
            0nat
        }
    }
}

/// How many word positions of `t` hold the state `b` followed by a whole
/// state: the most continuations adding `t` can record for `b`.
pub open spec fn follow_count(t: Seq<char>, size: nat, b: Seq<char>) -> nat {
    follow_positions(t, size, b, split_spaces(t).len() as int)
}

/// Relies on `markov_strings::Markov::new`: no data and no start states yet,
/// states of two words.
pub assume_specification[ markov_strings::Markov::new ]() -> (r: markov_strings::Markov)
    ensures
        markov_texts(r) == Seq::<Seq<char>>::empty(),
        markov_state_size(r) == 2,
        !markov_has_starts(r),
        markov_built(r),
        markov_max_tries(r) == 100,
        forall|b: Seq<char>| #[trigger] markov_fanout(r, b) == 0,
;

/// Relies on `Markov::set_state_size`: it refuses exactly when start states
/// exist, and changes nothing else.
#[verifier::external_body]
fn set_state_size(m: &mut markov_strings::Markov, size: usize) -> (ok: bool)
    ensures
        markov_texts(*final(m)) == markov_texts(*old(m)),
        markov_has_starts(*final(m)) == markov_has_starts(*old(m)),
        markov_built(*old(m)) ==> markov_built(*final(m)),
        markov_max_tries(*final(m)) == markov_max_tries(*old(m)),
        forall|b: Seq<char>| #[trigger] markov_fanout(*final(m), b) == markov_fanout(*old(m), b),
        ok == !markov_has_starts(*old(m)),
        ok ==> markov_state_size(*final(m)) == size,
        !ok ==> markov_state_size(*final(m)) == markov_state_size(*old(m)),
{
    m.set_state_size(size).is_ok()
}

/// Relies on `Markov::set_max_tries`: it changes neither data nor index nor
/// state size.
#[verifier::external_body]
fn set_max_tries(m: &mut markov_strings::Markov, tries: u16)
    ensures
        markov_texts(*final(m)) == markov_texts(*old(m)),
        markov_state_size(*final(m)) == markov_state_size(*old(m)),
        markov_has_starts(*final(m)) == markov_has_starts(*old(m)),
        markov_built(*final(m)) == markov_built(*old(m)),
        markov_max_tries(*final(m)) == tries,
        forall|b: Seq<char>| #[trigger] markov_fanout(*final(m), b) == markov_fanout(*old(m), b),
{
    m.set_max_tries(tries);
}

/// Relies on `Markov::add_to_corpus`: the text is appended to the data and
/// indexed; the state size and try count stay. Each word position of the text
/// adds at most one continuation, to the state there, and only where a whole
/// state follows it. Indexing a text the way it does keeps a built generator
/// built.
#[verifier::external_body]
fn add_text(m: &mut markov_strings::Markov, text: &String)
    ensures
        markov_texts(*final(m)) == markov_texts(*old(m)).push(text@),
        markov_state_size(*final(m)) == markov_state_size(*old(m)),
        markov_built(*old(m)) ==> markov_built(*final(m)),
        markov_max_tries(*final(m)) == markov_max_tries(*old(m)),
        forall|b: Seq<char>|
            #[trigger] markov_fanout(*final(m), b) <= markov_fanout(*old(m), b) + follow_count(
                text@,
                markov_state_size(*old(m)),
                b,
            ),
{
    m.add_to_corpus(vec![markov_strings::InputData { text: text.clone(), meta: None }]);
}

/// Relies on `Markov::generate`: up to its try count of random walks over the
/// index, each of up to that many steps, until one ends at an end state. The
/// positions its result names are all those the index recorded for the steps
/// of the walk: each names a text in which one of the steps occurs, and each
/// step is named by at least one. Its score, a `u16`, adds at each step the
/// continuations of a state less one, so it cannot overflow while the try
/// count times the continuations of every state fits in a `u16`. The line it
/// returns joins a start state and the states each step took, the last an end
/// state, and is trimmed.
#[verifier::external_body]
fn generate_candidate(m: &markov_strings::Markov) -> (r: Result<
    (String, Vec<usize>),
    markov_strings::ErrorType,
>)
    requires
        markov_built(*m),
        forall|b: Seq<char>| markov_max_tries(*m) * #[trigger] markov_fanout(*m, b) <= u16::MAX,
    ensures
        r matches Ok((_, refs)) ==> forall|k: int|
            0 <= k < refs@.len() ==> #[trigger] refs@[k] < markov_texts(*m).len(),
        r matches Ok((t, refs)) ==> drawn_from(
            markov_texts(*m),
            markov_state_size(*m),
            t@,
            refs@,
        ),
{
    m.generate().map(|res| (res.text, res.refs))
}

/// The number of words in each state of the corpus's generator.
pub const STATE_SIZE: usize = 3;

/// How many candidates `generate` draws before it gives up, and the most
/// walks, and steps per walk, one draw makes.
pub const MAX_TRIES: u16 = 200;

/// The generator's try count for a bound on its continuations per state: the
/// most that keeps the try count times the bound within a `u16`, up to
/// `MAX_TRIES`.
pub open spec fn tries_for(bound: nat) -> nat {
    if bound == 0 || (u16::MAX as nat) / bound >= MAX_TRIES {
        MAX_TRIES as nat
    } else {
        ((u16::MAX as nat) / bound) as nat
    }
}

fn tries_for_bound(bound: u64) -> (r: u16)
    ensures
        r == tries_for(bound as nat),
{
    if bound == 0 || 65535u64 / bound >= 200 {
        MAX_TRIES
    } else {
        (65535u64 / bound) as u16
    }
}

proof fn lemma_tries_for(bound: nat, fanout: nat)
    requires
        fanout <= bound || bound == u64::MAX,
    ensures
        tries_for(bound) * fanout <= u16::MAX,
{
    let t = tries_for(bound);
    if bound == u64::MAX {
        vstd::arithmetic::div_mod::lemma_basic_div(u16::MAX as int, bound as int);
        assert(t == 0);
        assert(t * fanout == 0);
    } else if bound == 0 {
        assert(fanout == 0);
        assert(t * fanout == 0);
    } else {
        assert(t <= (u16::MAX as nat) / bound);
        assert(t * fanout <= t * bound) by (nonlinear_arith)
            requires
                fanout <= bound,
        ;
        assert(((u16::MAX as nat) / bound) * bound <= u16::MAX) by (nonlinear_arith)
            requires
                bound > 0,
        ;
        assert(t * bound <= ((u16::MAX as nat) / bound) * bound) by (nonlinear_arith)
            requires
                t <= (u16::MAX as nat) / bound,
        ;
    }
}

/// The fewest sources every entry a generated line used must have.
pub const MIN_REFS: usize = 2;

/// One learned line and the sources it was learned from.
#[derive(Debug)]
pub struct CorpusEntry {
    pub text: String,
    pub refs: Vec<u64>,
}

impl View for CorpusEntry {
    type V = (Seq<char>, Seq<u64>);

    open spec fn view(&self) -> (Seq<char>, Seq<u64>) {
        (self.text@, self.refs@)
    }
}

impl CorpusEntry {
    pub fn duplicate(&self) -> (r: CorpusEntry)
        ensures
            r@ == self@,
    {
        CorpusEntry { text: self.text.clone(), refs: self.refs.clone() }
    }
}

/// An accepted generated line.
#[derive(Debug)]
pub struct GenerationResult {
    pub text: String,
    /// The fewest sources among the entries the line was built from.
    pub refs: usize,
    /// Which draw gave the line, from one.
    pub tries: u16,
}

/// No draw was accepted.
#[derive(Debug, Clone, Copy, PartialEq, Eq)]
pub struct Exhausted {
    /// How many candidates were drawn: always `MAX_TRIES`.
    pub draws: u16,
}

/// Entries as plain values.
pub open spec fn entries_view(v: Seq<CorpusEntry>) -> Seq<(Seq<char>, Seq<u64>)> {
    v.map_values(|e: CorpusEntry| e@)
}

/// The texts of the entries, in order.
pub open spec fn texts(c: Seq<(Seq<char>, Seq<u64>)>) -> Seq<Seq<char>> {
    c.map_values(|e: (Seq<char>, Seq<u64>)| e.0)
}

/// No text twice, and no source twice within an entry.
pub open spec fn corpus_wf(c: Seq<(Seq<char>, Seq<u64>)>) -> bool {
    &&& forall|i: int, j: int| 0 <= i < c.len() && 0 <= j < c.len() && i != j ==> c[i].0 != c[j].0
    &&& forall|i: int| 0 <= i < c.len() ==> (#[trigger] c[i]).1.no_duplicates()
}

pub open spec fn has_text(c: Seq<(Seq<char>, Seq<u64>)>, text: Seq<char>) -> bool {
    exists|k: int| 0 <= k < c.len() && (#[trigger] c[k]).0 == text
}

/// The position of the entry holding `text`.
pub open spec fn text_index(c: Seq<(Seq<char>, Seq<u64>)>, text: Seq<char>) -> int {
    choose|k: int| 0 <= k < c.len() && (#[trigger] c[k]).0 == text
}

/// The corpus after learning `text` from `source`: a new entry for a new text,
/// else the source added to the entry's sources unless it is there already.
pub open spec fn learned(c: Seq<(Seq<char>, Seq<u64>)>, text: Seq<char>, source: u64) -> Seq<
    (Seq<char>, Seq<u64>),
> {
    if has_text(c, text) {
        let k = text_index(c, text);
        if c[k].1.contains(source) {
            c
        } else {
            c.update(k, (text, c[k].1.push(source)))
        }
    } else {
        c.push((text, seq![source]))
    }
}

/// The corpus with an entry for `text`, adding one without sources if needed.
pub open spec fn with_text(c: Seq<(Seq<char>, Seq<u64>)>, text: Seq<char>) -> Seq<
    (Seq<char>, Seq<u64>),
> {
    if has_text(c, text) {
        c
    } else {
        c.push((text, seq![]))
    }
}

/// The corpus after learning `text` from each of `sources` in turn.
pub open spec fn learned_all(c: Seq<(Seq<char>, Seq<u64>)>, text: Seq<char>, sources: Seq<u64>) -> Seq<
    (Seq<char>, Seq<u64>),
>
    decreases sources.len(),
{
    if sources.len() == 0 {
        c
    } else {
        learned(learned_all(c, text, sources.drop_last()), text, sources.last())
    }
}

/// The text an imported entry is learned under.
pub open spec fn import_text(text: Seq<char>, resanitize: bool) -> Seq<char> {
    if resanitize {
        plain_text(text)
    } else {
        text
    }
}

/// The corpus built from a snapshot, entry by entry.
pub open spec fn imported(data: Seq<(Seq<char>, Seq<u64>)>, resanitize: bool) -> Seq<
    (Seq<char>, Seq<u64>),
>
    decreases data.len(),
{
    if data.len() == 0 {
        seq![]
    } else {
        let t = import_text(data.last().0, resanitize);
        learned_all(with_text(imported(data.drop_last(), resanitize), t), t, data.last().1)
    }
}

/// The number of sources of entry `i`.
pub open spec fn ref_count(c: Seq<(Seq<char>, Seq<u64>)>, i: int) -> nat {
    c[i].1.len()
}

/// The fewest sources among the entries at the positions `idx`; zero for none.
pub open spec fn min_refs(c: Seq<(Seq<char>, Seq<u64>)>, idx: Seq<usize>) -> nat
    decreases idx.len(),
{
    if idx.len() == 0 {
        0
    } else if idx.len() == 1 {
        ref_count(c, idx[0] as int)
    } else {
        let m = min_refs(c, idx.drop_last());
        let l = ref_count(c, idx.last() as int);
        if l < m {
            l
        } else {
            m
        }
    }
}

/// Whether a candidate line built from the entries at `idx` is accepted.
pub open spec fn accepted(c: Seq<(Seq<char>, Seq<u64>)>, text: Seq<char>, idx: Seq<usize>) -> bool {
    token_count(text) >= MIN_NUM_OF_WORDS && min_refs(c, idx) >= MIN_REFS
}

/// Every position in `idx` names an entry of `c`.
pub open spec fn positions_in(c: Seq<(Seq<char>, Seq<u64>)>, idx: Seq<usize>) -> bool {
    forall|k: int| 0 <= k < idx.len() ==> #[trigger] idx[k] < c.len()
}

/// A hash of a state, below a prime that keeps its computation within `u64`.
pub open spec fn state_hash(st: Seq<char>) -> nat
    decreases st.len(),
{
    if st.len() == 0 {
        0
    } else {
        (state_hash(st.drop_last()) * 31 + ((st.last() as u32) as nat)) % 1_000_000_007
    }
}

/// The key a state is counted under. States that share a key are counted
/// together, which only makes the count larger.
pub open spec fn state_key(st: Seq<char>) -> u64 {
    state_hash(st) as u64
}

/// The count stored under `k`, zero where there is none.
pub open spec fn count_of(c: Map<u64, u64>, k: u64) -> nat {
    if c.contains_key(k) {
        c[k] as nat
    } else {
        0
    }
}

/// The counts bound the continuations of every state of `m`, and `max` bounds
/// the counts.
pub open spec fn counts_cover(m: markov_strings::Markov, c: Map<u64, u64>, max: u64) -> bool {
    &&& forall|b: Seq<char>| #[trigger] markov_fanout(m, b) <= count_of(c, state_key(b))
    &&& forall|k: u64| c.contains_key(k) ==> #[trigger] c[k] <= max
}

/// Splits `t` at each space.
fn split_words(t: &Vec<char>) -> (r: Vec<Vec<char>>)
    ensures
        r@.map_values(|w: Vec<char>| w@) == split_spaces(t@),
{
    let mut words: Vec<Vec<char>> = Vec::new();
    let mut cur: Vec<char> = Vec::new();
    let mut i: usize = 0;
    assert(t@.subrange(0, 0) =~= Seq::<char>::empty());
    assert(words@.map_values(|w: Vec<char>| w@).push(cur@) =~= split_spaces(Seq::<char>::empty()));
    while i < t.len()
        invariant
            i <= t@.len(),
            words@.map_values(|w: Vec<char>| w@).push(cur@) == split_spaces(
                t@.subrange(0, i as int),
            ),
        decreases t.len() - i,
    {
        let ghost before = words@.map_values(|w: Vec<char>| w@);
        assert(t@.subrange(0, i + 1).drop_last() =~= t@.subrange(0, i as int));
        assert(t@.subrange(0, i + 1).last() == t@[i as int]);
        if t[i] == ' ' {
            let mut done: Vec<char> = Vec::new();
            core::mem::swap(&mut done, &mut cur);
            words.push(done);
            assert(words@.map_values(|w: Vec<char>| w@) =~= before.push(done@));
            assert(words@.map_values(|w: Vec<char>| w@).push(cur@) =~= before.push(done@).push(
                seq![],
            ));
        } else {
            let ghost old_cur = cur@;
            cur.push(t[i]);
            assert(before.push(cur@) =~= before.push(old_cur).update(
                before.push(old_cur).len() - 1,
                old_cur.push(t@[i as int]),
            ));
        }
        i = i + 1;
    }
    assert(t@.subrange(0, i as int) =~= t@);
    words.push(cur);
    words
}

/// Appends the characters of `src` to `dst`.
fn append_chars(dst: &mut Vec<char>, src: &Vec<char>)
    ensures
        final(dst)@ == old(dst)@ + src@,
{
    let mut k: usize = 0;
    while k < src.len()
        invariant
            k <= src@.len(),
            dst@ == old(dst)@ + src@.subrange(0, k as int),
        decreases src.len() - k,
    {
        dst.push(src[k]);
        assert(dst@ =~= old(dst)@ + src@.subrange(0, k + 1));
        k = k + 1;
    }
    assert(src@.subrange(0, k as int) =~= src@);
}

/// The state of `STATE_SIZE` words from word `i` on, joined by spaces.
fn join_state(words: &Vec<Vec<char>>, i: usize) -> (r: Vec<char>)
    requires
        i + STATE_SIZE <= words@.len(),
    ensures
        r@ == joined(words@.map_values(|w: Vec<char>| w@).subrange(i as int, i + STATE_SIZE), seq![' ']),
{
    let ghost views = words@.map_values(|w: Vec<char>| w@);
    let mut st: Vec<char> = Vec::new();
    append_chars(&mut st, &words[i]);
    assert(views.subrange(i as int, i + 1).len() == 1);
    assert(st@ =~= joined(views.subrange(i as int, i + 1), seq![' ']));
    let mut k: usize = 1;
    while k < STATE_SIZE
        invariant
            1 <= k <= STATE_SIZE,
            i + STATE_SIZE <= words@.len(),
            views == words@.map_values(|w: Vec<char>| w@),
            st@ == joined(views.subrange(i as int, i + k), seq![' ']),
        decreases STATE_SIZE - k,
    {
        let ghost prev = st@;
        let n = words.len();
        assert(i + k < n);
        let j = i + k;
        st.push(' ');
        append_chars(&mut st, &words[j]);
        assert(views.subrange(i as int, i + k + 1).drop_last() =~= views.subrange(i as int, i + k));
        assert(st@ =~= prev + seq![' '] + views[i + k]);
        k = k + 1;
    }
    st
}

/// The key of a state.
fn hash_state(st: &Vec<char>) -> (r: u64)
    ensures
        r == state_key(st@),
{
    let mut h: u64 = 0;
    let mut k: usize = 0;
    while k < st.len()
        invariant
            k <= st@.len(),
            h as nat == state_hash(st@.subrange(0, k as int)),
            h < 1_000_000_007,
        decreases st.len() - k,
    {
        assert(st@.subrange(0, k + 1).drop_last() =~= st@.subrange(0, k as int));
        h = (h * 31 + (st[k] as u32) as u64) % 1_000_000_007;
        k = k + 1;
    }
    assert(st@.subrange(0, k as int) =~= st@);
    h
}

/// Counts, for each state of `text`, the word positions where it is followed
/// by a whole state, into `counts`; `max` follows the largest count and turns
/// `u64::MAX` once it cannot.
fn record_follows(counts: &mut HashMap<u64, u64>, max: &mut u64, text: &String)
    requires
        *old(max) == u64::MAX || forall|k: u64|
            old(counts)@.contains_key(k) ==> #[trigger] old(counts)@[k] <= *old(max),
    ensures
        *old(max) == u64::MAX ==> *final(max) == u64::MAX,
        *final(max) == u64::MAX || (forall|k: u64|
            final(counts)@.contains_key(k) ==> #[trigger] final(counts)@[k] <= *final(max)),
        *final(max) == u64::MAX || forall|b: Seq<char>|
            count_of(old(counts)@, state_key(b)) + #[trigger] follow_count(
                text@,
                STATE_SIZE as nat,
                b,
            ) <= count_of(final(counts)@, state_key(b)),
{
    let chars = chars_of(text.as_str());
    let words = split_words(&chars);
    let ghost views = words@.map_values(|w: Vec<char>| w@);
    let w = words.len();
    let mut i: usize = 0;
    while i < w
        invariant
            i <= w == words@.len() == split_spaces(text@).len(),
            views == split_spaces(text@),
            views == words@.map_values(|w: Vec<char>| w@),
            *old(max) == u64::MAX ==> *max == u64::MAX,
            *max == u64::MAX || (forall|k: u64|
                counts@.contains_key(k) ==> #[trigger] counts@[k] <= *max),
            *max == u64::MAX || forall|b: Seq<char>|
                count_of(old(counts)@, state_key(b)) + #[trigger] follow_positions(
                    text@,
                    STATE_SIZE as nat,
                    b,
                    i as int,
                ) <= count_of(counts@, state_key(b)),
        decreases w - i,
    {
        let ghost prev = counts@;
        if w - i >= 2 * STATE_SIZE && *max != u64::MAX {
            let st = join_state(&words, i);
            assert(st@ == block(text@, i as int, STATE_SIZE as nat));
            let h = hash_state(&st);
            let c: u64 = match counts.get(&h) {
                Some(v) => *v,
                None => 0,
            };
            assert(c as nat == count_of(prev, h));
            counts.insert(h, c + 1);
            if c + 1 > *max {
                *max = c + 1;
            }
            proof {
                if *max != u64::MAX {
                    assert forall|b: Seq<char>|
                        count_of(old(counts)@, state_key(b)) + #[trigger] follow_positions(
                            text@,
                            STATE_SIZE as nat,
                            b,
                            i + 1,
                        ) <= count_of(counts@, state_key(b)) by {
                        assert(count_of(old(counts)@, state_key(b)) + follow_positions(
                            text@,
                            STATE_SIZE as nat,
                            b,
                            i as int,
                        ) <= count_of(prev, state_key(b)));
                    }
                }
            }
        } else {
            proof {
                if *max != u64::MAX {
                    assert forall|b: Seq<char>|
                        count_of(old(counts)@, state_key(b)) + #[trigger] follow_positions(
                            text@,
                            STATE_SIZE as nat,
                            b,
                            i + 1,
                        ) <= count_of(counts@, state_key(b)) by {
                        assert(count_of(old(counts)@, state_key(b)) + follow_positions(
                            text@,
                            STATE_SIZE as nat,
                            b,
                            i as int,
                        ) <= count_of(prev, state_key(b)));
                    }
                }
            }
        }
        i = i + 1;
    }
}

/// The corpus: its entries, and the generator that indexes their texts in the
/// same order.
pub struct MarkovChain {
    entries: Vec<CorpusEntry>,
    markov: markov_strings::Markov,
    /// For each state, keyed by `state_key`, how many word positions of the
    /// texts hold it followed by a whole state.
    follow_counts: HashMap<u64, u64>,
    /// The largest of `follow_counts`, or `u64::MAX` once it no longer fits.
    max_count: u64,
}

impl View for MarkovChain {
    type V = Seq<(Seq<char>, Seq<u64>)>;

    closed spec fn view(&self) -> Seq<(Seq<char>, Seq<u64>)> {
        entries_view(self.entries@)
    }
}

impl MarkovChain {
    /// The entries are well formed and the generator holds exactly their
    /// texts, in order, with states of `STATE_SIZE` words.
    #[verifier::type_invariant]
    closed spec fn wf(&self) -> bool {
        &&& corpus_wf(self@)
        &&& markov_texts(self.markov) == texts(self@)
        &&& markov_state_size(self.markov) == STATE_SIZE
        &&& markov_built(self.markov)
        &&& markov_max_tries(self.markov) == tries_for(self.max_count as nat)
        &&& (self.max_count == u64::MAX || counts_cover(
            self.markov,
            self.follow_counts@,
            self.max_count,
        ))
    }

    /// The number of words in each state of the generator.
    pub closed spec fn state_size(&self) -> nat {
        markov_state_size(self.markov)
    }

    /// An empty corpus.
    pub fn new() -> (r: MarkovChain)
        ensures
            r@ == Seq::<(Seq<char>, Seq<u64>)>::empty(),
            r.state_size() == STATE_SIZE,
    {
        let mut markov = markov_strings::Markov::new();
        let ok = set_state_size(&mut markov, STATE_SIZE);
        set_max_tries(&mut markov, MAX_TRIES);
        let entries: Vec<CorpusEntry> = Vec::new();
        assert(entries_view(entries@) =~= Seq::<(Seq<char>, Seq<u64>)>::empty());
        assert(texts(entries_view(entries@)) =~= Seq::<Seq<char>>::empty());
        let follow_counts: HashMap<u64, u64> = HashMap::new();
        MarkovChain { entries, markov, follow_counts, max_count: 0 }
    }

    /// The number of entries.
    pub fn len(&self) -> (r: usize)
        ensures
            r == self@.len(),
    {
        self.entries.len()
    }

    /// Where the entry for `text` stands, if there is one.
    fn find(&self, text: &String) -> (r: Option<usize>)
        ensures
            r matches Some(k) ==> has_text(self@, text@) && k == text_index(self@, text@) && k
                < self@.len(),
            r is None ==> !has_text(self@, text@),
    {
        proof {
            use_type_invariant(&*self);
        }
        let mut k: usize = 0;
        while k < self.entries.len()
            invariant
                corpus_wf(self@),
                k <= self@.len(),
                self@.len() == self.entries@.len(),
                forall|j: int| 0 <= j < k ==> (#[trigger] self@[j]).0 != text@,
            decreases self.entries.len() - k,
        {
            assert(self@[k as int] == self.entries@[k as int]@);
            if self.entries[k].text == *text {
                assert(self@[k as int].0 == text@);
                let ghost j = text_index(self@, text@);
                assert(self@[j].0 == text@);
                return Some(k);
            }
            k = k + 1;
        }
        None
    }

    /// Adds `e` as a new entry and its text to the generator.
    fn append(&mut self, e: CorpusEntry)
        requires
            !has_text(old(self)@, e.text@),
            e.refs@.no_duplicates(),
        ensures
            final(self)@ == old(self)@.push(e@),
    {
        proof {
            use_type_invariant(&*self);
        }
        let ghost before = self@;
        let mut detached = MarkovChain::new();
        core::mem::swap(self, &mut detached);
        proof {
            use_type_invariant(&detached);
        }
        let MarkovChain { mut entries, mut markov, mut follow_counts, mut max_count } = detached;
        let ghost old_counts = follow_counts@;
        let ghost old_max = max_count;
        let ghost old_markov = markov;
        record_follows(&mut follow_counts, &mut max_count, &e.text);
        add_text(&mut markov, &e.text);
        set_max_tries(&mut markov, tries_for_bound(max_count));
        proof {
            if max_count != u64::MAX {
                assert forall|b: Seq<char>| #[trigger]
                    markov_fanout(markov, b) <= count_of(follow_counts@, state_key(b)) by {
                    assert(markov_fanout(old_markov, b) <= count_of(old_counts, state_key(b)));
                }
            }
        }
        entries.push(e);
        assert(entries_view(entries@) =~= before.push(e@));
        assert(texts(entries_view(entries@)) =~= texts(before).push(e.text@));
        let mut rebuilt = MarkovChain { entries, markov, follow_counts, max_count };
        core::mem::swap(self, &mut rebuilt);
    }

    /// Puts `e` in place of entry `k`, whose text it keeps.
    fn replace(&mut self, k: usize, e: CorpusEntry)
        requires
            k < old(self)@.len(),
            e.text@ == old(self)@[k as int].0,
            e.refs@.no_duplicates(),
        ensures
            final(self)@ == old(self)@.update(k as int, e@),
    {
        proof {
            use_type_invariant(&*self);
        }
        let ghost before = self@;
        let mut detached = MarkovChain::new();
        core::mem::swap(self, &mut detached);
        proof {
            use_type_invariant(&detached);
        }
        let MarkovChain { mut entries, markov, follow_counts, max_count } = detached;
        entries.set(k, e);
        let ghost after = entries_view(entries@);
        assert(after =~= before.update(k as int, e@));
        assert(texts(after) =~= texts(before));
        assert forall|i: int| 0 <= i < after.len() implies (#[trigger] after[i]).1.no_duplicates() by {
            if i != k {
                assert(before[i] == after[i]);
            }
        }
        let mut rebuilt = MarkovChain { entries, markov, follow_counts, max_count };
        core::mem::swap(self, &mut rebuilt);
    }

    /// Adds an entry without sources for `text` unless there is one.
    fn ensure_text(&mut self, text: &String)
        ensures
            final(self)@ == with_text(old(self)@, text@),
    {
        proof {
            use_type_invariant(&*self);
        }
        match self.find(text) {
            Some(_) => {},
            None => {
                self.append(CorpusEntry { text: text.clone(), refs: Vec::new() });
                assert(Seq::<u64>::empty() =~= seq![]);
            },
        }
    }

    /// Learns `line` from `source_id`: a new text becomes a new entry with that
    /// one source; a known text gains the source unless it has it already.
    /// Entries are never removed or reordered.
    pub fn learn(&mut self, line: String, source_id: u64)
        ensures
            final(self)@ == learned(old(self)@, line@, source_id),
            corpus_wf(final(self)@),
            final(self).state_size() == STATE_SIZE,
    {
        proof {
            use_type_invariant(&*self);
        }
        match self.find(&line) {
            Some(k) => {
                let ghost refs = self@[k as int].1;
                if !contains_source(&self.entries[k].refs, source_id) {
                    let mut e = self.entries[k].duplicate();
                    e.refs.push(source_id);
                    proof {
                        assert(old(self)@[k as int].1.no_duplicates());
                    }
                    self.replace(k, e);
                    assert(self@ =~= old(self)@.update(k as int, (line@, refs.push(source_id))));
                }
            },
            None => {
                let mut refs: Vec<u64> = Vec::new();
                refs.push(source_id);
                assert(refs@ =~= seq![source_id]);
                self.append(CorpusEntry { text: line, refs });
            },
        }
        proof {
            use_type_invariant(&*self);
        }
    }

    /// A snapshot of every entry; the corpus is left as it is.
    pub fn export(&self) -> (r: Vec<CorpusEntry>)
        ensures
            entries_view(r@) == self@,
            corpus_wf(entries_view(r@)),
    {
        proof {
            use_type_invariant(self);
        }
        let mut r: Vec<CorpusEntry> = Vec::new();
        let mut k: usize = 0;
        while k < self.entries.len()
            invariant
                k <= self.entries@.len(),
                entries_view(r@) == entries_view(self.entries@).subrange(0, k as int),
            decreases self.entries.len() - k,
        {
            let e = self.entries[k].duplicate();
            let ghost before = r@;
            r.push(e);
            assert(r@ == before.push(e));
            assert(e@ == entries_view(self.entries@)[k as int]);
            assert(entries_view(r@) =~= entries_view(before).push(e@));
            assert(entries_view(r@) =~= entries_view(self.entries@).subrange(0, k + 1));
            k = k + 1;
        }
        assert(entries_view(self.entries@).subrange(0, k as int) =~= entries_view(self.entries@));
        r
    }

    /// Builds a corpus from a snapshot, entry by entry, learning each text
    /// from each of its sources. With `resanitize` each text is sanitized
    /// again first, as for a sentence file; without, it is trusted as stored.
    pub fn import(data: &Vec<CorpusEntry>, resanitize: bool) -> (r: MarkovChain)
        ensures
            r@ == imported(entries_view(data@), resanitize),
            corpus_wf(r@),
            r.state_size() == STATE_SIZE,
    {
        let mut chain = MarkovChain::new();
        let mut i: usize = 0;
        while i < data.len()
            invariant
                i <= data@.len(),
                chain@ == imported(entries_view(data@).subrange(0, i as int), resanitize),
            decreases data.len() - i,
        {
            let text = if resanitize {
                filter_string_for_markov_file(data[i].text.as_str())
            } else {
                data[i].text.clone()
            };
            let ghost before = chain@;
            chain.ensure_text(&text);
            let refs = &data[i].refs;
            let mut j: usize = 0;
            while j < refs.len()
                invariant
                    j <= refs@.len(),
                        chain@ == learned_all(with_text(before, text@), text@, refs@.subrange(
                        0,
                        j as int,
                    )),
                decreases refs.len() - j,
            {
                chain.learn(text.clone(), refs[j]);
                assert(refs@.subrange(0, j + 1).drop_last() =~= refs@.subrange(0, j as int));
                j = j + 1;
            }
            let ghost d = entries_view(data@).subrange(0, i + 1);
            assert(d.drop_last() =~= entries_view(data@).subrange(0, i as int));
            assert(refs@.subrange(0, j as int) =~= refs@);
            assert(d.last() == data@[i as int]@);
            i = i + 1;
        }
        assert(entries_view(data@).subrange(0, i as int) =~= entries_view(data@));
        proof {
            use_type_invariant(&chain);
        }
        chain
    }
}

fn contains_source(refs: &Vec<u64>, source: u64) -> (r: bool)
    ensures
        r == refs@.contains(source),
{
    let mut k: usize = 0;
    while k < refs.len()
        invariant
            k <= refs@.len(),
            forall|j: int| 0 <= j < k ==> refs@[j] != source,
        decreases refs.len() - k,
    {
        if refs[k] == source {
            return true;
        }
        k = k + 1;
    }
    false
}

impl MarkovChain {
    /// The fewest sources among the entries at the positions `refs`.
    fn min_ref_count(&self, refs: &Vec<usize>) -> (m: usize)
        requires
            positions_in(self@, refs@),
        ensures
            m == min_refs(self@, refs@),
    {
        if refs.len() == 0 {
            return 0;
        }
        let mut m = self.entries[refs[0]].refs.len();
        assert(refs@.subrange(0, 1).len() == 1);
        let mut k: usize = 1;
        while k < refs.len()
            invariant
                1 <= k <= refs@.len(),
                positions_in(self@, refs@),
                self@.len() == self.entries@.len(),
                m == min_refs(self@, refs@.subrange(0, k as int)),
            decreases refs.len() - k,
        {
            assert(refs@[k as int] < self@.len());
            let l = self.entries[refs[k]].refs.len();
            let ghost p = refs@.subrange(0, k + 1);
            assert(p.drop_last() =~= refs@.subrange(0, k as int));
            assert(p.last() == refs@[k as int]);
            if l < m {
                m = l;
            }
            k = k + 1;
        }
        assert(refs@.subrange(0, k as int) =~= refs@);
        m
    }

    /// Accepts a candidate line built from the entries at the positions
    /// `refs` when it holds at least `MIN_NUM_OF_WORDS` tokens and each of
    /// those entries has at least `MIN_REFS` sources.
    pub fn judge(&self, text: String, refs: &Vec<usize>, tries: u16) -> (r: Option<
        GenerationResult,
    >)
        requires
            positions_in(self@, refs@),
        ensures
            r is Some <==> accepted(self@, text@, refs@),
            r matches Some(g) ==> g.text@ == text@ && g.refs == min_refs(self@, refs@) && g.tries
                == tries,
    {
        let m = self.min_ref_count(refs);
        let chars = chars_of(text.as_str());
        if m >= MIN_REFS && has_tokens(&chars, MIN_NUM_OF_WORDS) {
            Some(GenerationResult { text, refs: m, tries })
        } else {
            None
        }
    }

    /// Draws up to `MAX_TRIES` candidates from the generator and returns the
    /// first one `judge` accepts; `Exhausted` when none is. One draw is one
    /// call of the generator, which itself makes up to its try count of walks,
    /// each of up to that many steps, and hands back the first that ends at an
    /// end state. The try count is `MAX_TRIES` unless one state is followed by
    /// a whole state at more than `u16::MAX / MAX_TRIES` word positions of the
    /// learned texts; then it is `u16::MAX` divided by the largest such count,
    /// which keeps the generator's `u16` score from overflowing, and it reaches
    /// zero only past `u16::MAX` positions of one state.
    pub fn generate(&self) -> (r: Result<GenerationResult, Exhausted>)
        ensures
            r matches Ok(g) ==> token_count(g.text@) >= MIN_NUM_OF_WORDS && g.refs >= MIN_REFS && 1
                <= g.tries <= MAX_TRIES && exists|idx: Seq<usize>|
                positions_in(self@, idx) && g.refs == min_refs(self@, idx) && drawn_from(
                    texts(self@),
                    STATE_SIZE as nat,
                    g.text@,
                    idx,
                ),
            (forall|line: Seq<char>, idx: Seq<usize>|
                positions_in(self@, idx) && #[trigger] drawn_from(
                    texts(self@),
                    STATE_SIZE as nat,
                    line,
                    idx,
                ) ==> !accepted(self@, line, idx)) ==> r is Err,
            r matches Err(e) ==> e.draws == MAX_TRIES,
            (forall|i: int| 0 <= i < self@.len() ==> ref_count(self@, i) < MIN_REFS) ==> r is Err,
    {
        proof {
            use_type_invariant(&*self);
        }
        let mut tries: u16 = 0;
        while tries < MAX_TRIES
            invariant
                tries <= MAX_TRIES,
            decreases MAX_TRIES - tries,
        {
            proof {
                use_type_invariant(&*self);
                assert forall|b: Seq<char>|
                    markov_max_tries(self.markov) * #[trigger] markov_fanout(self.markov, b)
                        <= u16::MAX by {
                    if self.max_count != u64::MAX {
                        assert(markov_fanout(self.markov, b) <= count_of(
                            self.follow_counts@,
                            state_key(b),
                        ));
                    }
                    lemma_tries_for(self.max_count as nat, markov_fanout(self.markov, b));
                }
            }
            tries = tries + 1;
            match generate_candidate(&self.markov) {
                Ok((text, refs)) => {
                    assert(positions_in(self@, refs@));
                    match self.judge(text, &refs, tries) {
                        Some(g) => {
                            proof {
                                lemma_min_refs_below(self@, refs@);
                            }
                            return Ok(g);
                        },
                        None => {},
                    }
                },
                Err(_) => {},
            }
        }
        Err(Exhausted { draws: tries })
    }
}

/// Where no entry has `MIN_REFS` sources, no candidate is accepted.
pub proof fn lemma_min_refs_below(c: Seq<(Seq<char>, Seq<u64>)>, idx: Seq<usize>)
    requires
        positions_in(c, idx),
    ensures
        (forall|i: int| 0 <= i < c.len() ==> ref_count(c, i) < MIN_REFS) ==> min_refs(c, idx)
            < MIN_REFS,
    decreases idx.len(),
{
    if idx.len() > 1 {
        lemma_min_refs_below(c, idx.drop_last());
        assert(idx.last() == idx[idx.len() - 1]);
    } else if idx.len() == 1 {
        assert(idx[0] < c.len());
    }
}

/// Learning a new text from two different sources gives one new entry with
/// both sources, not two entries.
pub proof fn lemma_learn_twice(c: Seq<(Seq<char>, Seq<u64>)>, text: Seq<char>, a: u64, b: u64)
    requires
        corpus_wf(c),
        !has_text(c, text),
        a != b,
    ensures
        ({
            let d = learned(learned(c, text, a), text, b);
            &&& d.len() == c.len() + 1
            &&& d.subrange(0, c.len() as int) == c
            &&& d[c.len() as int] == (text, seq![a, b])
            &&& d[c.len() as int].1.len() == 2
        }),
{
    let c1 = learned(c, text, a);
    assert(c1 == c.push((text, seq![a])));
    assert(c1[c.len() as int].0 == text);
    assert(has_text(c1, text));
    let k = text_index(c1, text);
    assert(k == c.len()) by {
        if k != c.len() {
            assert(c[k].0 == text);
        }
    }
    assert(!seq![a].contains(b)) by {
        if seq![a].contains(b) {
            let j = choose|j: int| 0 <= j < 1 && seq![a][j] == b;
        }
    }
    assert(seq![a].push(b) =~= seq![a, b]);
    let d = learned(c1, text, b);
    assert(d.subrange(0, c.len() as int) =~= c);
}

/// Learning the same text from the same source twice is learning it once.
pub proof fn lemma_learn_idempotent(c: Seq<(Seq<char>, Seq<u64>)>, text: Seq<char>, a: u64)
    requires
        corpus_wf(c),
    ensures
        learned(learned(c, text, a), text, a) == learned(c, text, a),
{
    let c1 = learned(c, text, a);
    if has_text(c, text) {
        let k = text_index(c, text);
        assert(c1[k].0 == text);
        assert(has_text(c1, text));
        let k1 = text_index(c1, text);
        assert(k1 == k) by {
            if k1 != k {
                assert(c1[k1] == c[k1]);
            }
        }
        if !c[k].1.contains(a) {
            assert(c1[k].1[c[k].1.len() as int] == a);
        }
    } else {
        assert(c1[c.len() as int].0 == text);
        assert(has_text(c1, text));
        let k1 = text_index(c1, text);
        assert(k1 == c.len()) by {
            if k1 != c.len() {
                assert(c[k1].0 == text);
            }
        }
        assert(seq![a][0] == a);
    }
}

/// A sentence list as a snapshot: line `k` learned from source `k`.
pub open spec fn sentence_entries(lines: Seq<Seq<char>>) -> Seq<(Seq<char>, Seq<u64>)> {
    Seq::new(lines.len(), |k: int| (lines[k], seq![k as u64]))
}

/// Builds the corpus from a list of sentences, one per line of a sentence
/// file: each line is sanitized again and learned from its line number.
pub fn init_markov(lines: &Vec<String>) -> (r: MarkovChain)
    ensures
        r@ == imported(sentence_entries(lines@.map_values(|l: String| l@)), true),
        corpus_wf(r@),
        r.state_size() == STATE_SIZE,
{
    let mut data: Vec<CorpusEntry> = Vec::new();
    let mut k: usize = 0;
    while k < lines.len()
        invariant
            k <= lines@.len(),
            entries_view(data@) == sentence_entries(lines@.map_values(|l: String| l@)).subrange(
                0,
                k as int,
            ),
        decreases lines.len() - k,
    {
        let mut refs: Vec<u64> = Vec::new();
        refs.push(k as u64);
        let e = CorpusEntry { text: lines[k].clone(), refs };
        let ghost before = data@;
        data.push(e);
        assert(entries_view(data@) =~= entries_view(before).push(e@));
        assert(entries_view(data@) =~= sentence_entries(lines@.map_values(|l: String| l@)).subrange(
            0,
            k + 1,
        ));
        k = k + 1;
    }
    assert(sentence_entries(lines@.map_values(|l: String| l@)).subrange(0, k as int)
        =~= sentence_entries(lines@.map_values(|l: String| l@)));
    MarkovChain::import(&data, true)
}

/// Builds the corpus from a snapshot that `export` made, trusting its text
/// as already sanitized.
pub fn init_markov_debug(snapshot: &Vec<CorpusEntry>) -> (r: MarkovChain)
    ensures
        r@ == imported(entries_view(snapshot@), false),
        corpus_wf(r@),
        r.state_size() == STATE_SIZE,
{
    MarkovChain::import(snapshot, false)
}

proof fn lemma_learned_all_last(
    d: Seq<(Seq<char>, Seq<u64>)>,
    t: Seq<char>,
    p: Seq<u64>,
    sources: Seq<u64>,
)
    requires
        d.len() > 0,
        d.last() == (t, p),
        forall|i: int| 0 <= i < d.len() - 1 ==> (#[trigger] d[i]).0 != t,
        (p + sources).no_duplicates(),
    ensures
        learned_all(d, t, sources) == d.update(d.len() - 1, (t, p + sources)),
    decreases sources.len(),
{
    let n = d.len() - 1;
    if sources.len() == 0 {
        assert(p + sources =~= p);
        assert(d.update(n, (t, p)) =~= d);
    } else {
        let s0 = sources.drop_last();
        let x = sources.last();
        assert((p + s0) =~= (p + sources).drop_last());
        lemma_learned_all_last(d, t, p, s0);
        let e = d.update(n, (t, p + s0));
        assert(e[n].0 == t);
        assert(has_text(e, t));
        let k = text_index(e, t);
        assert(k == n) by {
            if k != n {
                assert(e[k] == d[k]);
            }
        }
        assert(!(p + s0).contains(x)) by {
            if (p + s0).contains(x) {
                let j = choose|j: int| 0 <= j < (p + s0).len() && (p + s0)[j] == x;
                assert((p + sources)[j] == x);
                assert((p + sources)[(p + sources).len() - 1] == x);
            }
        }
        assert((p + s0).push(x) =~= p + sources);
        assert(e.update(n, (t, (p + s0).push(x))) =~= d.update(n, (t, p + sources)));
    }
}

/// Importing a well-formed snapshot without sanitizing again gives the same corpus.
pub proof fn lemma_snapshot_round_trip(c: Seq<(Seq<char>, Seq<u64>)>)
    requires
        corpus_wf(c),
    ensures
        imported(c, false) == c,
    decreases c.len(),
{
    if c.len() > 0 {
        let b = c.drop_last();
        assert(corpus_wf(b)) by {
            assert forall|i: int| 0 <= i < b.len() implies (#[trigger] b[i]).1.no_duplicates() by {
                assert(b[i] == c[i]);
            }
        }
        lemma_snapshot_round_trip(b);
        let t = c.last().0;
        assert(!has_text(b, t)) by {
            if has_text(b, t) {
                let j = choose|j: int| 0 <= j < b.len() && (#[trigger] b[j]).0 == t;
                assert(c[j].0 == c[c.len() - 1].0);
            }
        }
        let d = with_text(b, t);
        assert(d == b.push((t, seq![])));
        assert(Seq::<u64>::empty() + c.last().1 =~= c.last().1);
        assert(c[c.len() - 1].1.no_duplicates());
        lemma_learned_all_last(d, t, seq![], c.last().1);
        assert(d.update(d.len() - 1, (t, c.last().1)) =~= c);
    }
}

} // verus!

//! The rewrite rules of the sanitizer, each a left-to-right scan that replaces
//! every match of one pattern, and the weight that every rule but mention
//! expansion lowers.
use vstd::prelude::*;
use crate::text::{
    digit, is_digit, is_symbol, is_upper, is_white, is_word, is_word_tail, lower, symbol,
    to_lower, upper, white, word, word_tail,
};

verus! {

/// The rules that blank out or rewrite markup, in the order a pass applies them.
#[derive(Clone, Copy, PartialEq, Eq, Debug)]
pub enum Rule {
    /// `<:name:id>` and `<name:id>`, replaced by a space.
    Emote,
    /// `<a:name:id>` and `<aname:id>`, replaced by a space.
    AnimatedEmote,
    /// `<@&id>`, replaced by a space.
    RoleMention,
    /// One punctuation or symbol character, replaced by a space.
    Symbol,
    /// A whitespace-delimited token of exactly 18 digits, removed.
    Snowflake,
    /// A line feed, removed.
    LineFeed,
    /// Three, or else two, consecutive spaces, replaced by one.
    Spaces,
    /// A capital followed by a lower-case word character, lower-cased.
    Capital,
}

/// The end of the run of digits that starts at `j`.
pub open spec fn digit_run_end(s: Seq<char>, j: int) -> int
    decreases s.len() - j,
{
    if 0 <= j < s.len() && is_digit(s[j]) {
        digit_run_end(s, j + 1)
    } else {
        j
    }
}

/// The end of the run of word characters that starts at `j`.
pub open spec fn word_run_end(s: Seq<char>, j: int) -> int
    decreases s.len() - j,
{
    if 0 <= j < s.len() && is_word(s[j]) {
        word_run_end(s, j + 1)
    } else {
        j
    }
}

/// `name:digits>` from `j`: the end of the match, if there is one.
pub open spec fn emote_tail_end(s: Seq<char>, j: int) -> Option<int> {
    let w = word_run_end(s, j);
    if w > j && w < s.len() && s[w] == ':' {
        let d = digit_run_end(s, w + 1);
        if d > w + 1 && d < s.len() && s[d] == '>' {
            Some(d + 1)
        } else {
            None
        }
    } else {
        None
    }
}

/// The end of the match of rule `r` that starts at `i`, if there is one.
pub open spec fn rule_end(r: Rule, s: Seq<char>, i: int) -> Option<int> {
    if !(0 <= i < s.len()) {
        None
    } else {
        match r {
            Rule::Emote => if s[i] == '<' {
                emote_tail_end(s, if i + 1 < s.len() && s[i + 1] == ':' { i + 2 } else { i + 1 })
            } else {
                None
            },
            Rule::AnimatedEmote => if s[i] == '<' && i + 1 < s.len() && s[i + 1] == 'a' {
                emote_tail_end(s, if i + 2 < s.len() && s[i + 2] == ':' { i + 3 } else { i + 2 })
            } else {
                None
            },
            Rule::RoleMention => if s[i] == '<' && i + 2 < s.len() && s[i + 1] == '@' && s[i + 2]
                == '&' {
                let d = digit_run_end(s, i + 3);
                if d > i + 3 && d < s.len() && s[d] == '>' {
                    Some(d + 1)
                } else {
                    None
                }
            } else {
                None
            },
            Rule::Symbol => if is_symbol(s[i]) {
                Some(i + 1)
            } else {
                None
            },
            Rule::Snowflake => {
                let d = digit_run_end(s, i);
                if (i == 0 || is_white(s[i - 1])) && d == i + 18 && (d == s.len() || is_white(
                    s[d],
                )) {
                    Some(d)
                } else {
                    None
                }
            },
            Rule::LineFeed => if s[i] == '\n' {
                Some(i + 1)
            } else {
                None
            },
            Rule::Spaces => if s[i] == ' ' && i + 1 < s.len() && s[i + 1] == ' ' {
                if i + 2 < s.len() && s[i + 2] == ' ' {
                    Some(i + 3)
                } else {
                    Some(i + 2)
                }
            } else {
                None
            },
            Rule::Capital => if is_upper(s[i]) && i + 1 < s.len() && is_word_tail(s[i + 1]) {
                Some(i + 1)
            } else {
                None
            },
        }
    }
}

/// What a match of rule `r` at `i` is replaced by.
pub open spec fn rule_rep(r: Rule, s: Seq<char>, i: int) -> Seq<char> {
    match r {
        Rule::Snowflake | Rule::LineFeed => seq![],
        Rule::Capital => seq![to_lower(s[i])],
        _ => seq![' '],
    }
}

/// `s` from `i` on, with every match of `r` replaced, scanning left to right.
pub open spec fn rewrite_from(r: Rule, s: Seq<char>, i: int) -> Seq<char>
    decreases s.len() - i,
{
    if !(0 <= i < s.len()) {
        seq![]
    } else {
        match rule_end(r, s, i) {
            Some(e) => {
                proof {
                    lemma_rule_end(r, s, i);
                }
                rule_rep(r, s, i) + rewrite_from(r, s, e)
            },
            None => seq![s[i]] + rewrite_from(r, s, i + 1),
        }
    }
}

/// `s` with every match of `r` replaced.
pub open spec fn rewrite(r: Rule, s: Seq<char>) -> Seq<char> {
    rewrite_from(r, s, 0)
}

pub proof fn lemma_digit_run(s: Seq<char>, j: int)
    requires
        0 <= j <= s.len(),
    ensures
        j <= digit_run_end(s, j) <= s.len(),
        forall|k: int| j <= k < digit_run_end(s, j) ==> is_digit(#[trigger] s[k]),
        digit_run_end(s, j) < s.len() ==> !is_digit(s[digit_run_end(s, j)]),
    decreases s.len() - j,
{
    if j < s.len() && is_digit(s[j]) {
        lemma_digit_run(s, j + 1);
    }
}

pub proof fn lemma_word_run(s: Seq<char>, j: int)
    requires
        0 <= j <= s.len(),
    ensures
        j <= word_run_end(s, j) <= s.len(),
        forall|k: int| j <= k < word_run_end(s, j) ==> is_word(#[trigger] s[k]),
        word_run_end(s, j) < s.len() ==> !is_word(s[word_run_end(s, j)]),
    decreases s.len() - j,
{
    if j < s.len() && is_word(s[j]) {
        lemma_word_run(s, j + 1);
    }
}

pub proof fn lemma_emote_tail(s: Seq<char>, j: int)
    requires
        0 <= j <= s.len(),
    ensures
        emote_tail_end(s, j) matches Some(e) ==> j < e <= s.len(),
{
    lemma_word_run(s, j);
    let w = word_run_end(s, j);
    if w > j && w < s.len() && s[w] == ':' {
        lemma_digit_run(s, w + 1);
    }
}

/// A match ends after it starts and within the text; markup matches start at `<`.
pub proof fn lemma_rule_end(r: Rule, s: Seq<char>, i: int)
    ensures
        rule_end(r, s, i) matches Some(e) ==> 0 <= i < e <= s.len(),
        rule_end(r, s, i) is Some && (r == Rule::Emote || r == Rule::AnimatedEmote || r
            == Rule::RoleMention) ==> s[i] == '<',
{
    if 0 <= i < s.len() {
        match r {
            Rule::Emote => {
                if s[i] == '<' {
                    lemma_emote_tail(
                        s,
                        if i + 1 < s.len() && s[i + 1] == ':' {
                            i + 2
                        } else {
                            i + 1
                        },
                    );
                }
            },
            Rule::AnimatedEmote => {
                if s[i] == '<' && i + 1 < s.len() && s[i + 1] == 'a' {
                    lemma_emote_tail(
                        s,
                        if i + 2 < s.len() && s[i + 2] == ':' {
                            i + 3
                        } else {
                            i + 2
                        },
                    );
                }
            },
            Rule::RoleMention => {
                if s[i] == '<' && i + 2 < s.len() {
                    lemma_digit_run(s, i + 3);
                }
            },
            Rule::Snowflake => {
                lemma_digit_run(s, i);
            },
            _ => {},
        }
    }
}

/// What a character adds to the weight of a text: one, one more unless it is a
/// space, one more if it is a capital.
pub open spec fn char_weight(c: char) -> nat {
    1 + (if c != ' ' {
        1nat
    } else {
        0nat
    }) + (if is_upper(c) {
        1nat
    } else {
        0nat
    })
}

/// The sum of the weights of the characters of `s`: every rule lowers it.
pub open spec fn weight(s: Seq<char>) -> nat
    decreases s.len(),
{
    if s.len() == 0 {
        0
    } else {
        weight(s.drop_last()) + char_weight(s.last())
    }
}

/// No `<` in `s`: no markup can start anywhere in it.
pub open spec fn no_angle(s: Seq<char>) -> bool {
    forall|k: int| 0 <= k < s.len() ==> s[k] != '<'
}

pub proof fn lemma_weight_concat(a: Seq<char>, b: Seq<char>)
    ensures
        weight(a + b) == weight(a) + weight(b),
    decreases b.len(),
{
    if b.len() == 0 {
        assert(a + b =~= a);
    } else {
        lemma_weight_concat(a, b.drop_last());
        assert((a + b).drop_last() =~= a + b.drop_last());
    }
}

pub proof fn lemma_weight_single(c: char)
    ensures
        weight(seq![c]) == char_weight(c),
{
    let t = seq![c];
    assert(t.drop_last() =~= Seq::<char>::empty());
    assert(weight(t.drop_last()) == 0);
    assert(t.last() == c);
}

pub proof fn lemma_weight_front(s: Seq<char>, i: int, e: int)
    requires
        0 <= i < e <= s.len(),
    ensures
        weight(s.subrange(i, e)) == char_weight(s[i]) + weight(s.subrange(i + 1, e)),
{
    assert(s.subrange(i, e) =~= seq![s[i]] + s.subrange(i + 1, e));
    lemma_weight_concat(seq![s[i]], s.subrange(i + 1, e));
    lemma_weight_single(s[i]);
}

pub proof fn lemma_lower_is_lower(c: char)
    requires
        is_upper(c),
    ensures
        'a' <= to_lower(c) <= 'z',
{
}

/// A replacement weighs less than what it replaces.
pub proof fn lemma_match_lighter(r: Rule, s: Seq<char>, i: int)
    requires
        rule_end(r, s, i) is Some,
    ensures
        weight(rule_rep(r, s, i)) < weight(s.subrange(i, rule_end(r, s, i).unwrap())),
{
    lemma_rule_end(r, s, i);
    let e = rule_end(r, s, i).unwrap();
    lemma_weight_front(s, i, e);
    let rep = rule_rep(r, s, i);
    match r {
        Rule::Snowflake | Rule::LineFeed => {
            assert(weight(rep) == 0);
        },
        Rule::Capital => {
            lemma_lower_is_lower(s[i]);
            lemma_weight_single(to_lower(s[i]));
        },
        Rule::Spaces => {
            lemma_weight_front(s, i + 1, e);
            lemma_weight_single(' ');
        },
        _ => {
            lemma_weight_single(' ');
        },
    }
}

/// A scan either changes nothing or lowers the weight.
pub proof fn lemma_rewrite_lighter(r: Rule, s: Seq<char>, i: int)
    requires
        0 <= i <= s.len(),
    ensures
        rewrite_from(r, s, i) == s.subrange(i, s.len() as int) || weight(rewrite_from(r, s, i))
            < weight(s.subrange(i, s.len() as int)),
    decreases s.len() - i,
{
    let n = s.len() as int;
    if i == n {
        assert(s.subrange(i, n) =~= Seq::<char>::empty());
    } else {
        lemma_rule_end(r, s, i);
        match rule_end(r, s, i) {
            Some(e) => {
                lemma_rewrite_lighter(r, s, e);
                lemma_match_lighter(r, s, i);
                lemma_weight_concat(rule_rep(r, s, i), rewrite_from(r, s, e));
                assert(s.subrange(i, n) =~= s.subrange(i, e) + s.subrange(e, n));
                lemma_weight_concat(s.subrange(i, e), s.subrange(e, n));
            },
            None => {
                lemma_rewrite_lighter(r, s, i + 1);
                lemma_weight_front(s, i, n);
                lemma_weight_concat(seq![s[i]], rewrite_from(r, s, i + 1));
                lemma_weight_single(s[i]);
                assert(s.subrange(i, n) =~= seq![s[i]] + s.subrange(i + 1, n));
            },
        }
    }
}

/// A scan never brings in a `<`.
pub proof fn lemma_rewrite_no_angle(r: Rule, s: Seq<char>, i: int)
    requires
        no_angle(s),
    ensures
        no_angle(rewrite_from(r, s, i)),
    decreases s.len() - i,
{
    if 0 <= i < s.len() {
        lemma_rule_end(r, s, i);
        match rule_end(r, s, i) {
            Some(e) => {
                lemma_rewrite_no_angle(r, s, e);
                if r == Rule::Capital {
                    lemma_lower_is_lower(s[i]);
                }
            },
            None => {
                lemma_rewrite_no_angle(r, s, i + 1);
            },
        }
    }
}

/// Blanking symbols removes every `<`.
pub proof fn lemma_symbols_clear_angles(s: Seq<char>, i: int)
    ensures
        no_angle(rewrite_from(Rule::Symbol, s, i)),
    decreases s.len() - i,
{
    if 0 <= i < s.len() {
        lemma_symbols_clear_angles(s, i + 1);
    }
}

pub(crate) fn digit_run(s: &Vec<char>, j: usize) -> (d: usize)
    requires
        j <= s@.len(),
    ensures
        d == digit_run_end(s@, j as int),
{
    let mut k = j;
    while k < s.len() && digit(s[k])
        invariant
            j <= k <= s@.len(),
            digit_run_end(s@, j as int) == digit_run_end(s@, k as int),
        decreases s.len() - k,
    {
        k = k + 1;
    }
    k
}

fn word_run(s: &Vec<char>, j: usize) -> (d: usize)
    requires
        j <= s@.len(),
    ensures
        d == word_run_end(s@, j as int),
{
    let mut k = j;
    while k < s.len() && word(s[k])
        invariant
            j <= k <= s@.len(),
            word_run_end(s@, j as int) == word_run_end(s@, k as int),
        decreases s.len() - k,
    {
        k = k + 1;
    }
    k
}

fn emote_tail(s: &Vec<char>, j: usize) -> (m: Option<usize>)
    requires
        j <= s@.len(),
    ensures
        m matches Some(e) ==> emote_tail_end(s@, j as int) == Some(e as int),
        m is None ==> emote_tail_end(s@, j as int) is None,
{
    proof {
        lemma_word_run(s@, j as int);
    }
    let w = word_run(s, j);
    if w > j && w < s.len() && s[w] == ':' {
        proof {
            lemma_digit_run(s@, w + 1);
        }
        let d = digit_run(s, w + 1);
        if d > w + 1 && d < s.len() && s[d] == '>' {
            Some(d + 1)
        } else {
            None
        }
    } else {
        None
    }
}

/// Where the match of `r` that starts at `i` ends, if there is one.
pub fn rule_end_at(r: Rule, s: &Vec<char>, i: usize) -> (m: Option<usize>)
    requires
        i < s@.len(),
    ensures
        m matches Some(e) ==> rule_end(r, s@, i as int) == Some(e as int),
        m is None ==> rule_end(r, s@, i as int) is None,
{
    let n = s.len();
    match r {
        Rule::Emote => if s[i] == '<' {
            emote_tail(s, if i + 1 < n && s[i + 1] == ':' { i + 2 } else { i + 1 })
        } else {
            None
        },
        Rule::AnimatedEmote => if s[i] == '<' && i + 1 < n && s[i + 1] == 'a' {
            emote_tail(s, if i + 2 < n && s[i + 2] == ':' { i + 3 } else { i + 2 })
        } else {
            None
        },
        Rule::RoleMention => if s[i] == '<' && n - i > 2 && s[i + 1] == '@' && s[i + 2] == '&' {
            proof {
                lemma_digit_run(s@, i + 3);
            }
            let d = digit_run(s, i + 3);
            if d > i + 3 && d < n && s[d] == '>' {
                Some(d + 1)
            } else {
                None
            }
        } else {
            None
        },
        Rule::Symbol => if symbol(s[i]) {
            Some(i + 1)
        } else {
            None
        },
        Rule::Snowflake => {
            proof {
                lemma_digit_run(s@, i as int);
            }
            let d = digit_run(s, i);
            if (i == 0 || white(s[i - 1])) && d - i == 18 && (d == n || white(s[d])) {
                Some(d)
            } else {
                None
            }
        },
        Rule::LineFeed => if s[i] == '\n' {
            Some(i + 1)
        } else {
            None
        },
        Rule::Spaces => if s[i] == ' ' && i + 1 < n && s[i + 1] == ' ' {
            if i + 2 < n && s[i + 2] == ' ' {
                Some(i + 3)
            } else {
                Some(i + 2)
            }
        } else {
            None
        },
        Rule::Capital => if upper(s[i]) && i + 1 < n && word_tail(s[i + 1]) {
            Some(i + 1)
        } else {
            None
        },
    }
}

/// Replaces every match of `r` in `s`, scanning left to right.
pub fn rewrite_chars(r: Rule, s: &Vec<char>) -> (out: Vec<char>)
    ensures
        out@ == rewrite(r, s@),
{
    let mut out: Vec<char> = Vec::new();
    let mut i: usize = 0;
    while i < s.len()
        invariant
            i <= s@.len(),
            out@ + rewrite_from(r, s@, i as int) == rewrite(r, s@),
        decreases s.len() - i,
    {
        proof {
            lemma_rule_end(r, s@, i as int);
        }
        match rule_end_at(r, s, i) {
            Some(e) => {
                let ghost before = out@;
                match r {
                    Rule::Snowflake | Rule::LineFeed => {},
                    Rule::Capital => {
                        out.push(lower(s[i]));
                    },
                    _ => {
                        out.push(' ');
                    },
                }
                assert(out@ == before + rule_rep(r, s@, i as int));
                assert(before + (rule_rep(r, s@, i as int) + rewrite_from(r, s@, e as int))
                    =~= out@ + rewrite_from(r, s@, e as int));
                i = e;
            },
            None => {
                let ghost before = out@;
                out.push(s[i]);
                assert(before + (seq![s@[i as int]] + rewrite_from(r, s@, i + 1)) =~= out@
                    + rewrite_from(r, s@, i + 1));
                i = i + 1;
            },
        }
    }
    assert(out@ + Seq::<char>::empty() =~= out@);
    out
}

/// No match of `r` starts anywhere in `s` from `i` on.
pub open spec fn unmatched_from(r: Rule, s: Seq<char>, i: int) -> bool {
    forall|k: int| i <= k < s.len() ==> (#[trigger] rule_end(r, s, k)) is None
}

/// A scan that changes nothing found no match.
pub proof fn lemma_unchanged_unmatched(r: Rule, s: Seq<char>, i: int)
    requires
        0 <= i <= s.len(),
        rewrite_from(r, s, i) == s.subrange(i, s.len() as int),
    ensures
        unmatched_from(r, s, i),
    decreases s.len() - i,
{
    let n = s.len() as int;
    if i < n {
        lemma_rule_end(r, s, i);
        match rule_end(r, s, i) {
            Some(e) => {
                lemma_rewrite_lighter(r, s, e);
                lemma_match_lighter(r, s, i);
                lemma_weight_concat(rule_rep(r, s, i), rewrite_from(r, s, e));
                assert(s.subrange(i, n) =~= s.subrange(i, e) + s.subrange(e, n));
                lemma_weight_concat(s.subrange(i, e), s.subrange(e, n));
            },
            None => {
                assert(rewrite_from(r, s, i + 1) =~= rewrite_from(r, s, i).drop_first());
                assert(s.subrange(i + 1, n) =~= s.subrange(i, n).drop_first());
                lemma_unchanged_unmatched(r, s, i + 1);
            },
        }
    }
}

/// A scan that finds no match changes nothing.
pub proof fn lemma_unmatched_unchanged(r: Rule, s: Seq<char>, i: int)
    requires
        0 <= i <= s.len(),
        unmatched_from(r, s, i),
    ensures
        rewrite_from(r, s, i) == s.subrange(i, s.len() as int),
    decreases s.len() - i,
{
    let n = s.len() as int;
    if i < n {
        lemma_unmatched_unchanged(r, s, i + 1);
        assert(s.subrange(i, n) =~= seq![s[i]] + s.subrange(i + 1, n));
    } else {
        assert(s.subrange(i, n) =~= Seq::<char>::empty());
    }
}

proof fn lemma_digit_run_within(u: Seq<char>, a: int, b: int, k: int)
    requires
        0 <= a <= b <= u.len(),
        0 <= k <= b - a,
        b == u.len() || !is_digit(u[b]),
    ensures
        digit_run_end(u, a + k) == a + digit_run_end(u.subrange(a, b), k),
    decreases b - a - k,
{
    let t = u.subrange(a, b);
    if k < b - a && is_digit(t[k]) {
        lemma_digit_run_within(u, a, b, k + 1);
    }
}

/// A stretch of text with no match, cut at whitespace, holds no match either.
pub proof fn lemma_unmatched_stretch(r: Rule, u: Seq<char>, a: int, b: int)
    requires
        0 <= a <= b <= u.len(),
        a == 0 || is_white(u[a - 1]),
        b == u.len() || is_white(u[b]),
        unmatched_from(r, u, 0),
        unmatched_from(Rule::Symbol, u, 0),
    ensures
        unmatched_from(r, u.subrange(a, b), 0),
{
    let t = u.subrange(a, b);
    assert forall|k: int| 0 <= k < t.len() implies (#[trigger] rule_end(r, t, k)) is None by {
        assert(rule_end(Rule::Symbol, u, a + k) is None);
        assert(t[k] == u[a + k]);
        if k + 1 < t.len() {
            assert(t[k + 1] == u[a + k + 1]);
        }
        if k + 2 < t.len() {
            assert(t[k + 2] == u[a + k + 2]);
        }
        if r == Rule::Snowflake {
            lemma_digit_run_within(u, a, b, k);
            lemma_digit_run(t, k);
            let d = digit_run_end(t, k);
            if k > 0 {
                assert(t[k - 1] == u[a + k - 1]);
            }
            if d < t.len() {
                assert(t[d] == u[a + d]);
            }
            assert(rule_end(r, u, a + k) is None);
        } else {
            assert(rule_end(r, u, a + k) is None);
        }
    }
}

} // verus!

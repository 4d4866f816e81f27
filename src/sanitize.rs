//! The sanitizer: raw chat text to a learnable line. Links are cut out first;
//! then a pass of rewrite rules is repeated until it changes nothing; then the
//! text is trimmed. Lines from live chat must also hold enough tokens.
use vstd::prelude::*;
use crate::mentions::{
    expand_mention_chars, expand_mentions, lemma_expand_no_angle, mention_table, MentionedUser,
};
use crate::rules::{
    lemma_rewrite_lighter, lemma_rewrite_no_angle, lemma_symbols_clear_angles,
    lemma_unchanged_unmatched, lemma_unmatched_stretch, lemma_unmatched_unchanged, no_angle,
    rewrite, rewrite_chars, rule_end, unmatched_from, weight, Rule,
};
use crate::text::{
    chars_of, has_tokens, is_symbol, is_white, lead, same_chars, lemma_trim_shape, lemma_trim_trimmed, string_of,
    token_count, trim, trim_chars, trim_end_spaces, trim_end_spaces_chars,
};

verus! {

/// The fewest tokens a line from live chat must hold to be learned.
pub const MIN_NUM_OF_WORDS: usize = 5;

/// What a link looks like: a scheme, or a dotted host, and what follows it.
pub const URL_PATTERN: &'static str = r#"(?:(?:https?|ftp)://|\b(?:[a-z\d]+\.))(?:(?:[^\s()<>]+|\((?:[^\s()<>]+|(?:\([^\s()<>]+\)))?\))+(?:\((?:[^\s()<>]+|(?:\(?:[^\s()<>]+\)))?\)|[^\s`!()\[\]{};:'".,<>?«»“”‘’]))?"#;

/// What compiling `pattern` as a regular expression and replacing every match
/// in `text` by `rep` gives, where `$name` and `${name}` in `rep` stand for
/// capture groups; `None` where the pattern does not compile.
pub uninterp spec fn replaced_all(pattern: Seq<char>, text: Seq<char>, rep: Seq<char>) -> Option<
    Seq<char>,
>;

/// Relies on `regex::Regex::new` and `Regex::replace_all`: compiles `pattern`
/// and replaces every non-overlapping match in `text`, leftmost first, by `rep`.
#[verifier::external_body]
fn replace_all_matches(pattern: &str, text: &str, rep: &str) -> (r: Option<String>)
    ensures
        r matches Some(t) ==> replaced_all(pattern@, text@, rep@) == Some(t@),
        r is None ==> replaced_all(pattern@, text@, rep@) is None,
{
    match regex::Regex::new(pattern) {
        Ok(re) => Some(re.replace_all(text, rep).into_owned()),
        Err(_) => None,
    }
}

/// `s` with links cut out. A link needs a `:` or a `.`, so text with neither
/// is left as it is without running the pattern.
pub open spec fn without_urls(s: Seq<char>) -> Seq<char> {
    if s.contains(':') || s.contains('.') {
        match replaced_all(URL_PATTERN@, s, seq![]) {
            Some(t) => t,
            None => s,
        }
    } else {
        s
    }
}

/// One pass of the rules that need no mention table, in order.
pub open spec fn blank_pass(s: Seq<char>) -> Seq<char> {
    rewrite(
        Rule::Capital,
        rewrite(
            Rule::Spaces,
            rewrite(
                Rule::LineFeed,
                rewrite(
                    Rule::Snowflake,
                    rewrite(
                        Rule::Symbol,
                        rewrite(Rule::RoleMention, rewrite(Rule::AnimatedEmote, rewrite(Rule::Emote, s))),
                    ),
                ),
            ),
        ),
    )
}

/// One pass with mentions resolved first.
pub open spec fn mention_pass(s: Seq<char>, table: Seq<(u64, Seq<char>)>) -> Option<Seq<char>> {
    match expand_mentions(s, table) {
        Some(x) => Some(blank_pass(x)),
        None => None,
    }
}

/// One while `s` holds a `<`, else zero: the first part of the measure that
/// every pass that changes the text lowers.
pub open spec fn angle_flag(s: Seq<char>) -> nat {
    if no_angle(s) {
        0
    } else {
        1
    }
}

/// Passes repeated until one changes nothing.
pub open spec fn settle(s: Seq<char>) -> Seq<char>
    decreases angle_flag(s), weight(s),
{
    let t = blank_pass(s);
    if t == s {
        s
    } else {
        proof {
            lemma_blank_pass(s);
        }
        settle(t)
    }
}

/// Passes with mentions repeated until one changes nothing; `None` where a
/// mentioned id has no entry in the table.
pub open spec fn settle_mentions(s: Seq<char>, table: Seq<(u64, Seq<char>)>) -> Option<Seq<char>>
    decreases angle_flag(s), weight(s),
{
    match mention_pass(s, table) {
        None => None,
        Some(t) => if t == s {
            Some(s)
        } else {
            proof {
                lemma_mention_pass(s, table);
            }
            settle_mentions(t, table)
        },
    }
}

/// The learnable form of stored text: no mention table, no token floor.
pub open spec fn plain_text(s: Seq<char>) -> Seq<char> {
    trim(settle(trim_end_spaces(without_urls(s))))
}

/// Already link-free text with mentions resolved and the rules settled, trimmed.
pub open spec fn resolved_text(s: Seq<char>, table: Seq<(u64, Seq<char>)>) -> Option<Seq<char>> {
    match settle_mentions(s, table) {
        Some(t) => Some(trim(t)),
        None => None,
    }
}

/// The learnable form of a chat message, or `None` where a mention cannot be
/// resolved or fewer than the minimum of tokens remain.
pub open spec fn message_text(s: Seq<char>, table: Seq<(u64, Seq<char>)>) -> Option<Seq<char>> {
    match resolved_text(trim_end_spaces(without_urls(s)), table) {
        Some(t) => if token_count(t) >= MIN_NUM_OF_WORDS {
            Some(t)
        } else {
            None
        },
        None => None,
    }
}

/// A pass leaves no `<`; on text without `<` it changes nothing or lowers the weight.
pub proof fn lemma_blank_pass(s: Seq<char>)
    ensures
        no_angle(blank_pass(s)),
        no_angle(s) ==> blank_pass(s) == s || weight(blank_pass(s)) < weight(s),
{
    let a1 = rewrite(Rule::Emote, s);
    let a2 = rewrite(Rule::AnimatedEmote, a1);
    let a3 = rewrite(Rule::RoleMention, a2);
    let a4 = rewrite(Rule::Symbol, a3);
    let a5 = rewrite(Rule::Snowflake, a4);
    let a6 = rewrite(Rule::LineFeed, a5);
    let a7 = rewrite(Rule::Spaces, a6);
    let a8 = rewrite(Rule::Capital, a7);
    lemma_symbols_clear_angles(a3, 0);
    lemma_rewrite_no_angle(Rule::Snowflake, a4, 0);
    lemma_rewrite_no_angle(Rule::LineFeed, a5, 0);
    lemma_rewrite_no_angle(Rule::Spaces, a6, 0);
    lemma_rewrite_no_angle(Rule::Capital, a7, 0);
    lemma_lighter_whole(Rule::Emote, s);
    lemma_lighter_whole(Rule::AnimatedEmote, a1);
    lemma_lighter_whole(Rule::RoleMention, a2);
    lemma_lighter_whole(Rule::Symbol, a3);
    lemma_lighter_whole(Rule::Snowflake, a4);
    lemma_lighter_whole(Rule::LineFeed, a5);
    lemma_lighter_whole(Rule::Spaces, a6);
    lemma_lighter_whole(Rule::Capital, a7);
}

pub proof fn lemma_lighter_whole(r: Rule, s: Seq<char>)
    ensures
        rewrite(r, s) == s || weight(rewrite(r, s)) < weight(s),
{
    lemma_rewrite_lighter(r, s, 0);
    assert(s.subrange(0, s.len() as int) =~= s);
}

/// A pass with mentions lowers the measure whenever it changes the text.
pub proof fn lemma_mention_pass(s: Seq<char>, table: Seq<(u64, Seq<char>)>)
    ensures
        mention_pass(s, table) matches Some(t) ==> no_angle(t) && (no_angle(s) ==> t == s || weight(
            t,
        ) < weight(s)),
{
    if no_angle(s) {
        lemma_expand_no_angle(s, table, 0);
        assert(s.subrange(0, s.len() as int) =~= s);
    }
    if let Some(x) = expand_mentions(s, table) {
        lemma_blank_pass(x);
    }
}

fn blank_pass_chars(s: &Vec<char>) -> (r: Vec<char>)
    ensures
        r@ == blank_pass(s@),
{
    let a = rewrite_chars(Rule::Emote, s);
    let a = rewrite_chars(Rule::AnimatedEmote, &a);
    let a = rewrite_chars(Rule::RoleMention, &a);
    let a = rewrite_chars(Rule::Symbol, &a);
    let a = rewrite_chars(Rule::Snowflake, &a);
    let a = rewrite_chars(Rule::LineFeed, &a);
    let a = rewrite_chars(Rule::Spaces, &a);
    rewrite_chars(Rule::Capital, &a)
}

/// Repeats passes until one changes nothing.
fn settle_chars(s: Vec<char>) -> (r: Vec<char>)
    ensures
        r@ == settle(s@),
{
    let mut cur = s;
    loop
        invariant
            settle(cur@) == settle(s@),
        decreases angle_flag(cur@), weight(cur@),
    {
        let t = blank_pass_chars(&cur);
        if same_chars(&t, &cur) {
            return cur;
        }
        proof {
            lemma_blank_pass(cur@);
        }
        cur = t;
    }
}

/// Repeats passes with mentions until one changes nothing.
fn settle_mention_chars(s: Vec<char>, users: &Vec<MentionedUser>) -> (r: Option<Vec<char>>)
    ensures
        r matches Some(v) ==> settle_mentions(s@, mention_table(users@)) == Some(v@),
        r is None ==> settle_mentions(s@, mention_table(users@)) is None,
{
    let ghost table = mention_table(users@);
    let mut cur = s;
    loop
        invariant
            table == mention_table(users@),
            settle_mentions(cur@, table) == settle_mentions(s@, table),
        decreases angle_flag(cur@), weight(cur@),
    {
        let x = match expand_mention_chars(&cur, users) {
            Some(x) => x,
            None => {
                return None;
            },
        };
        let t = blank_pass_chars(&x);
        if same_chars(&t, &cur) {
            return Some(cur);
        }
        proof {
            lemma_mention_pass(cur@, table);
        }
        cur = t;
    }
}

fn has_url_mark(s: &Vec<char>) -> (r: bool)
    ensures
        r == (s@.contains(':') || s@.contains('.')),
{
    let mut i: usize = 0;
    while i < s.len()
        invariant
            i <= s@.len(),
            forall|k: int| 0 <= k < i ==> s@[k] != ':' && s@[k] != '.',
        decreases s.len() - i,
    {
        if s[i] == ':' || s[i] == '.' {
            assert(s@[i as int] == ':' ==> s@.contains(':'));
            assert(s@[i as int] == '.' ==> s@.contains('.'));
            return true;
        }
        i = i + 1;
    }
    false
}

/// Cuts links out of `s`.
fn strip_urls(s: &str) -> (r: Vec<char>)
    ensures
        r@ == without_urls(s@),
{
    let v = chars_of(s);
    if has_url_mark(&v) {
        let rep = "";
        proof {
            reveal_strlit("");
        }
        assert(rep@ == Seq::<char>::empty());
        match replace_all_matches(URL_PATTERN, s, rep) {
            Some(t) => chars_of(t.as_str()),
            None => v,
        }
    } else {
        v
    }
}

/// Sanitizes stored text for the corpus: links cut out, markup blanked,
/// capitals lowered and spaces collapsed until nothing changes, then trimmed.
/// There is no mention table and no token floor here.
pub fn filter_string_for_markov_file(msg: &str) -> (r: String)
    ensures
        r@ == plain_text(msg@),
{
    let mut v = strip_urls(msg);
    trim_end_spaces_chars(&mut v);
    let settled = settle_chars(v);
    let t = trim_chars(&settled);
    string_of(&t)
}

/// Resolves the mentions of already link-free text and settles the rules,
/// then trims; `None` where a mentioned id is not among `mentions`.
pub fn resolve_message_text(text: &str, mentions: &Vec<MentionedUser>) -> (r: Option<String>)
    ensures
        r matches Some(t) ==> resolved_text(text@, mention_table(mentions@)) == Some(t@),
        r is None ==> resolved_text(text@, mention_table(mentions@)) is None,
{
    let v = chars_of(text);
    match settle_mention_chars(v, mentions) {
        Some(settled) => {
            let t = trim_chars(&settled);
            Some(string_of(&t))
        },
        None => None,
    }
}

/// Sanitizes a chat message for the corpus: links cut out, mentions replaced
/// by names, markup blanked, capitals lowered and spaces collapsed until
/// nothing changes, then trimmed. `None` where a mention cannot be resolved or
/// fewer than `MIN_NUM_OF_WORDS` tokens remain.
pub fn filter_message_for_markov_file(content: &str, mentions: &Vec<MentionedUser>) -> (r: Option<
    String,
>)
    ensures
        r matches Some(t) ==> message_text(content@, mention_table(mentions@)) == Some(t@),
        r is None ==> message_text(content@, mention_table(mentions@)) is None,
{
    let mut v = strip_urls(content);
    trim_end_spaces_chars(&mut v);
    match settle_mention_chars(v, mentions) {
        Some(settled) => {
            let t = trim_chars(&settled);
            if has_tokens(&t, MIN_NUM_OF_WORDS) {
                Some(string_of(&t))
            } else {
                None
            }
        },
        None => None,
    }
}

/// What `settle` returns is a fixpoint of the pass.
pub proof fn lemma_settle_fixed(s: Seq<char>)
    ensures
        blank_pass(settle(s)) == settle(s),
    decreases angle_flag(s), weight(s),
{
    let t = blank_pass(s);
    if t != s {
        lemma_blank_pass(s);
        lemma_settle_fixed(t);
    }
}

/// In a fixpoint of the pass no rule finds a match.
pub proof fn lemma_fixed_unmatched(u: Seq<char>)
    requires
        blank_pass(u) == u,
    ensures
        forall|r: Rule| #[trigger] unmatched_from(r, u, 0),
{
    let a1 = rewrite(Rule::Emote, u);
    let a2 = rewrite(Rule::AnimatedEmote, a1);
    let a3 = rewrite(Rule::RoleMention, a2);
    let a4 = rewrite(Rule::Symbol, a3);
    let a5 = rewrite(Rule::Snowflake, a4);
    let a6 = rewrite(Rule::LineFeed, a5);
    let a7 = rewrite(Rule::Spaces, a6);
    lemma_lighter_whole(Rule::Emote, u);
    lemma_lighter_whole(Rule::AnimatedEmote, a1);
    lemma_lighter_whole(Rule::RoleMention, a2);
    lemma_lighter_whole(Rule::Symbol, a3);
    lemma_lighter_whole(Rule::Snowflake, a4);
    lemma_lighter_whole(Rule::LineFeed, a5);
    lemma_lighter_whole(Rule::Spaces, a6);
    lemma_lighter_whole(Rule::Capital, a7);
    assert(a7 == u);
    assert forall|r: Rule| #[trigger] unmatched_from(r, u, 0) by {
        assert(rewrite(r, u) == u);
        assert(u.subrange(0, u.len() as int) =~= u);
        lemma_unchanged_unmatched(r, u, 0);
    }
}

/// A stretch of a fixpoint cut at whitespace is a fixpoint too.
pub proof fn lemma_fixed_stretch(u: Seq<char>, a: int, b: int)
    requires
        blank_pass(u) == u,
        0 <= a <= b <= u.len(),
        a == 0 || is_white(u[a - 1]),
        b == u.len() || is_white(u[b]),
    ensures
        blank_pass(u.subrange(a, b)) == u.subrange(a, b),
        !u.subrange(a, b).contains(':') && !u.subrange(a, b).contains('.'),
{
    let t = u.subrange(a, b);
    lemma_fixed_unmatched(u);
    assert forall|r: Rule| #[trigger] rewrite(r, t) == t by {
        assert(unmatched_from(r, u, 0));
        assert(unmatched_from(Rule::Symbol, u, 0));
        lemma_unmatched_stretch(r, u, a, b);
        lemma_unmatched_unchanged(r, t, 0);
        assert(t.subrange(0, t.len() as int) =~= t);
    }
    assert(unmatched_from(Rule::Symbol, u, 0));
    assert forall|k: int| 0 <= k < t.len() implies t[k] != ':' && t[k] != '.' by {
        assert(rule_end(Rule::Symbol, u, a + k) is None);
        assert(t[k] == u[a + k]);
    }
}

/// Sanitizing stored text a second time changes nothing.
pub proof fn lemma_plain_text_idempotent(s: Seq<char>)
    ensures
        plain_text(plain_text(s)) == plain_text(s),
{
    let u = settle(trim_end_spaces(without_urls(s)));
    let t = plain_text(s);
    lemma_settle_fixed(trim_end_spaces(without_urls(s)));
    lemma_trim_shape(u);
    let a = lead(u) as int;
    let b = a + (trim(u).len() as int);
    lemma_fixed_stretch(u, a, b);
    assert(without_urls(t) == t);
    if t.len() > 0 {
        assert(t[0] == u[a]);
        assert(t.last() == u[b - 1]);
    }
    lemma_trim_trimmed(t);
    assert(settle(t) == t);
}

/// Sanitizing stored text as a chat message, with any mention table, gives it
/// back unchanged when it holds enough tokens and rejects it otherwise.
pub proof fn lemma_message_text_of_plain(s: Seq<char>, table: Seq<(u64, Seq<char>)>)
    ensures
        message_text(plain_text(s), table) == if token_count(plain_text(s)) >= MIN_NUM_OF_WORDS {
            Some(plain_text(s))
        } else {
            None
        },
{
    let u = settle(trim_end_spaces(without_urls(s)));
    let t = plain_text(s);
    lemma_plain_text_idempotent(s);
    lemma_settle_fixed(trim_end_spaces(without_urls(s)));
    lemma_trim_shape(u);
    let a = lead(u) as int;
    let b = a + (trim(u).len() as int);
    lemma_fixed_stretch(u, a, b);
    lemma_fixed_unmatched(t);
    assert(unmatched_from(Rule::Symbol, t, 0));
    assert forall|k: int| 0 <= k < t.len() implies t[k] != '<' by {
        assert(rule_end(Rule::Symbol, t, k) is None);
    }
    lemma_expand_no_angle(t, table, 0);
    assert(t.subrange(0, t.len() as int) =~= t);
    if t.len() > 0 {
        assert(t[0] == u[a]);
        assert(t.last() == u[b - 1]);
    }
    lemma_trim_trimmed(t);
    assert(without_urls(t) == t);
    assert(settle_mentions(t, table) == Some(t));
}

/// The shape of a sanitized line: no punctuation or symbol (so no markup and
/// no link), no line feed, no two spaces in a row, no whitespace at either end.
pub open spec fn clean_line(t: Seq<char>) -> bool {
    &&& forall|k: int| 0 <= k < t.len() ==> !is_symbol(#[trigger] t[k]) && t[k] != '\n'
    &&& forall|k: int| 0 <= k < t.len() - 1 ==> !(#[trigger] t[k] == ' ' && t[k + 1] == ' ')
    &&& t.len() > 0 ==> !is_white(t[0]) && !is_white(t.last())
}

/// A trimmed stretch of a fixpoint of the pass has the shape of a sanitized line.
proof fn lemma_trimmed_fixpoint_clean(u: Seq<char>)
    requires
        blank_pass(u) == u,
    ensures
        clean_line(trim(u)),
{
    lemma_trim_shape(u);
    let a = lead(u) as int;
    let b = a + (trim(u).len() as int);
    let t = trim(u);
    lemma_fixed_unmatched(u);
    assert(unmatched_from(Rule::Symbol, u, 0));
    assert(unmatched_from(Rule::LineFeed, u, 0));
    assert(unmatched_from(Rule::Spaces, u, 0));
    assert forall|k: int| 0 <= k < t.len() implies !is_symbol(#[trigger] t[k]) && t[k] != '\n' by {
        assert(t[k] == u[a + k]);
        assert(rule_end(Rule::Symbol, u, a + k) is None);
        assert(rule_end(Rule::LineFeed, u, a + k) is None);
    }
    assert forall|k: int| 0 <= k < t.len() - 1 implies !(#[trigger] t[k] == ' ' && t[k + 1] == ' ') by {
        assert(t[k] == u[a + k]);
        assert(t[k + 1] == u[a + k + 1]);
        assert(rule_end(Rule::Spaces, u, a + k) is None);
    }
    if t.len() > 0 {
        assert(t[0] == u[a]);
        assert(t.last() == u[b - 1]);
    }
}

/// Stored text sanitizes to the shape of a sanitized line.
pub proof fn lemma_plain_text_clean(s: Seq<char>)
    ensures
        clean_line(plain_text(s)),
{
    lemma_settle_fixed(trim_end_spaces(without_urls(s)));
    lemma_trimmed_fixpoint_clean(settle(trim_end_spaces(without_urls(s))));
}

/// What `settle_mentions` returns is a fixpoint of the pass.
proof fn lemma_settle_mentions_fixed(s: Seq<char>, table: Seq<(u64, Seq<char>)>)
    ensures
        settle_mentions(s, table) matches Some(u) ==> blank_pass(u) == u,
    decreases angle_flag(s), weight(s),
{
    if let Some(t) = mention_pass(s, table) {
        lemma_mention_pass(s, table);
        if t != s {
            lemma_settle_mentions_fixed(t, table);
        } else {
            lemma_blank_pass(expand_mentions(s, table).unwrap());
            lemma_expand_no_angle(s, table, 0);
            assert(s.subrange(0, s.len() as int) =~= s);
        }
    }
}

/// A chat message that is accepted sanitizes to the shape of a sanitized
/// line with at least `MIN_NUM_OF_WORDS` tokens.
pub proof fn lemma_message_text_clean(s: Seq<char>, table: Seq<(u64, Seq<char>)>)
    ensures
        message_text(s, table) matches Some(t) ==> clean_line(t) && token_count(t)
            >= MIN_NUM_OF_WORDS,
{
    let v = trim_end_spaces(without_urls(s));
    lemma_settle_mentions_fixed(v, table);
    if let Some(u) = settle_mentions(v, table) {
        lemma_trimmed_fixpoint_clean(u);
    }
}

} // verus!

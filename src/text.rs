//! Characters, whitespace and tokens: the vocabulary the sanitizer is stated in.
use vstd::prelude::*;

verus! {

/// An ASCII decimal digit. Markup ids are ASCII digits, so the sanitizer's
/// rules take digits as ASCII on purpose; other decimal digits are ordinary
/// text to them.
pub open spec fn is_digit(c: char) -> bool {
    '0' <= c && c <= '9'
}

/// A word character of chat markup: ASCII letter, digit or underscore. Emote
/// names are ASCII, so the rules take word characters as ASCII on purpose.
pub open spec fn is_word(c: char) -> bool {
    ('a' <= c && c <= 'z') || ('A' <= c && c <= 'Z') || is_digit(c) || c == '_'
}

/// An ASCII capital letter.
pub open spec fn is_upper(c: char) -> bool {
    'A' <= c && c <= 'Z'
}

/// A character that may follow a capital in a word that gets lower-cased.
pub open spec fn is_word_tail(c: char) -> bool {
    ('a' <= c && c <= 'z') || is_digit(c) || c == '_' || c == '-'
}

/// The ASCII lower-case form of a capital letter.
pub open spec fn to_lower(c: char) -> char {
    ((c as u32) + 32) as char
}

/// Punctuation and symbol characters that are blanked out of learnable text.
pub open spec fn is_symbol(c: char) -> bool {
    c == ',' || c == '.' || c == '!' || c == '"' || c == '#' || c == '$' || c == '(' || c == ')'
        || c == '=' || c == '?' || c == '*' || c == '<' || c == '>' || c == '{' || c == '}'
        || c == '[' || c == ']' || c == '\\' || c == '|' || c == '\u{141}' || c == '\u{142}'
        || c == '@' || c == ';' || c == ':' || c == '+' || c == '~' || c == '\u{2c7}' || c
        == '^' || c == '\u{2d8}' || c == '\u{b0}' || c == '\u{2db}' || c == '`' || c == '\u{b4}'
        || c == '\u{2dd}'
}

/// Unicode `White_Space`, the characters that trimming removes.
pub open spec fn is_white(c: char) -> bool {
    ('\u{9}' <= c && c <= '\u{d}') || c == ' ' || c == '\u{85}' || c == '\u{a0}' || c
        == '\u{1680}' || ('\u{2000}' <= c && c <= '\u{200a}') || c == '\u{2028}' || c
        == '\u{2029}' || c == '\u{202f}' || c == '\u{205f}' || c == '\u{3000}'
}

pub fn digit(c: char) -> (r: bool)
    ensures
        r == is_digit(c),
{
    '0' <= c && c <= '9'
}

pub fn word(c: char) -> (r: bool)
    ensures
        r == is_word(c),
{
    ('a' <= c && c <= 'z') || ('A' <= c && c <= 'Z') || digit(c) || c == '_'
}

pub fn upper(c: char) -> (r: bool)
    ensures
        r == is_upper(c),
{
    'A' <= c && c <= 'Z'
}

pub fn word_tail(c: char) -> (r: bool)
    ensures
        r == is_word_tail(c),
{
    ('a' <= c && c <= 'z') || digit(c) || c == '_' || c == '-'
}

pub fn lower(c: char) -> (r: char)
    requires
        is_upper(c),
    ensures
        r == to_lower(c),
{
    ((c as u8) + 32) as char
}

pub fn symbol(c: char) -> (r: bool)
    ensures
        r == is_symbol(c),
{
    c == ',' || c == '.' || c == '!' || c == '"' || c == '#' || c == '$' || c == '(' || c == ')'
        || c == '=' || c == '?' || c == '*' || c == '<' || c == '>' || c == '{' || c == '}'
        || c == '[' || c == ']' || c == '\\' || c == '|' || c == '\u{141}' || c == '\u{142}'
        || c == '@' || c == ';' || c == ':' || c == '+' || c == '~' || c == '\u{2c7}' || c
        == '^' || c == '\u{2d8}' || c == '\u{b0}' || c == '\u{2db}' || c == '`' || c == '\u{b4}'
        || c == '\u{2dd}'
}

pub fn white(c: char) -> (r: bool)
    ensures
        r == is_white(c),
{
    ('\u{9}' <= c && c <= '\u{d}') || c == ' ' || c == '\u{85}' || c == '\u{a0}' || c
        == '\u{1680}' || ('\u{2000}' <= c && c <= '\u{200a}') || c == '\u{2028}' || c
        == '\u{2029}' || c == '\u{202f}' || c == '\u{205f}' || c == '\u{3000}'
}

/// Whitespace removed from the front.
pub open spec fn trim_start(s: Seq<char>) -> Seq<char>
    decreases s.len(),
{
    if s.len() > 0 && is_white(s[0]) {
        trim_start(s.drop_first())
    } else {
        s
    }
}

/// Whitespace removed from the back.
pub open spec fn trim_end(s: Seq<char>) -> Seq<char>
    decreases s.len(),
{
    if s.len() > 0 && is_white(s.last()) {
        trim_end(s.drop_last())
    } else {
        s
    }
}

/// Whitespace removed from both ends.
pub open spec fn trim(s: Seq<char>) -> Seq<char> {
    trim_end(trim_start(s))
}

/// Plain spaces removed from the back.
pub open spec fn trim_end_spaces(s: Seq<char>) -> Seq<char>
    decreases s.len(),
{
    if s.len() > 0 && s.last() == ' ' {
        trim_end_spaces(s.drop_last())
    } else {
        s
    }
}

/// How many times `c` occurs in `s`.
pub open spec fn occurrences(s: Seq<char>, c: char) -> nat
    decreases s.len(),
{
    if s.len() == 0 {
        0
    } else {
        occurrences(s.drop_last(), c) + if s.last() == c {
            1nat
        } else {
            0nat
        }
    }
}

/// The number of pieces that splitting `s` at each space gives.
pub open spec fn token_count(s: Seq<char>) -> nat {
    occurrences(s, ' ') + 1
}

pub proof fn lemma_occurrences_concat(a: Seq<char>, b: Seq<char>, c: char)
    ensures
        occurrences(a + b, c) == occurrences(a, c) + occurrences(b, c),
    decreases b.len(),
{
    if b.len() == 0 {
        assert(a + b =~= a);
    } else {
        lemma_occurrences_concat(a, b.drop_last(), c);
        assert((a + b).drop_last() =~= a + b.drop_last());
    }
}

/// How many whitespace characters open `s`.
pub open spec fn lead(s: Seq<char>) -> nat
    decreases s.len(),
{
    if s.len() > 0 && is_white(s[0]) {
        1 + lead(s.drop_first())
    } else {
        0
    }
}

/// How many whitespace characters close `s`.
pub open spec fn trail(s: Seq<char>) -> nat
    decreases s.len(),
{
    if s.len() > 0 && is_white(s.last()) {
        1 + trail(s.drop_last())
    } else {
        0
    }
}

pub proof fn lemma_trim_start_shape(s: Seq<char>)
    ensures
        lead(s) <= s.len(),
        trim_start(s) == s.subrange(lead(s) as int, s.len() as int),
        forall|k: int| 0 <= k < lead(s) ==> is_white(#[trigger] s[k]),
        lead(s) < s.len() ==> !is_white(s[lead(s) as int]),
    decreases s.len(),
{
    if s.len() > 0 && is_white(s[0]) {
        lemma_trim_start_shape(s.drop_first());
        assert(s.drop_first().subrange(lead(s.drop_first()) as int, s.len() - 1) =~= s.subrange(
            lead(s) as int,
            s.len() as int,
        ));
        assert forall|k: int| 0 <= k < lead(s) implies is_white(#[trigger] s[k]) by {
            if k > 0 {
                assert(s[k] == s.drop_first()[k - 1]);
            }
        }
        if lead(s) < s.len() {
            assert(s[lead(s) as int] == s.drop_first()[lead(s.drop_first()) as int]);
        }
    } else {
        assert(s.subrange(0, s.len() as int) =~= s);
    }
}

pub proof fn lemma_trim_end_shape(s: Seq<char>)
    ensures
        trail(s) <= s.len(),
        trim_end(s) == s.subrange(0, s.len() - trail(s)),
        forall|k: int| s.len() - trail(s) <= k < s.len() ==> is_white(#[trigger] s[k]),
        trail(s) < s.len() ==> !is_white(s[s.len() - trail(s) - 1]),
    decreases s.len(),
{
    if s.len() > 0 && is_white(s.last()) {
        lemma_trim_end_shape(s.drop_last());
        assert(s.drop_last().subrange(0, s.len() - 1 - trail(s.drop_last())) =~= s.subrange(
            0,
            s.len() - trail(s),
        ));
        assert forall|k: int| s.len() - trail(s) <= k < s.len() implies is_white(
            #[trigger] s[k],
        ) by {
            if k < s.len() - 1 {
                assert(s[k] == s.drop_last()[k]);
            }
        }
    } else {
        assert(s.subrange(0, s.len() as int) =~= s);
    }
}

/// Trimming keeps a stretch of `s` whose neighbours are whitespace and whose
/// ends are not.
pub proof fn lemma_trim_shape(s: Seq<char>)
    ensures
        ({
            let a = lead(s) as int;
            let b = a + (trim(s).len() as int);
            &&& 0 <= a <= b <= s.len()
            &&& trim(s) == s.subrange(a, b)
            &&& (a == 0 || is_white(s[a - 1]))
            &&& (b == s.len() || is_white(s[b]))
            &&& (a < b ==> !is_white(s[a]) && !is_white(s[b - 1]))
        }),
{
    lemma_trim_start_shape(s);
    let a = lead(s) as int;
    let m = trim_start(s);
    lemma_trim_end_shape(m);
    let b = a + (trim(s).len() as int);
    assert(trim(s) =~= s.subrange(a, b));
    if b < s.len() {
        assert(s[b] == m[b - a]);
    }
    if a < b {
        assert(s[b - 1] == m[b - a - 1]);
    }
}

/// Trimming twice trims no more than once.
pub proof fn lemma_trim_trimmed(t: Seq<char>)
    requires
        t.len() > 0 ==> !is_white(t[0]) && !is_white(t.last()),
    ensures
        trim(t) == t,
        trim_end_spaces(t) == t,
{
}

/// `names` joined with `sep` between each two.
pub open spec fn joined(names: Seq<Seq<char>>, sep: Seq<char>) -> Seq<char>
    decreases names.len(),
{
    if names.len() == 0 {
        seq![]
    } else if names.len() == 1 {
        names[0]
    } else {
        joined(names.drop_last(), sep) + sep + names.last()
    }
}

/// The decimal digits of `n`, most significant first, without leading zeros.
pub open spec fn decimal(n: nat) -> Seq<char>
    decreases n,
{
    if n < 10 {
        seq![((n + 48) as u32) as char]
    } else {
        decimal(n / 10).push((((n % 10) + 48) as u32) as char)
    }
}

/// The characters of `s`, in order.
pub(crate) fn chars_of(s: &str) -> (r: Vec<char>)
    ensures
        r@ == s@,
{
    let n = s.unicode_len();
    let mut v: Vec<char> = Vec::new();
    let mut i: usize = 0;
    while i < n
        invariant
            i <= n == s@.len(),
            v@ == s@.subrange(0, i as int),
        decreases n - i,
    {
        v.push(s.get_char(i));
        assert(v@ =~= s@.subrange(0, i + 1));
        i = i + 1;
    }
    assert(s@.subrange(0, n as int) =~= s@);
    v
}

/// Relies on `String: FromIterator<&char>`: the string made of `v`'s characters, in order.
#[verifier::external_body]
pub(crate) fn string_of(v: &Vec<char>) -> (r: String)
    ensures
        r@ == v@,
{
    v.iter().collect()
}

/// Trims whitespace from both ends.
pub fn trim_chars(s: &Vec<char>) -> (r: Vec<char>)
    ensures
        r@ == trim(s@),
{
    let n = s.len();
    let mut a: usize = 0;
    assert(s@.subrange(0, n as int) =~= s@);
    while a < n && white(s[a])
        invariant
            a <= n == s@.len(),
            trim_start(s@) == trim_start(s@.subrange(a as int, n as int)),
        decreases n - a,
    {
        assert(s@.subrange(a as int, n as int).drop_first() =~= s@.subrange(a + 1, n as int));
        a = a + 1;
    }
    assert(trim_start(s@) == s@.subrange(a as int, n as int)) by {
        if a < n {
        } else {
            assert(s@.subrange(a as int, n as int).len() == 0);
        }
    }
    let mut b: usize = n;
    while b > a && white(s[b - 1])
        invariant
            a <= b <= n == s@.len(),
            trim(s@) == trim_end(s@.subrange(a as int, b as int)),
        decreases b - a,
    {
        assert(s@.subrange(a as int, b as int).drop_last() =~= s@.subrange(a as int, b - 1));
        b = b - 1;
    }
    let mut r: Vec<char> = Vec::new();
    let mut i: usize = a;
    while i < b
        invariant
            a <= i <= b <= n == s@.len(),
            r@ == s@.subrange(a as int, i as int),
        decreases b - i,
    {
        r.push(s[i]);
        assert(r@ =~= s@.subrange(a as int, i + 1));
        i = i + 1;
    }
    r
}

/// Removes plain spaces from the back.
pub fn trim_end_spaces_chars(s: &mut Vec<char>)
    ensures
        final(s)@ == trim_end_spaces(old(s)@),
{
    while s.len() > 0 && s[s.len() - 1] == ' '
        invariant
            trim_end_spaces(s@) == trim_end_spaces(old(s)@),
        decreases s.len(),
    {
        s.pop();
    }
}

pub proof fn lemma_occurrences_prefix(s: Seq<char>, i: int, c: char)
    requires
        0 <= i <= s.len(),
    ensures
        occurrences(s.subrange(0, i), c) <= occurrences(s, c),
{
    lemma_occurrences_concat(s.subrange(0, i), s.subrange(i, s.len() as int), c);
    assert(s.subrange(0, i) + s.subrange(i, s.len() as int) =~= s);
}

/// Whether splitting `s` at each space gives at least `n` pieces.
pub fn has_tokens(s: &Vec<char>, n: usize) -> (r: bool)
    ensures
        r == (token_count(s@) >= n),
{
    if n <= 1 {
        return true;
    }
    let mut k: usize = 0;
    let mut i: usize = 0;
    while i < s.len()
        invariant
            i <= s@.len(),
            k == occurrences(s@.subrange(0, i as int), ' '),
            k + 1 < n,
        decreases s.len() - i,
    {
        assert(s@.subrange(0, i + 1).drop_last() =~= s@.subrange(0, i as int));
        if s[i] == ' ' {
            k = k + 1;
            if k + 1 >= n {
                proof {
                    lemma_occurrences_prefix(s@, i + 1, ' ');
                }
                return true;
            }
        }
        i = i + 1;
    }
    assert(s@.subrange(0, s@.len() as int) =~= s@);
    false
}

/// Whether `a` and `b` hold the same characters.
pub fn same_chars(a: &Vec<char>, b: &Vec<char>) -> (r: bool)
    ensures
        r == (a@ == b@),
{
    if a.len() != b.len() {
        return false;
    }
    let mut i: usize = 0;
    while i < a.len()
        invariant
            i <= a@.len() == b@.len(),
            a@.subrange(0, i as int) == b@.subrange(0, i as int),
        decreases a.len() - i,
    {
        if a[i] != b[i] {
            return false;
        }
        assert(a@.subrange(0, i + 1) =~= a@.subrange(0, i as int).push(a@[i as int]));
        assert(b@.subrange(0, i + 1) =~= b@.subrange(0, i as int).push(b@[i as int]));
        i = i + 1;
    }
    assert(a@ =~= a@.subrange(0, i as int));
    assert(b@ =~= b@.subrange(0, i as int));
    true
}

/// Whether two strings hold the same characters.
pub fn same_str(a: &str, b: &str) -> (r: bool)
    ensures
        r == (a@ == b@),
{
    let x = chars_of(a);
    let y = chars_of(b);
    same_chars(&x, &y)
}

} // verus!

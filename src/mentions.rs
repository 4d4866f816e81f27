//! User mentions: `<@id>` and `<@!id>` markup replaced by the mentioned user's
//! name, looked up in the table of users the message mentions.
use vstd::prelude::*;
use crate::rules::{digit_run, digit_run_end, lemma_digit_run, no_angle};
use crate::text::{chars_of, is_digit};

verus! {

/// A user a message mentions: the id its markup carries and the name to show.
#[derive(Debug)]
pub struct MentionedUser {
    pub id: u64,
    pub name: String,
}

/// The mention table as plain values: id and name, in the order given.
pub open spec fn mention_table(users: Seq<MentionedUser>) -> Seq<(u64, Seq<char>)> {
    users.map_values(|u: MentionedUser| (u.id, u.name@))
}

/// The number that a run of decimal digits spells.
pub open spec fn decimal_value(ds: Seq<char>) -> nat
    decreases ds.len(),
{
    if ds.len() == 0 {
        0
    } else {
        decimal_value(ds.drop_last()) * 10 + ((ds.last() as int) - ('0' as int)) as nat
    }
}

/// The name of the first entry of `table` whose id is `id`.
pub open spec fn name_of(table: Seq<(u64, Seq<char>)>, id: nat) -> Option<Seq<char>>
    decreases table.len(),
{
    if table.len() == 0 {
        None
    } else if table[0].0 as nat == id {
        Some(table[0].1)
    } else {
        name_of(table.drop_first(), id)
    }
}

/// Where the digits of a mention that starts at `i` begin.
pub open spec fn mention_digits_start(s: Seq<char>, i: int) -> int {
    if i + 2 < s.len() && s[i + 2] == '!' {
        i + 3
    } else {
        i + 2
    }
}

/// The end of the mention `<@digits>` or `<@!digits>` that starts at `i`, if there is one.
pub open spec fn mention_end(s: Seq<char>, i: int) -> Option<int> {
    if 0 <= i && i + 1 < s.len() && s[i] == '<' && s[i + 1] == '@' {
        let j = mention_digits_start(s, i);
        let d = digit_run_end(s, j);
        if d > j && d < s.len() && s[d] == '>' {
            Some(d + 1)
        } else {
            None
        }
    } else {
        None
    }
}

/// The id that the mention starting at `i` carries.
pub open spec fn mention_id(s: Seq<char>, i: int) -> nat {
    let j = mention_digits_start(s, i);
    decimal_value(s.subrange(j, digit_run_end(s, j)))
}

/// `s` from `i` on with every mention replaced by ` name `; `None` if a
/// mentioned id is not in the table.
pub open spec fn expand_from(s: Seq<char>, table: Seq<(u64, Seq<char>)>, i: int) -> Option<
    Seq<char>,
>
    decreases s.len() - i,
{
    if !(0 <= i < s.len()) {
        Some(seq![])
    } else {
        match mention_end(s, i) {
            Some(e) => {
                proof {
                    lemma_mention_end(s, i);
                }
                match name_of(table, mention_id(s, i)) {
                    Some(name) => match expand_from(s, table, e) {
                        Some(rest) => Some(seq![' '] + name + seq![' '] + rest),
                        None => None,
                    },
                    None => None,
                }
            },
            None => match expand_from(s, table, i + 1) {
                Some(rest) => Some(seq![s[i]] + rest),
                None => None,
            },
        }
    }
}

/// `s` with every mention replaced by the mentioned name between spaces.
pub open spec fn expand_mentions(s: Seq<char>, table: Seq<(u64, Seq<char>)>) -> Option<
    Seq<char>,
> {
    expand_from(s, table, 0)
}

pub open spec fn prefixed(p: Seq<char>, o: Option<Seq<char>>) -> Option<Seq<char>> {
    match o {
        Some(x) => Some(p + x),
        None => None,
    }
}

pub proof fn lemma_mention_end(s: Seq<char>, i: int)
    ensures
        mention_end(s, i) matches Some(e) ==> 0 <= i < e <= s.len() && s[i] == '<'
            && mention_digits_start(s, i) < digit_run_end(s, mention_digits_start(s, i)) < e,
{
    if 0 <= i && i + 1 < s.len() && s[i] == '<' && s[i + 1] == '@' {
        lemma_digit_run(s, mention_digits_start(s, i));
    }
}

/// Text without `<` holds no mention, and expansion leaves it as it is.
pub proof fn lemma_expand_no_angle(s: Seq<char>, table: Seq<(u64, Seq<char>)>, i: int)
    requires
        no_angle(s),
        0 <= i <= s.len(),
    ensures
        expand_from(s, table, i) == Some(s.subrange(i, s.len() as int)),
    decreases s.len() - i,
{
    if i < s.len() {
        lemma_expand_no_angle(s, table, i + 1);
        assert(s.subrange(i, s.len() as int) =~= seq![s[i]] + s.subrange(i + 1, s.len() as int));
    } else {
        assert(s.subrange(i, s.len() as int) =~= Seq::<char>::empty());
    }
}

proof fn lemma_name_of_bounded(table: Seq<(u64, Seq<char>)>, id: nat)
    requires
        id > u64::MAX,
    ensures
        name_of(table, id) is None,
    decreases table.len(),
{
    if table.len() > 0 {
        lemma_name_of_bounded(table.drop_first(), id);
    }
}

fn mention_at(s: &Vec<char>, i: usize) -> (m: Option<(usize, usize)>)
    requires
        i < s@.len(),
    ensures
        m matches Some((j, e)) ==> mention_end(s@, i as int) == Some(e as int) && j
            == mention_digits_start(s@, i as int),
        m is None ==> mention_end(s@, i as int) is None,
{
    let n = s.len();
    if n - i > 1 && s[i] == '<' && s[i + 1] == '@' {
        let j = if n - i > 2 && s[i + 2] == '!' {
            i + 3
        } else {
            i + 2
        };
        proof {
            lemma_digit_run(s@, j as int);
        }
        let d = digit_run(s, j);
        if d > j && d < n && s[d] == '>' {
            Some((j, d + 1))
        } else {
            None
        }
    } else {
        None
    }
}

/// The value of the digits `s[a..b]`, or `None` where it does not fit in a `u64`.
fn parse_id(s: &Vec<char>, a: usize, b: usize) -> (r: Option<u64>)
    requires
        a <= b <= s@.len(),
        forall|k: int| a <= k < b ==> is_digit(#[trigger] s@[k]),
    ensures
        r matches Some(v) ==> v as nat == decimal_value(s@.subrange(a as int, b as int)),
        r is None ==> decimal_value(s@.subrange(a as int, b as int)) > u64::MAX,
{
    let mut v: u64 = 0;
    let mut k: usize = a;
    while k < b
        invariant
            a <= k <= b <= s@.len(),
            forall|q: int| a <= q < b ==> is_digit(#[trigger] s@[q]),
            v as nat == decimal_value(s@.subrange(a as int, k as int)),
        decreases b - k,
    {
        assert(s@.subrange(a as int, k + 1).drop_last() =~= s@.subrange(a as int, k as int));
        let d = (s[k] as u32 - '0' as u32) as u128;
        let w: u128 = (v as u128) * 10 + d;
        if w > u64::MAX as u128 {
            proof {
                lemma_value_grows(s@, a as int, k + 1, b as int);
            }
            return None;
        }
        v = w as u64;
        k = k + 1;
    }
    Some(v)
}

proof fn lemma_value_grows(s: Seq<char>, a: int, k: int, b: int)
    requires
        0 <= a <= k <= b <= s.len(),
    ensures
        decimal_value(s.subrange(a, k)) <= decimal_value(s.subrange(a, b)),
    decreases b - k,
{
    if k < b {
        lemma_value_grows(s, a, k + 1, b);
        assert(s.subrange(a, k + 1).drop_last() =~= s.subrange(a, k));
    }
}

fn find_name(users: &Vec<MentionedUser>, id: u64) -> (r: Option<usize>)
    ensures
        r matches Some(k) ==> k < users@.len() && name_of(mention_table(users@), id as nat)
            == Some(users@[k as int].name@),
        r is None ==> name_of(mention_table(users@), id as nat) is None,
{
    let mut k: usize = 0;
    assert(mention_table(users@).subrange(0, users@.len() as int) =~= mention_table(users@));
    while k < users.len()
        invariant
            k <= users@.len(),
            name_of(mention_table(users@), id as nat) == name_of(
                mention_table(users@).subrange(k as int, users@.len() as int),
                id as nat,
            ),
        decreases users.len() - k,
    {
        let ghost t = mention_table(users@).subrange(k as int, users@.len() as int);
        assert(t.drop_first() =~= mention_table(users@).subrange(k + 1, users@.len() as int));
        if users[k].id == id {
            return Some(k);
        }
        k = k + 1;
    }
    None
}

/// Replaces every mention in `s` by the mentioned user's name between spaces;
/// `None` where a mentioned id is not among `users`.
pub fn expand_mention_chars(s: &Vec<char>, users: &Vec<MentionedUser>) -> (r: Option<Vec<char>>)
    ensures
        r matches Some(v) ==> expand_mentions(s@, mention_table(users@)) == Some(v@),
        r is None ==> expand_mentions(s@, mention_table(users@)) is None,
{
    let ghost table = mention_table(users@);
    let mut out: Vec<char> = Vec::new();
    let mut i: usize = 0;
    while i < s.len()
        invariant
            i <= s@.len(),
            table == mention_table(users@),
            expand_mentions(s@, table) == prefixed(out@, expand_from(s@, table, i as int)),
        decreases s.len() - i,
    {
        proof {
            lemma_mention_end(s@, i as int);
        }
        match mention_at(s, i) {
            Some((j, e)) => {
                proof {
                    lemma_digit_run(s@, j as int);
                }
                let d = digit_run(s, j);
                let id = match parse_id(s, j, d) {
                    Some(v) => v,
                    None => {
                        proof {
                            lemma_name_of_bounded(table, mention_id(s@, i as int));
                        }
                        return None;
                    },
                };
                let k = match find_name(users, id) {
                    Some(k) => k,
                    None => {
                        return None;
                    },
                };
                let name = chars_of(users[k].name.as_str());
                let ghost before = out@;
                out.push(' ');
                let mut q: usize = 0;
                while q < name.len()
                    invariant
                        q <= name@.len(),
                        out@ == before + seq![' '] + name@.subrange(0, q as int),
                    decreases name.len() - q,
                {
                    out.push(name[q]);
                    assert(out@ =~= before + seq![' '] + name@.subrange(0, q + 1));
                    q = q + 1;
                }
                out.push(' ');
                assert(out@ =~= before + (seq![' '] + name@ + seq![' ']));
                proof {
                    match expand_from(s@, table, e as int) {
                        Some(rest) => {
                            assert(before + (seq![' '] + name@ + seq![' '] + rest) =~= out@
                                + rest);
                        },
                        None => {},
                    }
                }
                i = e;
            },
            None => {
                let ghost before = out@;
                out.push(s[i]);
                proof {
                    match expand_from(s@, table, i + 1) {
                        Some(rest) => {
                            assert(before + (seq![s@[i as int]] + rest) =~= out@ + rest);
                        },
                        None => {},
                    }
                }
                i = i + 1;
            },
        }
    }
    assert(out@ + Seq::<char>::empty() =~= out@);
    Some(out)
}

} // verus!

//! Readings of the host the agent runs on, from the text of its `/proc`
//! files.
use vstd::prelude::*;
use vstd::string::*;

use crate::mesh::{first_word, first_word_str};
use crate::text::{char_is_ws, is_ws, lines, lines_of, parse_u64, parse_u64_str, starts_with, str_starts_with, trim_start};

verus! {

/// `s` from its first whitespace on.
pub open spec fn after_word(s: Seq<char>) -> Seq<char>
    decreases s.len(),
{
    if s.len() == 0 || is_ws(s[0]) {
        s
    } else {
        after_word(s.drop_first())
    }
}

/// The second whitespace-separated word of `s`
/// (`split_whitespace().nth(1)`).
pub open spec fn second_word(s: Seq<char>) -> Option<Seq<char>> {
    first_word(after_word(trim_start(s)))
}

pub(crate) fn second_word_str(s: &str) -> (r: Option<&str>)
    ensures
        match r {
            Some(w) => second_word(s@) == Some(w@),
            None => second_word(s@) is None,
        },
{
    let n = s.unicode_len();
    let mut i: usize = 0;
    assert(s@.subrange(0, n as int) =~= s@);
    while i < n && char_is_ws(s.get_char(i))
        invariant
            n == s@.len(),
            i <= n,
            trim_start(s@) == trim_start(s@.subrange(i as int, n as int)),
        decreases n - i,
    {
        assert(s@.subrange(i as int, n as int).drop_first() =~= s@.subrange(i + 1, n as int));
        i = i + 1;
    }
    let start = i;
    proof {
        if i < n {
            assert(trim_start(s@.subrange(i as int, n as int)) == s@.subrange(i as int, n as int));
        } else {
            assert(s@.subrange(i as int, n as int) =~= Seq::<char>::empty());
        }
    }
    while i < n && !char_is_ws(s.get_char(i))
        invariant
            n == s@.len(),
            start <= i <= n,
            after_word(trim_start(s@)) == after_word(s@.subrange(i as int, n as int)),
        decreases n - i,
    {
        assert(s@.subrange(i as int, n as int).drop_first() =~= s@.subrange(i + 1, n as int));
        i = i + 1;
    }
    let rest = s.substring_char(i, n);
    proof {
        assert(after_word(rest@) == rest@);
    }
    first_word_str(rest)
}

/// The number after a `/proc/meminfo` label, 0 when it does not read.
pub open spec fn meminfo_value(line: Seq<char>) -> u64 {
    match second_word(line) {
        Some(w) => match parse_u64(w) {
            Some(v) => v,
            None => 0,
        },
        None => 0,
    }
}

/// Total and available memory (kB) as read from the lines of
/// `/proc/meminfo`: each from the last line starting with its label
/// (`MemTotal:`, `MemAvailable:`), 0 when there is none.
pub open spec fn meminfo_fold(ls: Seq<Seq<char>>, acc: (u64, u64)) -> (u64, u64)
    decreases ls.len(),
{
    if ls.len() == 0 {
        acc
    } else {
        let l = ls[0];
        let next = if starts_with(l, "MemTotal:"@) {
            (meminfo_value(l), acc.1)
        } else if starts_with(l, "MemAvailable:"@) {
            (acc.0, meminfo_value(l))
        } else {
            acc
        };
        meminfo_fold(ls.drop_first(), next)
    }
}

fn meminfo_value_str(line: &str) -> (r: u64)
    ensures
        r == meminfo_value(line@),
{
    match second_word_str(line) {
        Some(w) => match parse_u64_str(w) {
            Some(v) => v,
            None => 0,
        },
        None => 0,
    }
}

/// Total and available memory (kB) from the text of `/proc/meminfo`.
pub fn meminfo_totals(contents: &str) -> (r: (u64, u64))
    ensures
        r == meminfo_fold(lines(contents@), (0, 0)),
{
    let ls = lines_of(contents);
    let ghost all = lines(contents@);
    let mut total: u64 = 0;
    let mut available: u64 = 0;
    let mut i: usize = 0;
    assert(all.subrange(0, all.len() as int) =~= all);
    while i < ls.len()
        invariant
            ls@.len() == all.len(),
            forall|k: int| 0 <= k < ls@.len() ==> #[trigger] ls@[k]@ == all[k],
            i <= ls@.len(),
            meminfo_fold(all, (0, 0)) == meminfo_fold(all.subrange(i as int, all.len() as int), (total, available)),
        decreases ls.len() - i,
    {
        let ghost rest = all.subrange(i as int, all.len() as int);
        proof {
            assert(rest[0] == ls@[i as int]@);
            assert(rest.drop_first() =~= all.subrange(i + 1, all.len() as int));
        }
        let l = ls[i];
        if str_starts_with(l, "MemTotal:") {
            total = meminfo_value_str(l);
        } else if str_starts_with(l, "MemAvailable:") {
            available = meminfo_value_str(l);
        }
        i = i + 1;
    }
    assert(all.subrange(all.len() as int, all.len() as int) =~= Seq::<Seq<char>>::empty());
    (total, available)
}

} // verus!

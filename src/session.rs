//! Session files that collect a multi-file selection: which of them are old
//! enough to delete.

use vstd::prelude::*;
use crate::text::{has_prefix, starts_with};
use vstd::string::*;

verus! {

/// How long a collecting session waits for more files, in milliseconds.
pub const COLLECTION_TIMEOUT_MS: u64 = 500;

/// The age in milliseconds after which a session file is deleted.
pub const SESSION_MAX_AGE_MS: u64 = COLLECTION_TIMEOUT_MS * 4;

/// What every session file name starts with.
pub open spec fn session_prefix() -> Seq<char> {
    "tauzip_session_"@
}

/// The value of a decimal digit character.
pub open spec fn digit_value(c: char) -> nat {
    (c as u32 - '0' as u32) as nat
}

/// A decimal digit character.
pub open spec fn is_digit(c: char) -> bool {
    '0' <= c && c <= '9'
}

/// Every character is a decimal digit.
pub open spec fn all_digits(s: Seq<char>) -> bool {
    forall|i: int| 0 <= i < s.len() ==> is_digit(#[trigger] s[i])
}

/// The number that a string of decimal digits writes.
pub open spec fn digits_value(s: Seq<char>) -> nat
    decreases s.len(),
{
    if s.len() == 0 {
        0
    } else {
        digits_value(s.drop_last()) * 10 + digit_value(s.last())
    }
}

/// A text without its leading `+`, if any.
pub open spec fn unsigned_part(s: Seq<char>) -> Seq<char> {
    if s.len() > 0 && s[0] == '+' {
        s.drop_first()
    } else {
        s
    }
}

/// The unsigned number that a text spells, as `str::parse::<u64>` reads it:
/// an optional `+`, then one or more decimal digits, of a value that fits.
pub open spec fn parsed_u64(s: Seq<char>) -> Option<u64> {
    let digits = unsigned_part(s);
    if digits.len() > 0 && all_digits(digits) && digits_value(digits) <= u64::MAX {
        Some(digits_value(digits) as u64)
    } else {
        None
    }
}

/// The position of the first `c` in `s`, or the length when there is none.
pub open spec fn first_index_of(s: Seq<char>, c: char) -> int
    decreases s.len(),
{
    if s.len() == 0 {
        0
    } else if s[0] == c {
        0
    } else {
        1 + first_index_of(s.drop_first(), c)
    }
}

/// The timestamp field of a session file name: what follows the prefix, up
/// to the next underscore.
pub open spec fn session_field(name: Seq<char>) -> Seq<char> {
    let rest = name.subrange(session_prefix().len() as int, name.len() as int);
    rest.subrange(0, first_index_of(rest, '_'))
}

/// The time a session file was written, when its name is a session name.
pub open spec fn session_stamp(name: Seq<char>) -> Option<u64> {
    if has_prefix(name, session_prefix()) {
        parsed_u64(session_field(name))
    } else {
        None
    }
}

/// A session file is stale when its time lies more than the maximum age
/// before `now`; one stamped after `now` is kept.
pub open spec fn stale(name: Seq<char>, now: u64) -> bool {
    match session_stamp(name) {
        Some(t) => t <= now && now - t > SESSION_MAX_AGE_MS,
        None => false,
    }
}

/// Longer runs of digits never write smaller numbers.
proof fn lemma_digits_value_grows(s: Seq<char>, i: int)
    requires
        0 <= i <= s.len(),
    ensures
        digits_value(s.subrange(0, i)) <= digits_value(s),
    decreases s.len() - i,
{
    if i < s.len() {
        let t = s.subrange(0, i + 1);
        assert(t.drop_last() =~= s.subrange(0, i));
        lemma_digits_value_grows(s, i + 1);
    } else {
        assert(s.subrange(0, i) =~= s);
    }
}

/// `first_index_of` finds the first `c`, and lies within the text.
proof fn lemma_first_index_of(s: Seq<char>, c: char)
    ensures
        0 <= first_index_of(s, c) <= s.len(),
        first_index_of(s, c) < s.len() ==> s[first_index_of(s, c)] == c,
        forall|j: int| 0 <= j < first_index_of(s, c) ==> s[j] != c,
    decreases s.len(),
{
    if s.len() > 0 && s[0] != c {
        lemma_first_index_of(s.drop_first(), c);
        assert forall|j: int| 0 <= j < first_index_of(s, c) implies s[j] != c by {
            if j > 0 {
                assert(s[j] == s.drop_first()[j - 1]);
            }
        }
    }
}

/// The number that a text spells, as `str::parse::<u64>` reads it.
pub fn parse_u64(s: &str) -> (r: Option<u64>)
    ensures
        r == parsed_u64(s@),
{
    let n = s.unicode_len();
    let start: usize = if n > 0 && s.get_char(0) == '+' {
        1
    } else {
        0
    };
    let ghost digits = unsigned_part(s@);
    assert(digits =~= s@.subrange(start as int, n as int));
    if start >= n {
        return None;
    }
    let mut value: u64 = 0;
    let mut i: usize = start;
    while i < n
        invariant
            n == s@.len(),
            start <= i <= n,
            start < n,
            digits == s@.subrange(start as int, n as int),
            digits == unsigned_part(s@),
            all_digits(digits.subrange(0, i - start)),
            value == digits_value(digits.subrange(0, i - start)),
        decreases n - i,
    {
        let c = s.get_char(i);
        let k = i - start;
        let ghost before = digits.subrange(0, k as int);
        let ghost after = digits.subrange(0, k + 1);
        assert(after.drop_last() =~= before);
        assert(after.last() == c);
        assert(after[k as int] == digits[k as int]);
        if !('0' <= c && c <= '9') {
            assert(!is_digit(digits[k as int]));
            assert(!all_digits(digits));
            return None;
        }
        let d = (c as u32 - '0' as u32) as u64;
        let next = match value.checked_mul(10) {
            Some(m) => m.checked_add(d),
            None => None,
        };
        match next {
            Some(v) => {
                value = v;
            },
            None => {
                proof {
                    assert(digit_value(c) == d);
                    assert(digits_value(after) == value * 10 + d);
                    assert(digits_value(after) > u64::MAX);
                    lemma_digits_value_grows(digits, k + 1);
                }
                return None;
            },
        }
        assert forall|j: int| 0 <= j < after.len() implies is_digit(#[trigger] after[j]) by {
            if j < before.len() {
                assert(after[j] == before[j]);
            }
        }
        i = i + 1;
    }
    assert(digits.subrange(0, n - start) =~= digits);
    Some(value)
}

/// The time a session file was written, when `name` is a session name.
pub fn session_timestamp(name: &str) -> (r: Option<u64>)
    ensures
        r == session_stamp(name@),
{
    if !starts_with(name, "tauzip_session_") {
        return None;
    }
    proof {
        reveal_strlit("tauzip_session_");
    }
    let n = name.unicode_len();
    let p: usize = 15;
    assert(session_prefix().len() == 15);
    let ghost rest = name@.subrange(15, n as int);
    proof {
        lemma_first_index_of(rest, '_');
    }
    let mut j: usize = p;
    while j < n && name.get_char(j) != '_'
        invariant
            n == name@.len(),
            15 <= j <= n,
            rest == name@.subrange(15, n as int),
            forall|q: int| 15 <= q < j ==> name@[q] != '_',
        decreases n - j,
    {
        j = j + 1;
    }
    assert(first_index_of(rest, '_') == j - 15) by {
        if first_index_of(rest, '_') < j - 15 {
            assert(rest[first_index_of(rest, '_')] == name@[15 + first_index_of(rest, '_')]);
        } else if first_index_of(rest, '_') > j - 15 {
            assert(rest[j - 15] == name@[j as int]);
        }
    }
    let field = name.substring_char(p, j);
    assert(field@ =~= session_field(name@));
    parse_u64(field)
}

/// Whether the session file `name` is old enough, at `now_ms`, to delete.
pub fn is_stale_session(name: &str, now_ms: u64) -> (r: bool)
    ensures
        r == stale(name@, now_ms),
{
    match session_timestamp(name) {
        Some(t) => t <= now_ms && now_ms - t > SESSION_MAX_AGE_MS,
        None => false,
    }
}

} // verus!

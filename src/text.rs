//! Character-level helpers over `&str`, each stated over the string's view.
use vstd::prelude::*;

verus! {

/// `s` without the leading `head`, when `s` starts with it.
pub open spec fn strip_head(s: Seq<char>, head: Seq<char>) -> Option<Seq<char>> {
    if head.len() <= s.len() && s.subrange(0, head.len() as int) == head {
        Some(s.subrange(head.len() as int, s.len() as int))
    } else {
        None
    }
}

/// `s` without the trailing `tail`, when `s` ends with it.
pub open spec fn strip_tail(s: Seq<char>, tail: Seq<char>) -> Option<Seq<char>> {
    if tail.len() <= s.len() && s.subrange(s.len() - tail.len(), s.len() as int) == tail {
        Some(s.subrange(0, s.len() - tail.len()))
    } else {
        None
    }
}

pub open spec fn is_ascii_digit(c: char) -> bool {
    '0' <= c && c <= '9'
}

pub fn starts_with(s: &str, head: &str) -> (r: bool)
    ensures
        r == (head@.len() <= s@.len() && s@.subrange(0, head@.len() as int) == head@),
{
    let n = head.unicode_len();
    let m = s.unicode_len();
    if n > m {
        return false;
    }
    let mut i: usize = 0;
    while i < n
        invariant
            n == head@.len(),
            m == s@.len(),
            n <= m,
            i <= n,
            s@.subrange(0, i as int) == head@.subrange(0, i as int),
        decreases n - i,
    {
        if s.get_char(i) != head.get_char(i) {
            assert(s@.subrange(0, n as int)[i as int] != head@[i as int]);
            return false;
        }
        assert(s@.subrange(0, i + 1) =~= s@.subrange(0, i as int).push(s@[i as int]));
        assert(head@.subrange(0, i + 1) =~= head@.subrange(0, i as int).push(head@[i as int]));
        i = i + 1;
    }
    assert(head@.subrange(0, n as int) =~= head@);
    true
}

pub fn ends_with(s: &str, tail: &str) -> (r: bool)
    ensures
        r == (tail@.len() <= s@.len() && s@.subrange(s@.len() - tail@.len(), s@.len() as int)
            == tail@),
{
    let n = tail.unicode_len();
    let m = s.unicode_len();
    if n > m {
        return false;
    }
    let start = m - n;
    let mut i: usize = 0;
    while i < n
        invariant
            n == tail@.len(),
            m == s@.len(),
            start == m - n,
            i <= n,
            s@.subrange(start as int, start + i) == tail@.subrange(0, i as int),
        decreases n - i,
    {
        if s.get_char(start + i) != tail.get_char(i) {
            assert(s@.subrange(start as int, m as int)[i as int] != tail@[i as int]);
            return false;
        }
        assert(s@.subrange(start as int, start + i + 1) =~= s@.subrange(
            start as int,
            start + i,
        ).push(s@[start + i]));
        assert(tail@.subrange(0, i + 1) =~= tail@.subrange(0, i as int).push(tail@[i as int]));
        i = i + 1;
    }
    assert(tail@.subrange(0, n as int) =~= tail@);
    true
}

/// Whether `s` is exactly `t`.
pub fn same_text(s: &str, t: &str) -> (r: bool)
    ensures
        r == (s@ == t@),
{
    if s.unicode_len() != t.unicode_len() {
        return false;
    }
    assert(s@ =~= s@.subrange(0, t@.len() as int));
    starts_with(s, t)
}

/// `s` without its first `head@.len()` characters; callers have checked that it starts with `head`.
pub fn after_head<'a>(s: &'a str, head: &str) -> (r: &'a str)
    requires
        strip_head(s@, head@) is Some,
    ensures
        strip_head(s@, head@) == Some(r@),
{
    s.substring_char(head.unicode_len(), s.unicode_len())
}

/// `s` without its last `tail@.len()` characters; callers have checked that it ends with `tail`.
pub fn before_tail<'a>(s: &'a str, tail: &str) -> (r: &'a str)
    requires
        strip_tail(s@, tail@) is Some,
    ensures
        strip_tail(s@, tail@) == Some(r@),
{
    s.substring_char(0, s.unicode_len() - tail.unicode_len())
}

} // verus!

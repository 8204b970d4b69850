//! What the code-hosting service tells about a pull request.
use vstd::prelude::*;

use crate::text::is_ascii_digit;

verus! {

/// Where a pull request stands.
#[derive(Debug)]
pub enum PullRequestStatus {
    Open,
    Closed,
    Merged {
        /// Absent for pull requests merged before the service began to report
        /// merge commits.
        merge_commit_oid: Option<String>,
    },
}

/// The facts about one pull request that tracking it needs.
#[derive(Debug)]
pub struct PrInfo {
    pub branch: String,
    pub title: String,
    pub status: PullRequestStatus,
}


/// `a` comes before `b` in the order of `str`'s `<`: character by character,
/// a proper prefix first.
pub open spec fn text_before(a: Seq<char>, b: Seq<char>, i: int) -> bool
    decreases a.len() - i,
{
    if i >= a.len() {
        i < b.len()
    } else if i >= b.len() {
        false
    } else if a[i] != b[i] {
        a[i] < b[i]
    } else {
        text_before(a, b, i + 1)
    }
}

/// The first merge time at which the service reports no merge commit rather
/// than a made-up one; a merge commit reported for an earlier merge is not real.
pub open spec fn first_known_null_merge_commit() -> Seq<char> {
    "2013-10-20T15:50:06Z"@
}

/// The merge commit to trust for a pull request merged at `merged_at` for
/// which the service reports `merge_commit`.
pub open spec fn trusted_merge_commit(
    merged_at: Option<Seq<char>>,
    merge_commit: Option<Seq<char>>,
) -> Option<Seq<char>> {
    match merged_at {
        None => None,
        Some(at) => if text_before(at, first_known_null_merge_commit(), 0) {
            None
        } else {
            merge_commit
        },
    }
}

pub open spec fn opt_str(o: Option<&str>) -> Option<Seq<char>> {
    match o {
        Some(s) => Some(s@),
        None => None,
    }
}

/// Whether `a < b` as `str` compares them.
pub fn is_before(a: &str, b: &str) -> (r: bool)
    ensures
        r == text_before(a@, b@, 0),
{
    let n = a.unicode_len();
    let m = b.unicode_len();
    let mut i: usize = 0;
    while i < n && i < m && a.get_char(i) == b.get_char(i)
        invariant
            n == a@.len(),
            m == b@.len(),
            i <= n,
            i <= m,
            text_before(a@, b@, 0) == text_before(a@, b@, i as int),
        decreases n - i,
    {
        i = i + 1;
    }
    if i >= n {
        i < m
    } else if i >= m {
        false
    } else {
        a.get_char(i) < b.get_char(i)
    }
}

/// The merge commit of a pull request, where it can be relied on: none for a
/// merge time before the service began to report real merge commits.
pub fn merge_commit_oid(merged_at: Option<&str>, merge_commit: Option<&str>) -> (r: Option<String>)
    ensures
        match r {
            Some(c) => trusted_merge_commit(opt_str(merged_at), opt_str(merge_commit)) == Some(c@),
            None => trusted_merge_commit(opt_str(merged_at), opt_str(merge_commit)) is None,
        },
{
    match merged_at {
        None => None,
        Some(at) => {
            if is_before(at, "2013-10-20T15:50:06Z") {
                None
            } else {
                match merge_commit {
                    Some(c) => Some(String::from_str(c)),
                    None => None,
                }
            }
        },
    }
}

impl PullRequestStatus {
    /// The status of a pull request from what the service reports of it.
    pub fn from_report(
        merged: bool,
        closed: bool,
        merged_at: Option<&str>,
        merge_commit: Option<&str>,
    ) -> (r: PullRequestStatus)
        ensures
            merged ==> match r {
                PullRequestStatus::Merged { merge_commit_oid: Some(c) } => trusted_merge_commit(
                    opt_str(merged_at),
                    opt_str(merge_commit),
                ) == Some(c@),
                PullRequestStatus::Merged { merge_commit_oid: None } => trusted_merge_commit(
                    opt_str(merged_at),
                    opt_str(merge_commit),
                ) is None,
                _ => false,
            },
            !merged && closed ==> r is Closed,
            !merged && !closed ==> r is Open,
    {
        if merged {
            PullRequestStatus::Merged { merge_commit_oid: merge_commit_oid(merged_at, merge_commit) }
        } else if closed {
            PullRequestStatus::Closed
        } else {
            PullRequestStatus::Open
        }
    }
}


/// The number that the decimal digits `d` spell.
pub open spec fn digits_value(d: Seq<char>) -> int
    decreases d.len(),
{
    if d.len() == 0 {
        0
    } else {
        10 * digits_value(d.drop_last()) + (d.last() as int - '0' as int)
    }
}

pub open spec fn all_digits(d: Seq<char>) -> bool {
    forall|i: int| 0 <= i < d.len() ==> is_ascii_digit(#[trigger] d[i])
}

/// What `str::parse::<i64>` makes of `s`: an optional `+` or `-`, then one or
/// more ASCII digits, the value in range; nothing else.
pub open spec fn decimal_i64(s: Seq<char>) -> Option<i64> {
    let signed = s.len() > 0 && (s[0] == '-' || s[0] == '+');
    let d = if signed {
        s.drop_first()
    } else {
        s
    };
    let v = if s.len() > 0 && s[0] == '-' {
        -digits_value(d)
    } else {
        digits_value(d)
    };
    if d.len() > 0 && all_digits(d) && i64::MIN <= v <= i64::MAX {
        Some(v as i64)
    } else {
        None
    }
}

proof fn lemma_digits_value_grows(d: Seq<char>, k: int)
    requires
        all_digits(d),
        0 <= k <= d.len(),
    ensures
        0 <= digits_value(d.subrange(0, k)) <= digits_value(d),
    decreases d.len(),
{
    if d.len() > 0 {
        assert(all_digits(d.drop_last()));
        if k == d.len() {
            assert(d.subrange(0, k) =~= d);
            lemma_digits_value_grows(d.drop_last(), 0);
        } else {
            assert(d.subrange(0, k) =~= d.drop_last().subrange(0, k));
            lemma_digits_value_grows(d.drop_last(), k);
        }
        assert(is_ascii_digit(d[d.len() - 1]));
    } else {
        assert(d.subrange(0, k) =~= d);
    }
}

/// Reads a pull request number as `str::parse::<i64>` does.
pub fn parse_pr_number(s: &str) -> (r: Option<i64>)
    ensures
        r == decimal_i64(s@),
{
    let n = s.unicode_len();
    let mut start: usize = 0;
    let mut negative = false;
    if n > 0 {
        let c = s.get_char(0);
        if c == '-' || c == '+' {
            start = 1;
            negative = c == '-';
        }
    }
    let ghost d = if start == 1 {
        s@.drop_first()
    } else {
        s@
    };
    assert(start == 1 <==> (s@.len() > 0 && (s@[0] == '-' || s@[0] == '+')));
    assert(negative <==> (s@.len() > 0 && s@[0] == '-'));
    if start >= n {
        return None;
    }
    assert(d =~= s@.subrange(start as int, n as int));
    assert(d.subrange(0, 0) =~= Seq::<char>::empty());
    let limit: u64 = 0x8000_0000_0000_0000;
    let mut acc: u64 = 0;
    let mut i: usize = start;
    while i < n
        invariant
            n == s@.len(),
            start <= i <= n,
            d == s@.subrange(start as int, n as int),
            d == (if s@.len() > 0 && (s@[0] == '-' || s@[0] == '+') {
                s@.drop_first()
            } else {
                s@
            }),
            negative <==> (s@.len() > 0 && s@[0] == '-'),
            limit == 0x8000_0000_0000_0000u64,
            acc == digits_value(d.subrange(0, i - start)),
            acc <= limit,
            forall|j: int| 0 <= j < i - start ==> is_ascii_digit(#[trigger] d[j]),
        decreases n - i,
    {
        let c = s.get_char(i);
        assert(c == d[i - start]);
        if !('0' <= c && c <= '9') {
            assert(!is_ascii_digit(d[i - start]));
            assert(!all_digits(d));
            return None;
        }
        assert((c as u32) >= ('0' as u32) && (c as u32) <= ('9' as u32));
        let digit = (c as u32 - '0' as u32) as u64;
        assert(digit <= 9);
        assert(digit == d[i - start] as int - '0' as int);
        assert(d.subrange(0, i + 1 - start).drop_last() =~= d.subrange(0, i - start));
        if acc > (limit - digit) / 10 {
            proof {
                assert(digits_value(d.subrange(0, i + 1 - start)) > limit);
                if all_digits(d) {
                    lemma_digits_value_grows(d, i + 1 - start);
                }
            }
            return None;
        }
        acc = acc * 10 + digit;
        i = i + 1;
    }
    assert(d.subrange(0, n - start) =~= d);
    if negative {
        if acc == limit {
            Some(i64::MIN)
        } else {
            Some(-(acc as i64))
        }
    } else if acc == limit {
        None
    } else {
        Some(acc as i64)
    }
}

} // verus!

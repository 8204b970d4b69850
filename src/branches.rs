//! The succession rules of the repository's branches, and the resolver that
//! turns one branch name into the names of the branches it flows into.
use vstd::prelude::*;

use crate::text::{
    after_head,
    before_tail,
    ends_with,
    same_text,
    starts_with,
    strip_head,
    strip_tail,
};

verus! {

/// A pattern that a whole branch name is matched against. The variants are
/// declared in ascending order of the source text of the regular expression
/// that each one stands for (see [`BranchPattern::source`]), which is the order
/// in which the resolver tries them.
#[derive(Clone, Copy, Debug, PartialEq, Eq, Structural)]
pub enum BranchPattern {
    /// `master`
    Master,
    /// `nixos-<any text without a line feed>-small`
    NixosSmall,
    /// `release-<version>`
    Release,
    /// `staging-<calendar version merged straight into its release branch>`
    StagingToRelease,
    /// `staging-<calendar version that goes through staging-next first>`
    StagingToNext,
    /// `staging-next-<version>`
    StagingNextVersion,
    /// `staging-next`
    StagingNext,
    /// `staging`
    Staging,
}

/// Whether `c` is in the class `\d` of the `regex` crate: a decimal digit of
/// any script (Unicode category Nd).
pub uninterp spec fn is_decimal_digit(c: char) -> bool;

/// Relies on `regex::Regex::new` and `Regex::is_match`: with Unicode mode on,
/// which is the default, `\d` matches exactly the characters of Unicode's
/// decimal-number category. The pattern is a valid constant, so compiling
/// it does not fail.
#[verifier::external_body]
fn decimal_digit(c: char) -> (r: bool)
    ensures
        r == is_decimal_digit(c),
{
    regex::Regex::new(r"\A\d\z").unwrap().is_match(c.encode_utf8(&mut [0u8; 4]))
}

/// A version as `[\d.]+` reads it: one or more digits and dots.
pub open spec fn is_version(v: Seq<char>) -> bool {
    v.len() > 0 && forall|i: int| 0 <= i < v.len() ==> is_decimal_digit(#[trigger] v[i]) || v[i] == '.'
}

pub open spec fn has_no_line_feed(v: Seq<char>) -> bool {
    forall|i: int| 0 <= i < v.len() ==> #[trigger] v[i] != '\n'
}

/// `dd.dd` (each `d` a `\d`) where the two digits after the dot are free
/// and the year part is given by `year`.
pub open spec fn is_calendar_version(v: Seq<char>, year: spec_fn(char, char) -> bool) -> bool {
    &&& v.len() == 5
    &&& year(v[0], v[1])
    &&& v[2] == '.'
    &&& is_decimal_digit(v[3])
    &&& is_decimal_digit(v[4])
}

/// The year part of `(1.|20)`: years 10 to 20.
pub open spec fn year_to_release(a: char, b: char) -> bool {
    (a == '1' && b != '\n') || (a == '2' && b == '0')
}

/// The year part of `(2[1-9]|[3-90].)`: years 21 on, with the century wrapping to `0x`.
pub open spec fn year_to_staging_next(a: char, b: char) -> bool {
    (a == '2' && '1' <= b && b <= '9') || ((('3' <= a && a <= '9') || a == '0') && b != '\n')
}

pub open spec fn keep_if(v: Option<Seq<char>>, ok: spec_fn(Seq<char>) -> bool) -> Option<Seq<char>> {
    match v {
        Some(x) => if ok(x) {
            Some(x)
        } else {
            None
        },
        None => None,
    }
}

pub open spec fn exactly(b: Seq<char>, name: Seq<char>) -> Option<Seq<char>> {
    if b == name {
        Some(Seq::empty())
    } else {
        None
    }
}

/// The text that the pattern's first group captures when `p` matches the
/// whole of `b` (empty for a pattern without a group), or `None` when it does
/// not match.
pub open spec fn capture(p: BranchPattern, b: Seq<char>) -> Option<Seq<char>> {
    match p {
        BranchPattern::Master => exactly(b, "master"@),
        BranchPattern::NixosSmall => match strip_head(b, "nixos-"@) {
            Some(rest) => keep_if(strip_tail(rest, "-small"@), |x: Seq<char>| has_no_line_feed(x)),
            None => None,
        },
        BranchPattern::Release => keep_if(strip_head(b, "release-"@), |x: Seq<char>| is_version(x)),
        BranchPattern::StagingToRelease => keep_if(
            strip_head(b, "staging-"@),
            |x: Seq<char>| is_calendar_version(x, |a: char, c: char| year_to_release(a, c)),
        ),
        BranchPattern::StagingToNext => keep_if(
            strip_head(b, "staging-"@),
            |x: Seq<char>| is_calendar_version(x, |a: char, c: char| year_to_staging_next(a, c)),
        ),
        BranchPattern::StagingNextVersion => keep_if(
            strip_head(b, "staging-next-"@),
            |x: Seq<char>| is_version(x),
        ),
        BranchPattern::StagingNext => exactly(b, "staging-next"@),
        BranchPattern::Staging => exactly(b, "staging"@),
    }
}

pub open spec fn opt_view(o: Option<String>) -> Option<Seq<char>> {
    match o {
        Some(s) => Some(s@),
        None => None,
    }
}

fn is_version_text(v: &str) -> (r: bool)
    ensures
        r == is_version(v@),
{
    let n = v.unicode_len();
    if n == 0 {
        return false;
    }
    let mut i: usize = 0;
    while i < n
        invariant
            n == v@.len(),
            i <= n,
            forall|j: int| 0 <= j < i ==> is_decimal_digit(#[trigger] v@[j]) || v@[j] == '.',
        decreases n - i,
    {
        let c = v.get_char(i);
        if !(c == '.' || decimal_digit(c)) {
            return false;
        }
        i = i + 1;
    }
    true
}

fn has_no_line_feed_text(v: &str) -> (r: bool)
    ensures
        r == has_no_line_feed(v@),
{
    let n = v.unicode_len();
    let mut i: usize = 0;
    while i < n
        invariant
            n == v@.len(),
            i <= n,
            forall|j: int| 0 <= j < i ==> #[trigger] v@[j] != '\n',
        decreases n - i,
    {
        if v.get_char(i) == '\n' {
            return false;
        }
        i = i + 1;
    }
    true
}

/// Checks the shape `dd.dd` of a calendar version, the year part aside.
fn is_calendar_shape(v: &str) -> (r: bool)
    ensures
        r == (v@.len() == 5 && v@[2] == '.' && is_decimal_digit(v@[3]) && is_decimal_digit(v@[4])),
{
    if v.unicode_len() != 5 {
        return false;
    }
    let dot = v.get_char(2);
    let c = v.get_char(3);
    let d = v.get_char(4);
    dot == '.' && decimal_digit(c) && decimal_digit(d)
}

fn is_version_to_release(v: &str) -> (r: bool)
    ensures
        r == is_calendar_version(v@, |a: char, c: char| year_to_release(a, c)),
{
    if !is_calendar_shape(v) {
        return false;
    }
    let a = v.get_char(0);
    let b = v.get_char(1);
    (a == '1' && b != '\n') || (a == '2' && b == '0')
}

fn is_version_to_staging_next(v: &str) -> (r: bool)
    ensures
        r == is_calendar_version(v@, |a: char, c: char| year_to_staging_next(a, c)),
{
    if !is_calendar_shape(v) {
        return false;
    }
    let a = v.get_char(0);
    let b = v.get_char(1);
    (a == '2' && '1' <= b && b <= '9') || ((('3' <= a && a <= '9') || a == '0') && b != '\n')
}

fn owned(s: &str) -> (r: String)
    ensures
        r@ == s@,
{
    String::from_str(s)
}

impl BranchPattern {
    /// The regular expression, anchored at both ends, that this pattern
    /// stands for, and that it matches exactly as [`capture`] states.
    pub fn source(&self) -> (r: &'static str)
        ensures
            r@ == pattern_source(*self),
    {
        match self {
            BranchPattern::Master => r"\Amaster\z",
            BranchPattern::NixosSmall => r"\Anixos-(.*)-small\z",
            BranchPattern::Release => r"\Arelease-([\d.]+)\z",
            BranchPattern::StagingToRelease => r"\Astaging-((1.|20)\.\d{2})\z",
            BranchPattern::StagingToNext => r"\Astaging-((2[1-9]|[3-90].)\.\d{2})\z",
            BranchPattern::StagingNextVersion => r"\Astaging-next-([\d.]+)\z",
            BranchPattern::StagingNext => r"\Astaging-next\z",
            BranchPattern::Staging => r"\Astaging\z",
        }
    }

    /// Matches the whole of `branch` against this pattern and returns what
    /// its group captured.
    pub fn capture(&self, branch: &str) -> (r: Option<String>)
        ensures
            opt_view(r) == capture(*self, branch@),
    {
        match self {
            BranchPattern::Master => {
                if same_text(branch, "master") {
                    Some(String::new())
                } else {
                    None
                }
            },
            BranchPattern::NixosSmall => {
                if !starts_with(branch, "nixos-") {
                    return None;
                }
                let rest = after_head(branch, "nixos-");
                if !ends_with(rest, "-small") {
                    return None;
                }
                let mid = before_tail(rest, "-small");
                if has_no_line_feed_text(mid) {
                    Some(owned(mid))
                } else {
                    None
                }
            },
            BranchPattern::Release => {
                if !starts_with(branch, "release-") {
                    return None;
                }
                let v = after_head(branch, "release-");
                if is_version_text(v) {
                    Some(owned(v))
                } else {
                    None
                }
            },
            BranchPattern::StagingToRelease => {
                if !starts_with(branch, "staging-") {
                    return None;
                }
                let v = after_head(branch, "staging-");
                if is_version_to_release(v) {
                    Some(owned(v))
                } else {
                    None
                }
            },
            BranchPattern::StagingToNext => {
                if !starts_with(branch, "staging-") {
                    return None;
                }
                let v = after_head(branch, "staging-");
                if is_version_to_staging_next(v) {
                    Some(owned(v))
                } else {
                    None
                }
            },
            BranchPattern::StagingNextVersion => {
                if !starts_with(branch, "staging-next-") {
                    return None;
                }
                let v = after_head(branch, "staging-next-");
                if is_version_text(v) {
                    Some(owned(v))
                } else {
                    None
                }
            },
            BranchPattern::StagingNext => {
                if same_text(branch, "staging-next") {
                    Some(String::new())
                } else {
                    None
                }
            },
            BranchPattern::Staging => {
                if same_text(branch, "staging") {
                    Some(String::new())
                } else {
                    None
                }
            },
        }
    }
}

pub open spec fn pattern_source(p: BranchPattern) -> Seq<char> {
    match p {
        BranchPattern::Master => r"\Amaster\z"@,
        BranchPattern::NixosSmall => r"\Anixos-(.*)-small\z"@,
        BranchPattern::Release => r"\Arelease-([\d.]+)\z"@,
        BranchPattern::StagingToRelease => r"\Astaging-((1.|20)\.\d{2})\z"@,
        BranchPattern::StagingToNext => r"\Astaging-((2[1-9]|[3-90].)\.\d{2})\z"@,
        BranchPattern::StagingNextVersion => r"\Astaging-next-([\d.]+)\z"@,
        BranchPattern::StagingNext => r"\Astaging-next\z"@,
        BranchPattern::Staging => r"\Astaging\z"@,
    }
}


/// One succession rule: a branch matching `pattern` flows into the branch
/// named `head`, then what the pattern captured, then `tail`.
#[derive(Clone, Copy, Debug)]
pub struct Rule {
    pub pattern: BranchPattern,
    pub head: &'static str,
    pub tail: &'static str,
}

impl View for Rule {
    type V = (BranchPattern, Seq<char>, Seq<char>);

    open spec fn view(&self) -> Self::V {
        (self.pattern, self.head@, self.tail@)
    }
}

/// The succession rules, in the order they are declared. Several rules may
/// share one pattern; their successors then come in this order.
pub open spec fn rule_table() -> Seq<(BranchPattern, Seq<char>, Seq<char>)> {
    seq![
        (BranchPattern::Staging, "staging-next"@, ""@),
        (BranchPattern::StagingNext, "master"@, ""@),
        (BranchPattern::StagingNextVersion, "release-"@, ""@),
        (BranchPattern::Master, "nixpkgs-unstable"@, ""@),
        (BranchPattern::Master, "nixos-unstable-small"@, ""@),
        (BranchPattern::NixosSmall, "nixos-"@, ""@),
        (BranchPattern::Release, "nixpkgs-"@, "-darwin"@),
        (BranchPattern::Release, "nixos-"@, "-small"@),
        (BranchPattern::StagingToRelease, "release-"@, ""@),
        (BranchPattern::StagingToNext, "staging-next-"@, ""@),
    ]
}

/// The order in which patterns are tried: ascending order of their source text.
pub open spec fn pattern_order() -> Seq<BranchPattern> {
    seq![
        BranchPattern::Master,
        BranchPattern::NixosSmall,
        BranchPattern::Release,
        BranchPattern::StagingToRelease,
        BranchPattern::StagingToNext,
        BranchPattern::StagingNextVersion,
        BranchPattern::StagingNext,
        BranchPattern::Staging,
    ]
}

/// The successors that the rules of `rules` with pattern `p` build from the
/// captured text `cap`, in the order of `rules`.
pub open spec fn apply_rules(
    p: BranchPattern,
    cap: Seq<char>,
    rules: Seq<(BranchPattern, Seq<char>, Seq<char>)>,
) -> Seq<Seq<char>>
    decreases rules.len(),
{
    if rules.len() == 0 {
        Seq::empty()
    } else {
        let r = rules.last();
        apply_rules(p, cap, rules.drop_last()) + if r.0 == p {
            seq![r.1 + cap + r.2]
        } else {
            Seq::empty()
        }
    }
}

/// The successors of `b` that the patterns of `pats` yield, pattern by pattern.
pub open spec fn successors_by(b: Seq<char>, pats: Seq<BranchPattern>) -> Seq<Seq<char>>
    decreases pats.len(),
{
    if pats.len() == 0 {
        Seq::empty()
    } else {
        let p = pats.last();
        successors_by(b, pats.drop_last()) + match capture(p, b) {
            Some(cap) => apply_rules(p, cap, rule_table()),
            None => Seq::empty(),
        }
    }
}

/// The branches that branch `b` flows into: for each pattern in order that
/// matches `b`, one successor per rule of that pattern, duplicates kept.
pub open spec fn successors(b: Seq<char>) -> Seq<Seq<char>> {
    successors_by(b, pattern_order())
}

pub open spec fn names_view(v: Seq<String>) -> Seq<Seq<char>> {
    v.map_values(|s: String| s@)
}

/// The succession rules in their declared order.
pub fn rules() -> (r: Vec<Rule>)
    ensures
        r@.map_values(|x: Rule| x@) == rule_table(),
{
    let r = vec![
        Rule { pattern: BranchPattern::Staging, head: "staging-next", tail: "" },
        Rule { pattern: BranchPattern::StagingNext, head: "master", tail: "" },
        Rule { pattern: BranchPattern::StagingNextVersion, head: "release-", tail: "" },
        Rule { pattern: BranchPattern::Master, head: "nixpkgs-unstable", tail: "" },
        Rule { pattern: BranchPattern::Master, head: "nixos-unstable-small", tail: "" },
        Rule { pattern: BranchPattern::NixosSmall, head: "nixos-", tail: "" },
        Rule { pattern: BranchPattern::Release, head: "nixpkgs-", tail: "-darwin" },
        Rule { pattern: BranchPattern::Release, head: "nixos-", tail: "-small" },
        Rule { pattern: BranchPattern::StagingToRelease, head: "release-", tail: "" },
        Rule { pattern: BranchPattern::StagingToNext, head: "staging-next-", tail: "" },
    ];
    assert(r@.map_values(|x: Rule| x@) =~= rule_table());
    r
}

/// The patterns in the order the resolver tries them.
pub fn patterns() -> (r: Vec<BranchPattern>)
    ensures
        r@ == pattern_order(),
{
    let r = vec![
        BranchPattern::Master,
        BranchPattern::NixosSmall,
        BranchPattern::Release,
        BranchPattern::StagingToRelease,
        BranchPattern::StagingToNext,
        BranchPattern::StagingNextVersion,
        BranchPattern::StagingNext,
        BranchPattern::Staging,
    ];
    assert(r@ =~= pattern_order());
    r
}

/// `head`, then `cap`, then `tail`.
fn render(head: &str, cap: &String, tail: &str) -> (r: String)
    ensures
        r@ == head@ + cap@ + tail@,
{
    String::from_str(head).concat(cap.as_str()).concat(tail)
}

/// The names of the branches that `branch` flows into, as [`successors`]
/// gives them.
pub fn next_branches(branch: &str) -> (r: Vec<String>)
    ensures
        names_view(r@) == successors(branch@),
{
    let table = rules();
    let pats = patterns();
    let mut out: Vec<String> = Vec::new();
    let mut k: usize = 0;
    while k < pats.len()
        invariant
            pats@ == pattern_order(),
            table@.map_values(|x: Rule| x@) == rule_table(),
            k <= pats@.len(),
            names_view(out@) == successors_by(branch@, pats@.subrange(0, k as int)),
        decreases pats@.len() - k,
    {
        let p = pats[k];
        let ghost before = names_view(out@);
        assert(pats@.subrange(0, k + 1).drop_last() =~= pats@.subrange(0, k as int));
        match p.capture(branch) {
            Some(cap) => {
                let mut j: usize = 0;
                while j < table.len()
                    invariant
                        table@.map_values(|x: Rule| x@) == rule_table(),
                        j <= table@.len(),
                        opt_view(Some(cap)) == capture(p, branch@),
                        names_view(out@) == before + apply_rules(
                            p,
                            cap@,
                            rule_table().subrange(0, j as int),
                        ),
                    decreases table@.len() - j,
                {
                    let ghost mid = names_view(out@);
                    let rule = table[j];
                    assert(rule_table()[j as int] == rule@);
                    assert(rule_table().subrange(0, j + 1).drop_last() =~= rule_table().subrange(
                        0,
                        j as int,
                    ));
                    if rule.pattern == p {
                        let s = render(rule.head, &cap, rule.tail);
                        out.push(s);
                        assert(names_view(out@) =~= mid.push(s@));
                    }
                    j = j + 1;
                }
                assert(rule_table().subrange(0, table@.len() as int) =~= rule_table());
            },
            None => {},
        }
        k = k + 1;
    }
    assert(pats@.subrange(0, pats@.len() as int) =~= pats@);
    out
}


/// How far up the succession chain a branch stands: the `staging` family,
/// then `staging-next`, then `master` and the release branches, then the
/// channels. Every rule leads to a lower level, or, for `nixos-*-small`, to
/// the same level and a shorter name.
pub open spec fn level(b: Seq<char>) -> nat {
    if capture(BranchPattern::Staging, b) is Some || capture(BranchPattern::StagingToRelease, b) is Some
        || capture(BranchPattern::StagingToNext, b) is Some {
        3
    } else if capture(BranchPattern::StagingNext, b) is Some || capture(
        BranchPattern::StagingNextVersion,
        b,
    ) is Some {
        2
    } else if capture(BranchPattern::Master, b) is Some || capture(BranchPattern::Release, b) is Some {
        1
    } else {
        0
    }
}

/// `s` comes strictly after `b` in the succession order, which has no cycle.
pub open spec fn flows_below(s: Seq<char>, b: Seq<char>) -> bool {
    level(s) < level(b) || (level(s) == level(b) && s.len() < b.len())
}

proof fn lemma_level_by_first_char(s: Seq<char>)
    requires
        s.len() > 0,
    ensures
        s[0] != 's' ==> level(s) <= 1,
        s[0] != 's' && s[0] != 'm' && s[0] != 'r' ==> level(s) == 0,
        s.len() > 8 && s[8] == 'n' ==> level(s) <= 2,
{
    reveal_strlit("master");
    reveal_strlit("nixos-");
    reveal_strlit("release-");
    reveal_strlit("staging-");
    reveal_strlit("staging-next-");
    reveal_strlit("staging-next");
    reveal_strlit("staging");
    if let Some(v) = strip_head(s, "staging-"@) {
        if v.len() > 0 {
            assert(s[8] == v[0]);
        }
    }
    if strip_head(s, "release-"@) is Some {
        assert(s[0] == s.subrange(0, 8)[0]);
    }
    if strip_head(s, "staging-next-"@) is Some {
        assert(s[0] == s.subrange(0, 13)[0]);
    }
    if strip_head(s, "staging-"@) is Some {
        assert(s[0] == s.subrange(0, 8)[0]);
    }
}

proof fn lemma_rule_flows_below(r: (BranchPattern, Seq<char>, Seq<char>), b: Seq<char>, cap: Seq<char>)
    requires
        rule_table().contains(r),
        capture(r.0, b) == Some(cap),
    ensures
        flows_below(r.1 + cap + r.2, b),
{
    reveal_strlit("staging-next");
    reveal_strlit("master");
    reveal_strlit("release-");
    reveal_strlit("nixpkgs-unstable");
    reveal_strlit("nixos-unstable-small");
    reveal_strlit("nixos-");
    reveal_strlit("nixpkgs-");
    reveal_strlit("-darwin");
    reveal_strlit("-small");
    reveal_strlit("staging-next-");
    reveal_strlit("");
    let s = r.1 + cap + r.2;
    let i = choose|i: int| 0 <= i < rule_table().len() && rule_table()[i] == r;
    assert(r.1.len() > 0);
    assert(s[0] == r.1[0]);
    lemma_level_by_first_char(s);
    if r.1 == "staging-next"@ || r.1 == "staging-next-"@ {
        assert(s[8] == r.1[8]);
    }
    if r.0 == BranchPattern::NixosSmall {
        let rest = strip_head(b, "nixos-"@)->0;
        assert(cap.len() + 12 == b.len());
    }
}

proof fn lemma_apply_rules_from_table(
    p: BranchPattern,
    cap: Seq<char>,
    rules: Seq<(BranchPattern, Seq<char>, Seq<char>)>,
    k: int,
)
    requires
        0 <= k < apply_rules(p, cap, rules).len(),
    ensures
        exists|j: int|
            0 <= j < rules.len() && rules[j].0 == p && apply_rules(p, cap, rules)[k] == rules[j].1 + cap
                + rules[j].2,
    decreases rules.len(),
{
    let front = apply_rules(p, cap, rules.drop_last());
    if k < front.len() {
        lemma_apply_rules_from_table(p, cap, rules.drop_last(), k);
        let j = choose|j: int|
            0 <= j < rules.drop_last().len() && rules.drop_last()[j].0 == p && front[k]
                == rules.drop_last()[j].1 + cap + rules.drop_last()[j].2;
        assert(rules[j] == rules.drop_last()[j]);
    } else {
        assert(rules[rules.len() - 1] == rules.last());
    }
}

proof fn lemma_successors_by_flow_below(b: Seq<char>, pats: Seq<BranchPattern>, k: int)
    requires
        0 <= k < successors_by(b, pats).len(),
    ensures
        flows_below(successors_by(b, pats)[k], b),
    decreases pats.len(),
{
    let front = successors_by(b, pats.drop_last());
    if k < front.len() {
        lemma_successors_by_flow_below(b, pats.drop_last(), k);
    } else {
        let p = pats.last();
        let cap = capture(p, b)->0;
        lemma_apply_rules_from_table(p, cap, rule_table(), k - front.len());
        let j = choose|j: int|
            0 <= j < rule_table().len() && rule_table()[j].0 == p && apply_rules(p, cap, rule_table())[k
                - front.len()] == rule_table()[j].1 + cap + rule_table()[j].2;
        lemma_rule_flows_below(rule_table()[j], b, cap);
    }
}

/// Every successor of a branch comes after it in the succession order: the
/// rule table has no cycle, so expanding a branch comes to an end.
pub proof fn lemma_successors_flow_below(b: Seq<char>)
    ensures
        forall|k: int|
            0 <= k < successors(b).len() ==> flows_below(#[trigger] successors(b)[k], b),
{
    assert forall|k: int| 0 <= k < successors(b).len() implies flows_below(
        #[trigger] successors(b)[k],
        b,
    ) by {
        lemma_successors_by_flow_below(b, pattern_order(), k);
    }
}

} // verus!

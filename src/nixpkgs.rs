//! The local mirror of the repository, and what its listing of the branches
//! that hold a commit says.
use vstd::prelude::*;

use crate::text::{after_head, same_text, starts_with, strip_head};
use crate::tree::{add_name, listed};

verus! {

/// Where the mirror is, and the name of the remote whose branches count.
pub struct Nixpkgs<'a> {
    pub path: &'a str,
    pub remote_name: &'a str,
}

/// The lines of `s`, split at each line feed, empty lines left out.
pub open spec fn nonempty_lines(s: Seq<char>) -> Seq<Seq<char>>
    decreases s.len(),
    via lemma_nonempty_lines_decreases
{
    if s.len() == 0 {
        Seq::empty()
    } else {
        let k = line_end(s, 0);
        let line = s.subrange(0, k);
        let rest = if k < s.len() {
            s.subrange(k + 1, s.len() as int)
        } else {
            Seq::empty()
        };
        if line.len() == 0 {
            nonempty_lines(rest)
        } else {
            seq![line] + nonempty_lines(rest)
        }
    }
}

/// The index of the first line feed of `s` at or after `i`, or `s.len()`.
pub open spec fn line_end(s: Seq<char>, i: int) -> int
    decreases s.len() - i,
{
    if i >= s.len() {
        s.len() as int
    } else if s[i] == '\n' {
        i
    } else {
        line_end(s, i + 1)
    }
}

proof fn lemma_line_end_bounds(s: Seq<char>, i: int)
    requires
        0 <= i <= s.len(),
    ensures
        i <= line_end(s, i) <= s.len(),
        line_end(s, i) < s.len() ==> s[line_end(s, i)] == '\n',
    decreases s.len() - i,
{
    if i < s.len() && s[i] != '\n' {
        lemma_line_end_bounds(s, i + 1);
    }
}

#[via_fn]
proof fn lemma_nonempty_lines_decreases(s: Seq<char>) {
    if s.len() > 0 {
        lemma_line_end_bounds(s, 0);
    }
}

/// The branch that the full ref name `r` stands for, when it is a ref of the
/// remote `remote`: what follows `refs/remotes/<remote>/` (nothing for the
/// bare `refs/remotes/<remote>`). This strips a prefix of text where a
/// path would strip whole components; the two agree on every valid git ref
/// name, since such a name has no empty, `.` or `..` component.
pub open spec fn remote_branch(r: Seq<char>, remote: Seq<char>) -> Option<Seq<char>> {
    let prefix = "refs/remotes/"@ + remote;
    if r == prefix {
        Some(Seq::empty())
    } else {
        strip_head(r, prefix + "/"@)
    }
}

/// The branch names that the ref lines `lines` yield for `remote`.
pub open spec fn branches_in(lines: Seq<Seq<char>>, remote: Seq<char>) -> Set<Seq<char>> {
    Set::new(
        |n: Seq<char>|
            exists|i: int| 0 <= i < lines.len() && remote_branch(#[trigger] lines[i], remote) == Some(n),
    )
}

/// The branch names that the ref listing `s` yields for `remote`.
pub open spec fn listed_branches(s: Seq<char>, remote: Seq<char>) -> Set<Seq<char>> {
    branches_in(nonempty_lines(s), remote)
}

proof fn lemma_branches_in_front(l: Seq<char>, lines: Seq<Seq<char>>, remote: Seq<char>)
    ensures
        branches_in(seq![l] + lines, remote) == match remote_branch(l, remote) {
            Some(n) => branches_in(lines, remote).insert(n),
            None => branches_in(lines, remote),
        },
{
    let all = seq![l] + lines;
    assert forall|n: Seq<char>| #[trigger] branches_in(lines, remote).contains(n) implies branches_in(
        all,
        remote,
    ).contains(n) by {
        let i = choose|i: int|
            0 <= i < lines.len() && remote_branch(#[trigger] lines[i], remote) == Some(n);
        assert(all[i + 1] == lines[i]);
    }
    assert forall|n: Seq<char>| #[trigger] branches_in(all, remote).contains(n) implies (
    branches_in(lines, remote).contains(n) || remote_branch(l, remote) == Some(n)) by {
        let i = choose|i: int| 0 <= i < all.len() && remote_branch(#[trigger] all[i], remote) == Some(n);
        if i > 0 {
            assert(all[i] == lines[i - 1]);
        }
    }
    assert(all[0] == l);
    assert(branches_in(all, remote) =~= match remote_branch(l, remote) {
        Some(n) => branches_in(lines, remote).insert(n),
        None => branches_in(lines, remote),
    });
}

/// The index of the first line feed of `s`, or its length.
fn first_line_end(s: &str) -> (r: usize)
    ensures
        r == line_end(s@, 0),
{
    let n = s.unicode_len();
    let mut j: usize = 0;
    while j < n && s.get_char(j) != '\n'
        invariant
            n == s@.len(),
            j <= n,
            line_end(s@, 0) == line_end(s@, j as int),
        decreases n - j,
    {
        j = j + 1;
    }
    j
}

/// How one run of the listing of the branches that hold a commit ended.
pub enum ListingOutcome {
    /// It succeeded, with this output.
    Output(String),
    /// It exited with a failure code, as when the mirror lacks the commit.
    ExitedWithCode,
    /// It could not be run, or a signal ended it.
    Broken,
}

/// Where the lookup of the branches that hold a commit stands.
#[derive(Clone, Copy, Debug, PartialEq, Eq, Structural)]
pub enum LookupState {
    FirstListing,
    Fetching,
    SecondListing,
    Finished,
}

/// What the caller saw since the last step.
pub enum LookupEvent {
    Listed(ListingOutcome),
    /// The refresh of the mirror ended, whether or not it succeeded: it may
    /// have fetched what is needed before it failed.
    Fetched,
}

/// What the caller does next.
pub enum LookupAction {
    RunListing,
    RunFetch,
    Found(Vec<String>),
    Failed,
}

impl<'a> Nixpkgs<'a> {
    pub fn new(path: &'a str, remote_name: &'a str) -> (r: Self)
        ensures
            r.path@ == path@,
            r.remote_name@ == remote_name@,
    {
        Self { path, remote_name }
    }

    /// The names of the remote's branches in `output`, the listing of full ref
    /// names, one per line, that the mirror gives for a commit.
    pub fn branch_names(&self, output: &str) -> (r: Vec<String>)
        ensures
            listed(r@) == listed_branches(output@, self.remote_name@),
    {
        let ghost remote = self.remote_name@;
        let prefix = String::from_str("refs/remotes/").concat(self.remote_name);
        let prefix_slash = String::from_str("refs/remotes/").concat(self.remote_name).concat("/");
        let mut out: Vec<String> = Vec::new();
        let mut rest: &str = output;
        assert(listed(out@) =~= Set::<Seq<char>>::empty());
        assert(listed_branches(output@, remote) =~= Set::<Seq<char>>::empty() + listed_branches(
            rest@,
            remote,
        ));
        while rest.unicode_len() > 0
            invariant
                remote == self.remote_name@,
                prefix@ == "refs/remotes/"@ + remote,
                prefix_slash@ == "refs/remotes/"@ + remote + "/"@,
                listed_branches(output@, remote) == listed(out@) + listed_branches(rest@, remote),
            decreases rest@.len(),
        {
            let ghost before = rest@;
            let ghost out_before = listed(out@);
            let k = first_line_end(rest);
            proof {
                lemma_line_end_bounds(before, 0);
            }
            let len = rest.unicode_len();
            let line = rest.substring_char(0, k);
            let next = if k < len {
                rest.substring_char(k + 1, len)
            } else {
                rest.substring_char(len, len)
            };
            assert(next@ =~= (if k < len {
                before.subrange(k + 1, before.len() as int)
            } else {
                Seq::empty()
            }));
            if line.unicode_len() > 0 {
                proof {
                    lemma_branches_in_front(line@, nonempty_lines(next@), remote);
                }
                if same_text(line, prefix.as_str()) {
                    add_name(&mut out, &String::new());
                } else if starts_with(line, prefix_slash.as_str()) {
                    let name = String::from_str(after_head(line, prefix_slash.as_str()));
                    add_name(&mut out, &name);
                }
            }
            rest = next;
            assert(listed_branches(output@, remote) =~= listed(out@) + listed_branches(rest@, remote));
        }
        assert(rest@ =~= Seq::<char>::empty());
        assert(listed_branches(rest@, remote) =~= Set::<Seq<char>>::empty());
        assert(listed_branches(output@, remote) =~= listed(out@));
        out
    }
}


impl<'a> Nixpkgs<'a> {
    /// One step of the lookup of the branches that hold a commit. It starts in
    /// `FirstListing` with a listing run. A first listing that fails in any
    /// way gets one refresh of the mirror and a second listing; a second
    /// failure ends the lookup as failed.
    pub fn lookup_step(&self, state: LookupState, event: LookupEvent) -> (r: (
        LookupState,
        LookupAction,
    ))
        ensures
            match (state, event) {
                (LookupState::FirstListing, LookupEvent::Listed(ListingOutcome::Output(out)))
                | (LookupState::SecondListing, LookupEvent::Listed(ListingOutcome::Output(out))) => {
                    &&& r.0 == LookupState::Finished
                    &&& r.1 matches LookupAction::Found(names)
                    &&& listed(names@) == listed_branches(out@, self.remote_name@)
                },
                (LookupState::FirstListing, LookupEvent::Listed(ListingOutcome::ExitedWithCode))
                | (LookupState::FirstListing, LookupEvent::Listed(ListingOutcome::Broken)) => {
                    r.0 == LookupState::Fetching && r.1 is RunFetch
                },
                (LookupState::Fetching, LookupEvent::Fetched) => {
                    r.0 == LookupState::SecondListing && r.1 is RunListing
                },
                _ => r.0 == LookupState::Finished && r.1 is Failed,
            },
    {
        match (state, event) {
            (LookupState::FirstListing, LookupEvent::Listed(ListingOutcome::Output(out)))
            | (LookupState::SecondListing, LookupEvent::Listed(ListingOutcome::Output(out))) => {
                (LookupState::Finished, LookupAction::Found(self.branch_names(out.as_str())))
            },
            (LookupState::FirstListing, LookupEvent::Listed(ListingOutcome::ExitedWithCode))
            | (LookupState::FirstListing, LookupEvent::Listed(ListingOutcome::Broken)) => {
                (LookupState::Fetching, LookupAction::RunFetch)
            },
            (LookupState::Fetching, LookupEvent::Fetched) => {
                (LookupState::SecondListing, LookupAction::RunListing)
            },
            _ => (LookupState::Finished, LookupAction::Failed),
        }
    }
}

} // verus!

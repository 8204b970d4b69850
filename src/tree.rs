//! The tree of branches that a change can reach, and its annotation with
//! whether the change is known to be in each of them.
use vstd::prelude::*;

use crate::github::PullRequestStatus;
use crate::branches::{
    flows_below,
    lemma_successors_flow_below,
    level,
    names_view,
    next_branches,
    successors,
};

verus! {

/// Whether a change is in a branch.
#[derive(Clone, Copy, Debug, PartialEq, Eq, Structural)]
pub enum Acceptance {
    /// Known to be there.
    Accepted,
    /// Known not to be there.
    Rejected,
    /// Not known either way.
    Unknown,
}

/// One branch, whether the change is in it (`None` until the tree is
/// annotated), and the branches it flows into.
#[derive(Debug)]
pub struct Tree {
    pub branch_name: String,
    pub accepted: Option<Acceptance>,
    pub children: Vec<Tree>,
}

/// The acceptance of a branch: accepted when confirmed; otherwise rejected
/// or unknown as `absence_means_rejected` says.
pub open spec fn acceptance_for(confirmed: bool, absence_means_rejected: bool) -> Acceptance {
    if confirmed {
        Acceptance::Accepted
    } else if absence_means_rejected {
        Acceptance::Rejected
    } else {
        Acceptance::Unknown
    }
}

/// The set of names that a list of branch names holds.
pub open spec fn listed(v: Seq<String>) -> Set<Seq<char>> {
    Set::new(|n: Seq<char>| exists|j: int| 0 <= j < v.len() && v[j]@ == n)
}

/// `t` is the unannotated expansion of its root branch: the children of each
/// node are the trees of the node's successors, in order.
pub open spec fn is_expansion(t: Tree) -> bool
    decreases t,
{
    let nexts = successors(t.branch_name@);
    &&& t.accepted is None
    &&& t.children@.len() == nexts.len()
    &&& forall|i: int|
        0 <= i < nexts.len() ==> (#[trigger] t.children@[i]).branch_name@ == nexts[i]
            && is_expansion(t.children@[i])
}

/// `n` names a node of `t`.
pub open spec fn holds_name(t: Tree, n: Seq<char>) -> bool
    decreases t,
{
    n == t.branch_name@ || exists|i: int|
        0 <= i < t.children@.len() && holds_name(#[trigger] t.children@[i], n)
}

/// The names of all nodes of `t`.
pub open spec fn tree_names(t: Tree) -> Set<Seq<char>> {
    Set::new(|n: Seq<char>| holds_name(t, n))
}

/// `new` is `old` with each node's acceptance set from whether its name is in
/// `confirmed`, names and shape unchanged.
pub open spec fn is_annotation(
    new: Tree,
    old: Tree,
    confirmed: Set<Seq<char>>,
    absence_means_rejected: bool,
) -> bool
    decreases old,
{
    &&& new.branch_name@ == old.branch_name@
    &&& new.accepted == Some(
        acceptance_for(confirmed.contains(old.branch_name@), absence_means_rejected),
    )
    &&& new.children@.len() == old.children@.len()
    &&& forall|i: int|
        0 <= i < old.children@.len() ==> is_annotation(
            #[trigger] new.children@[i],
            old.children@[i],
            confirmed,
            absence_means_rejected,
        )
}

/// `t` is the expansion of its root branch, each node annotated from
/// `confirmed` and `absence_means_rejected`.
pub open spec fn is_annotated_expansion(
    t: Tree,
    confirmed: Set<Seq<char>>,
    absence_means_rejected: bool,
) -> bool
    decreases t,
{
    let nexts = successors(t.branch_name@);
    &&& t.accepted == Some(
        acceptance_for(confirmed.contains(t.branch_name@), absence_means_rejected),
    )
    &&& t.children@.len() == nexts.len()
    &&& forall|i: int|
        0 <= i < nexts.len() ==> (#[trigger] t.children@[i]).branch_name@ == nexts[i]
            && is_annotated_expansion(t.children@[i], confirmed, absence_means_rejected)
}

/// Every node of `t` has acceptance `a`.
pub open spec fn all_marked(t: Tree, a: Acceptance) -> bool
    decreases t,
{
    &&& t.accepted == Some(a)
    &&& forall|i: int| 0 <= i < t.children@.len() ==> all_marked(#[trigger] t.children@[i], a)
}

/// `a` and `b` have the same names, acceptances and shape.
pub open spec fn same_tree(a: Tree, b: Tree) -> bool
    decreases a,
{
    &&& a.branch_name@ == b.branch_name@
    &&& a.accepted == b.accepted
    &&& a.children@.len() == b.children@.len()
    &&& forall|i: int|
        0 <= i < a.children@.len() ==> same_tree(#[trigger] a.children@[i], b.children@[i])
}

fn acceptance_of(confirmed: bool, absence_means_rejected: bool) -> (r: Acceptance)
    ensures
        r == acceptance_for(confirmed, absence_means_rejected),
{
    if confirmed {
        Acceptance::Accepted
    } else if absence_means_rejected {
        Acceptance::Rejected
    } else {
        Acceptance::Unknown
    }
}

/// Whether `names` holds `name`.
pub fn lists(names: &Vec<String>, name: &String) -> (r: bool)
    ensures
        r == listed(names@).contains(name@),
{
    let mut j: usize = 0;
    while j < names.len()
        invariant
            j <= names@.len(),
            forall|k: int| 0 <= k < j ==> names@[k]@ != name@,
        decreases names@.len() - j,
    {
        if names[j] == *name {
            return true;
        }
        j = j + 1;
    }
    false
}

/// Adds `name` to `names` unless it is there already.
pub fn add_name(names: &mut Vec<String>, name: &String)
    ensures
        listed(final(names)@) == listed(old(names)@).insert(name@),
{
    if !lists(names, name) {
        let copy = name.clone();
        names.push(copy);
        proof {
            lemma_listed_push(old(names)@, copy);
        }
    } else {
        assert(listed(old(names)@).insert(name@) =~= listed(old(names)@));
    }
}

/// The names of all nodes of the trees in `cs`.
pub open spec fn names_among(cs: Seq<Tree>) -> Set<Seq<char>> {
    Set::new(|n: Seq<char>| exists|k: int| 0 <= k < cs.len() && holds_name(#[trigger] cs[k], n))
}

proof fn lemma_names_among_push(cs: Seq<Tree>, c: Tree)
    ensures
        names_among(cs.push(c)) == names_among(cs) + tree_names(c),
{
    let ds = cs.push(c);
    assert forall|n: Seq<char>| names_among(ds).contains(n) implies (names_among(cs)
        + tree_names(c)).contains(n) by {
        let k = choose|k: int| 0 <= k < ds.len() && holds_name(#[trigger] ds[k], n);
        if k < cs.len() {
            assert(ds[k] == cs[k]);
        }
    }
    assert forall|n: Seq<char>| (names_among(cs) + tree_names(c)).contains(n) implies names_among(
        ds,
    ).contains(n) by {
        if names_among(cs).contains(n) {
            let k = choose|k: int| 0 <= k < cs.len() && holds_name(#[trigger] cs[k], n);
            assert(ds[k] == cs[k]);
        } else {
            assert(ds[cs.len() as int] == c);
        }
    }
    assert(names_among(ds) =~= names_among(cs) + tree_names(c));
}

proof fn lemma_listed_push(v: Seq<String>, x: String)
    ensures
        listed(v.push(x)) == listed(v).insert(x@),
{
    let w = v.push(x);
    assert forall|n: Seq<char>| listed(v).contains(n) implies listed(w).contains(n) by {
        let j = choose|j: int| 0 <= j < v.len() && #[trigger] v[j]@ == n;
        assert(w[j] == v[j]);
    }
    assert(w[v.len() as int] == x);
    assert(listed(w) =~= listed(v).insert(x@));
}

proof fn lemma_flows_below_trans(a: Seq<char>, b: Seq<char>, c: Seq<char>)
    requires
        flows_below(a, b),
        flows_below(b, c),
    ensures
        flows_below(a, c),
{
}

impl Tree {
    /// Expands `branch` into the tree of every branch it flows into, and adds
    /// the name of every node to `found_branches`.
    pub fn generate(branch: String, found_branches: &mut Vec<String>) -> (r: Tree)
        ensures
            r.branch_name@ == branch@,
            is_expansion(r),
            listed(final(found_branches)@) == listed(old(found_branches)@) + tree_names(r),
        decreases level(branch@), branch@.len(),
    {
        let ghost b = branch@;
        add_name(found_branches, &branch);
        let nexts = next_branches(branch.as_str());
        proof {
            lemma_successors_flow_below(b);
        }
        let mut children: Vec<Tree> = Vec::new();
        let mut i: usize = 0;
        while i < nexts.len()
            invariant
                b == branch@,
                names_view(nexts@) == successors(b),
                forall|k: int|
                    0 <= k < successors(b).len() ==> flows_below(#[trigger] successors(b)[k], b),
                i <= nexts@.len(),
                children@.len() == i,
                forall|k: int|
                    0 <= k < i ==> (#[trigger] children@[k]).branch_name@ == successors(b)[k]
                        && is_expansion(children@[k]),
                listed(found_branches@) == listed(old(found_branches)@).insert(b) + names_among(
                    children@,
                ),
            decreases nexts@.len() - i,
        {
            let ghost prev = children@;
            let name = nexts[i].clone();
            assert(name@ == successors(b)[i as int]);
            let child = Tree::generate(name, found_branches);
            children.push(child);
            proof {
                assert(children@ == prev.push(child));
                lemma_names_among_push(prev, child);
            }
            i = i + 1;
        }
        let r = Tree { branch_name: branch, accepted: None, children };
        proof {
            assert(tree_names(r) =~= names_among(r.children@).insert(b));
            assert(listed(found_branches@) =~= listed(old(found_branches)@) + tree_names(r));
        }
        r
    }

    /// Sets the acceptance of every node: accepted when its name is in
    /// `branches`, otherwise rejected when `missing_means_absent`, unknown when
    /// not.
    pub fn fill_accepted(&mut self, branches: &Vec<String>, missing_means_absent: bool)
        ensures
            is_annotation(*final(self), *old(self), listed(branches@), missing_means_absent),
    {
        let mut t = Tree { branch_name: String::new(), accepted: None, children: Vec::new() };
        std::mem::swap(&mut t, self);
        *self = annotated(t, branches, missing_means_absent);
    }
}

/// `t` with every node's acceptance set as [`Tree::fill_accepted`] says.
fn annotated(t: Tree, branches: &Vec<String>, missing_means_absent: bool) -> (r: Tree)
    ensures
        is_annotation(r, t, listed(branches@), missing_means_absent),
    decreases t,
{
    let ghost kids = t.children@;
    let found = lists(branches, &t.branch_name);
    let accepted = Some(acceptance_of(found, missing_means_absent));
    let Tree { branch_name, accepted: _, children } = t;
    let mut pending = children;
    let mut done: Vec<Tree> = Vec::new();
    let n = pending.len();
    let mut i: usize = 0;
    while i < n
        invariant
            n == kids.len(),
            kids == t.children@,
            i <= n,
            pending@ == kids.subrange(i as int, n as int),
            done@.len() == i,
            forall|k: int|
                0 <= k < i ==> is_annotation(
                    #[trigger] done@[k],
                    kids[k],
                    listed(branches@),
                    missing_means_absent,
                ),
        decreases n - i,
    {
        let child = pending.remove(0);
        assert(child == kids[i as int]);
        assert(decreases_to!(t => t.children));
        assert(decreases_to!(t.children => t.children@[i as int]));
        let c = annotated(child, branches, missing_means_absent);
        done.push(c);
        assert(pending@ =~= kids.subrange(i + 1, n as int));
        i = i + 1;
    }
    Tree { branch_name, accepted, children: done }
}


proof fn lemma_below_root_marked(t: Tree, a: Tree, root: Seq<char>, flag: bool)
    requires
        is_expansion(t),
        flows_below(t.branch_name@, root),
        is_annotation(a, t, set![root], flag),
    ensures
        all_marked(a, acceptance_for(false, flag)),
    decreases t,
{
    lemma_successors_flow_below(t.branch_name@);
    assert forall|i: int| 0 <= i < a.children@.len() implies all_marked(
        #[trigger] a.children@[i],
        acceptance_for(false, flag),
    ) by {
        let c = t.children@[i];
        assert(c.branch_name@ == successors(t.branch_name@)[i]);
        lemma_flows_below_trans(c.branch_name@, t.branch_name@, root);
        lemma_below_root_marked(c, a.children@[i], root, flag);
    }
}

/// With only the root confirmed and absence taken as rejection, the root of
/// an expanded tree is accepted and every other node rejected.
pub proof fn lemma_annotation_fully_known(t: Tree, a: Tree)
    requires
        is_expansion(t),
        is_annotation(a, t, set![t.branch_name@], true),
    ensures
        a.accepted == Some(Acceptance::Accepted),
        forall|i: int|
            0 <= i < a.children@.len() ==> all_marked(#[trigger] a.children@[i], Acceptance::Rejected),
{
    lemma_root_only_confirmed(t, a, true);
}

/// With only the root confirmed and absence taken as lack of data, the root
/// of an expanded tree is accepted and every other node unknown, never
/// rejected.
pub proof fn lemma_annotation_partially_known(t: Tree, a: Tree)
    requires
        is_expansion(t),
        is_annotation(a, t, set![t.branch_name@], false),
    ensures
        a.accepted == Some(Acceptance::Accepted),
        forall|i: int|
            0 <= i < a.children@.len() ==> all_marked(#[trigger] a.children@[i], Acceptance::Unknown),
{
    lemma_root_only_confirmed(t, a, false);
}

proof fn lemma_root_only_confirmed(t: Tree, a: Tree, flag: bool)
    requires
        is_expansion(t),
        is_annotation(a, t, set![t.branch_name@], flag),
    ensures
        a.accepted == Some(Acceptance::Accepted),
        forall|i: int|
            0 <= i < a.children@.len() ==> all_marked(
                #[trigger] a.children@[i],
                acceptance_for(false, flag),
            ),
{
    lemma_successors_flow_below(t.branch_name@);
    assert forall|i: int| 0 <= i < a.children@.len() implies all_marked(
        #[trigger] a.children@[i],
        acceptance_for(false, flag),
    ) by {
        let c = t.children@[i];
        assert(c.branch_name@ == successors(t.branch_name@)[i]);
        lemma_below_root_marked(c, a.children@[i], t.branch_name@, flag);
    }
}

/// Annotating a tree a second time with the same inputs changes nothing.
pub proof fn lemma_annotation_idempotent(
    t: Tree,
    once: Tree,
    twice: Tree,
    confirmed: Set<Seq<char>>,
    absence_means_rejected: bool,
)
    requires
        is_annotation(once, t, confirmed, absence_means_rejected),
        is_annotation(twice, once, confirmed, absence_means_rejected),
    ensures
        same_tree(twice, once),
    decreases t,
{
    assert forall|i: int| 0 <= i < twice.children@.len() implies same_tree(
        #[trigger] twice.children@[i],
        once.children@[i],
    ) by {
        lemma_annotation_idempotent(
            t.children@[i],
            once.children@[i],
            twice.children@[i],
            confirmed,
            absence_means_rejected,
        );
    }
}

/// Annotating an expanded tree gives the annotated expansion of its root.
pub proof fn lemma_annotation_of_expansion(
    t: Tree,
    a: Tree,
    confirmed: Set<Seq<char>>,
    absence_means_rejected: bool,
)
    requires
        is_expansion(t),
        is_annotation(a, t, confirmed, absence_means_rejected),
    ensures
        is_annotated_expansion(a, confirmed, absence_means_rejected),
    decreases t,
{
    assert forall|i: int| 0 <= i < a.children@.len() implies #[trigger] a.children@[i].branch_name@
        == successors(a.branch_name@)[i] && is_annotated_expansion(
        a.children@[i],
        confirmed,
        absence_means_rejected,
    ) by {
        lemma_annotation_of_expansion(
            t.children@[i],
            a.children@[i],
            confirmed,
            absence_means_rejected,
        );
    }
}


/// The branches confirmed to hold a change with merge status `status` whose
/// tree has the node names `names`, given the outcome `containing` of the
/// lookup of the branches that hold its merge commit (`None` when it failed).
pub open spec fn confirmed_for(
    base: Seq<char>,
    status: PullRequestStatus,
    containing: Option<Seq<String>>,
    names: Set<Seq<char>>,
) -> Set<Seq<char>> {
    match status {
        PullRequestStatus::Merged { merge_commit_oid: Some(_) } => match containing {
            Some(v) => names.intersect(listed(v)).insert(base),
            None => set![base],
        },
        PullRequestStatus::Merged { merge_commit_oid: None } => set![base],
        _ => Set::empty(),
    }
}

/// Whether a branch not confirmed counts as rejected: not when the merge
/// commit is unknown or the lookup failed.
pub open spec fn absence_rejects(status: PullRequestStatus, containing: Option<Seq<String>>) -> bool {
    match status {
        PullRequestStatus::Merged { merge_commit_oid: Some(_) } => containing is Some,
        PullRequestStatus::Merged { merge_commit_oid: None } => false,
        _ => true,
    }
}

pub open spec fn opt_names(o: Option<&Vec<String>>) -> Option<Seq<String>> {
    match o {
        Some(v) => Some(v@),
        None => None,
    }
}

/// The names that both lists hold.
pub fn intersection(a: &Vec<String>, b: &Vec<String>) -> (r: Vec<String>)
    ensures
        listed(r@) == listed(a@).intersect(listed(b@)),
{
    let mut r: Vec<String> = Vec::new();
    let mut i: usize = 0;
    while i < a.len()
        invariant
            i <= a@.len(),
            listed(r@) == listed(a@.subrange(0, i as int)).intersect(listed(b@)),
        decreases a@.len() - i,
    {
        assert(a@.subrange(0, i + 1) =~= a@.subrange(0, i as int).push(a@[i as int]));
        proof {
            lemma_listed_push(a@.subrange(0, i as int), a@[i as int]);
        }
        if lists(b, &a[i]) {
            add_name(&mut r, &a[i]);
        }
        proof {
            let lo = listed(a@.subrange(0, i as int));
            assert(lo.insert(a@[i as int]@).intersect(listed(b@)) =~= if listed(b@).contains(a@[i as int]@) {
                lo.intersect(listed(b@)).insert(a@[i as int]@)
            } else {
                lo.intersect(listed(b@))
            });
        }
        i = i + 1;
    }
    assert(a@.subrange(0, a@.len() as int) =~= a@);
    r
}

proof fn lemma_annotation_keeps_names(
    a: Tree,
    t: Tree,
    confirmed: Set<Seq<char>>,
    absence_means_rejected: bool,
)
    requires
        is_annotation(a, t, confirmed, absence_means_rejected),
    ensures
        tree_names(a) == tree_names(t),
    decreases t,
{
    assert forall|i: int| 0 <= i < t.children@.len() implies tree_names(#[trigger] a.children@[i])
        == tree_names(t.children@[i]) by {
        lemma_annotation_keeps_names(
            a.children@[i],
            t.children@[i],
            confirmed,
            absence_means_rejected,
        );
    }
    assert forall|n: Seq<char>| holds_name(a, n) <==> holds_name(t, n) by {
        if exists|i: int| 0 <= i < a.children@.len() && holds_name(#[trigger] a.children@[i], n) {
            let i = choose|i: int| 0 <= i < a.children@.len() && holds_name(#[trigger] a.children@[i], n);
            assert(tree_names(a.children@[i]).contains(n));
        }
        if exists|i: int| 0 <= i < t.children@.len() && holds_name(#[trigger] t.children@[i], n) {
            let i = choose|i: int| 0 <= i < t.children@.len() && holds_name(#[trigger] t.children@[i], n);
            assert(tree_names(t.children@[i]).contains(n));
            assert(tree_names(a.children@[i]).contains(n));
        }
    }
    assert(tree_names(a) =~= tree_names(t));
}

impl Tree {
    /// The annotated tree of a change merged, or proposed, into `base_branch`.
    /// `containing` is the outcome of the lookup of the branches that hold the
    /// merge commit: the names it found, or `None` where it failed; it counts
    /// only for a change merged with a known merge commit.
    pub fn make(
        base_branch: String,
        merge_status: &PullRequestStatus,
        containing: Option<&Vec<String>>,
    ) -> (r: Tree)
        ensures
            r.branch_name@ == base_branch@,
            is_annotated_expansion(
                r,
                confirmed_for(base_branch@, *merge_status, opt_names(containing), tree_names(r)),
                absence_rejects(*merge_status, opt_names(containing)),
            ),
    {
        let mut found: Vec<String> = Vec::new();
        let mut tree = Tree::generate(base_branch.clone(), &mut found);
        let ghost t0 = tree;
        let mut missing_means_absent = true;
        let mut branches: Vec<String> = Vec::new();
        match merge_status {
            PullRequestStatus::Merged { merge_commit_oid } => {
                match merge_commit_oid {
                    Some(_) => match containing {
                        Some(names) => {
                            branches = intersection(&found, names);
                        },
                        None => {
                            missing_means_absent = false;
                        },
                    },
                    None => {
                        missing_means_absent = false;
                    },
                }
                // The change was merged into its base branch, whatever the
                // lookup said.
                add_name(&mut branches, &base_branch);
            },
            _ => {},
        }
        tree.fill_accepted(&branches, missing_means_absent);
        proof {
            lemma_annotation_of_expansion(t0, tree, listed(branches@), missing_means_absent);
            lemma_annotation_keeps_names(tree, t0, listed(branches@), missing_means_absent);
            assert(listed(found@) =~= tree_names(t0));
            assert(listed(Seq::<String>::empty()) =~= Set::<Seq<char>>::empty());
            assert(listed(branches@) =~= confirmed_for(
                base_branch@,
                *merge_status,
                opt_names(containing),
                tree_names(tree),
            ));
        }
        tree
    }
}


/// A branch has one expansion: two expanded trees with the same root name
/// have the same names, acceptances and shape.
pub proof fn lemma_expansion_unique(a: Tree, b: Tree)
    requires
        is_expansion(a),
        is_expansion(b),
        a.branch_name@ == b.branch_name@,
    ensures
        same_tree(a, b),
    decreases a,
{
    assert forall|i: int| 0 <= i < a.children@.len() implies same_tree(
        #[trigger] a.children@[i],
        b.children@[i],
    ) by {
        lemma_expansion_unique(a.children@[i], b.children@[i]);
    }
}

} // verus!

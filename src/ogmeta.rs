//! A lighter copy of an annotated tree for the page's metadata: names and
//! acceptance as a yes, a no or nothing.
use vstd::prelude::*;

use crate::tree::{Acceptance, Tree};

verus! {

#[derive(Debug)]
pub struct Ogmeta {
    pub branch_name: String,
    pub accepted: Option<bool>,
    pub children: Vec<Ogmeta>,
}

/// Accepted as `true`, rejected as `false`, unknown or not yet annotated as
/// nothing.
pub open spec fn accepted_flag(a: Option<Acceptance>) -> Option<bool> {
    match a {
        Some(Acceptance::Accepted) => Some(true),
        Some(Acceptance::Rejected) => Some(false),
        _ => None,
    }
}

/// `o` has the names and shape of `t`, and its acceptance as a flag.
pub open spec fn is_projection(o: Ogmeta, t: Tree) -> bool
    decreases t,
{
    &&& o.branch_name@ == t.branch_name@
    &&& o.accepted == accepted_flag(t.accepted)
    &&& o.children@.len() == t.children@.len()
    &&& forall|i: int|
        0 <= i < t.children@.len() ==> is_projection(#[trigger] o.children@[i], t.children@[i])
}

fn flag_of(a: Option<Acceptance>) -> (r: Option<bool>)
    ensures
        r == accepted_flag(a),
{
    match a {
        Some(Acceptance::Accepted) => Some(true),
        Some(Acceptance::Rejected) => Some(false),
        _ => None,
    }
}

impl Ogmeta {
    pub fn from_tree(tree: &Tree) -> (r: Ogmeta)
        ensures
            is_projection(r, *tree),
        decreases tree,
    {
        let mut children: Vec<Ogmeta> = Vec::new();
        let mut i: usize = 0;
        while i < tree.children.len()
            invariant
                i <= tree.children@.len(),
                children@.len() == i,
                forall|k: int|
                    0 <= k < i ==> is_projection(#[trigger] children@[k], tree.children@[k]),
            decreases tree.children@.len() - i,
        {
            assert(decreases_to!(tree => tree.children));
            assert(decreases_to!(tree.children => tree.children@[i as int]));
            let c = Ogmeta::from_tree(&tree.children[i]);
            children.push(c);
            i = i + 1;
        }
        Ogmeta { branch_name: tree.branch_name.clone(), accepted: flag_of(tree.accepted), children }
    }
}

} // verus!

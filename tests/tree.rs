use pr_tracker::branches::next_branches;
use pr_tracker::github::PullRequestStatus;
use pr_tracker::ogmeta::Ogmeta;
use pr_tracker::tree::{Acceptance, Tree};

fn names(t: &Tree) -> Vec<String> {
    let mut out = vec![t.branch_name.clone()];
    for c in &t.children {
        out.extend(names(c));
    }
    out
}

fn check_shape(t: &Tree) {
    let kids: Vec<String> = t.children.iter().map(|c| c.branch_name.clone()).collect();
    assert_eq!(kids, next_branches(&t.branch_name));
    for c in &t.children {
        check_shape(c);
    }
}

fn marks(t: &Tree) -> Vec<Option<Acceptance>> {
    let mut out = vec![t.accepted];
    for c in &t.children {
        out.extend(marks(c));
    }
    out
}

#[test]
fn generate_staging_tree() {
    let mut found = Vec::new();
    let t = Tree::generate("staging".to_string(), &mut found);
    assert_eq!(
        names(&t),
        vec![
            "staging",
            "staging-next",
            "master",
            "nixpkgs-unstable",
            "nixos-unstable-small",
            "nixos-unstable",
        ]
    );
    check_shape(&t);
    assert!(marks(&t).iter().all(|m| m.is_none()));
    let mut sorted = found.clone();
    sorted.sort();
    let mut expected: Vec<String> = names(&t);
    expected.sort();
    expected.dedup();
    assert_eq!(sorted, expected);
}

#[test]
fn generate_release_tree_shape() {
    let mut found = Vec::new();
    let t = Tree::generate("staging-20.09".to_string(), &mut found);
    check_shape(&t);
    assert_eq!(
        names(&t),
        vec![
            "staging-20.09",
            "release-20.09",
            "nixpkgs-20.09-darwin",
            "nixos-20.09-small",
            "nixos-20.09",
        ]
    );
}

#[test]
fn generate_leaf_for_unknown_branch() {
    let mut found = vec!["master".to_string()];
    let t = Tree::generate("feature/foo".to_string(), &mut found);
    assert_eq!(t.branch_name, "feature/foo");
    assert!(t.children.is_empty());
    assert_eq!(found, vec!["master", "feature/foo"]);
}

#[test]
fn fill_accepted_root_only_rejecting() {
    let mut found = Vec::new();
    let mut t = Tree::generate("staging-next".to_string(), &mut found);
    t.fill_accepted(&vec!["staging-next".to_string()], true);
    let m = marks(&t);
    assert_eq!(m[0], Some(Acceptance::Accepted));
    assert!(m[1..].iter().all(|a| *a == Some(Acceptance::Rejected)));
    assert_eq!(m.len(), 5);
}

#[test]
fn fill_accepted_root_only_unknown() {
    let mut found = Vec::new();
    let mut t = Tree::generate("staging-next".to_string(), &mut found);
    t.fill_accepted(&vec!["staging-next".to_string()], false);
    let m = marks(&t);
    assert_eq!(m[0], Some(Acceptance::Accepted));
    assert!(m[1..].iter().all(|a| *a == Some(Acceptance::Unknown)));
}

#[test]
fn fill_accepted_twice_is_the_same() {
    let mut found = Vec::new();
    let mut t = Tree::generate("release-21.05".to_string(), &mut found);
    let confirmed = vec!["release-21.05".to_string(), "nixos-21.05-small".to_string()];
    t.fill_accepted(&confirmed, true);
    let once = (names(&t), marks(&t));
    t.fill_accepted(&confirmed, true);
    assert_eq!((names(&t), marks(&t)), once);
    assert_eq!(
        once.1,
        vec![
            Some(Acceptance::Accepted),
            Some(Acceptance::Rejected),
            Some(Acceptance::Accepted),
            Some(Acceptance::Rejected),
        ]
    );
}

#[test]
fn make_merged_with_lookup() {
    let status = PullRequestStatus::Merged { merge_commit_oid: Some("abc".to_string()) };
    let containing = vec!["staging-21.05".to_string(), "staging-next-21.05".to_string()];
    let t = Tree::make("staging-21.05".to_string(), &status, Some(&containing));
    assert_eq!(t.branch_name, "staging-21.05");
    assert_eq!(t.accepted, Some(Acceptance::Accepted));
    assert_eq!(t.children.len(), 1);
    let next = &t.children[0];
    assert_eq!(next.branch_name, "staging-next-21.05");
    assert_eq!(next.accepted, Some(Acceptance::Accepted));
    assert_eq!(next.children.len(), 1);
    let release = &next.children[0];
    assert_eq!(release.branch_name, "release-21.05");
    assert_eq!(release.accepted, Some(Acceptance::Rejected));
}

#[test]
fn make_merged_lookup_failed() {
    let status = PullRequestStatus::Merged { merge_commit_oid: Some("abc".to_string()) };
    let t = Tree::make("staging-21.05".to_string(), &status, None);
    let m = marks(&t);
    assert_eq!(m[0], Some(Acceptance::Accepted));
    assert!(m[1..].iter().all(|a| *a == Some(Acceptance::Unknown)));
}

#[test]
fn make_merged_without_commit() {
    let status = PullRequestStatus::Merged { merge_commit_oid: None };
    let containing = vec!["release-21.05".to_string()];
    let t = Tree::make("staging-next-21.05".to_string(), &status, Some(&containing));
    let m = marks(&t);
    assert_eq!(m[0], Some(Acceptance::Accepted));
    assert!(m[1..].iter().all(|a| *a == Some(Acceptance::Unknown)));
}

#[test]
fn make_open_rejects_everything() {
    let t = Tree::make("staging".to_string(), &PullRequestStatus::Open, None);
    assert!(marks(&t).iter().all(|a| *a == Some(Acceptance::Rejected)));
    let t = Tree::make("master".to_string(), &PullRequestStatus::Closed, None);
    assert!(marks(&t).iter().all(|a| *a == Some(Acceptance::Rejected)));
}

#[test]
fn make_ignores_names_outside_the_tree() {
    let status = PullRequestStatus::Merged { merge_commit_oid: Some("abc".to_string()) };
    let containing = vec!["master".to_string(), "nixos-unstable".to_string()];
    let t = Tree::make("staging-next-21.05".to_string(), &status, Some(&containing));
    let m = marks(&t);
    assert_eq!(m[0], Some(Acceptance::Accepted));
    assert!(m[1..].iter().all(|a| *a == Some(Acceptance::Rejected)));
}

#[test]
fn ogmeta_projection() {
    let status = PullRequestStatus::Merged { merge_commit_oid: Some("abc".to_string()) };
    let containing = vec!["staging-21.05".to_string(), "staging-next-21.05".to_string()];
    let t = Tree::make("staging-21.05".to_string(), &status, Some(&containing));
    let o = Ogmeta::from_tree(&t);
    assert_eq!(o.branch_name, "staging-21.05");
    assert_eq!(o.accepted, Some(true));
    assert_eq!(o.children[0].accepted, Some(true));
    assert_eq!(o.children[0].children[0].accepted, Some(false));
    assert_eq!(o.children[0].children[0].branch_name, "release-21.05");

    let t = Tree::make("master".to_string(), &PullRequestStatus::Merged { merge_commit_oid: None }, None);
    let o = Ogmeta::from_tree(&t);
    assert_eq!(o.accepted, Some(true));
    assert_eq!(o.children.len(), 2);
    assert_eq!(o.children[1].accepted, None);
}

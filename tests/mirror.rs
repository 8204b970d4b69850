use pr_tracker::github::{merge_commit_oid, parse_pr_number, PullRequestStatus};
use pr_tracker::nixpkgs::{ListingOutcome, LookupAction, LookupEvent, LookupState, Nixpkgs};

#[test]
fn new_keeps_its_arguments() {
    let n = Nixpkgs::new("/srv/nixpkgs", "origin");
    assert_eq!(n.path, "/srv/nixpkgs");
    assert_eq!(n.remote_name, "origin");
}

#[test]
fn branch_names_of_remote_only() {
    let n = Nixpkgs::new("/srv/nixpkgs", "origin");
    let out = "refs/remotes/origin/master\n\nrefs/remotes/upstream/master\nrefs/remotes/origin/release-21.05\nrefs/remotes/originx/foo\nrefs/remotes/origin/master\n";
    let mut names = n.branch_names(out);
    names.sort();
    assert_eq!(names, vec!["master", "release-21.05"]);
    assert!(n.branch_names("").is_empty());
    assert_eq!(n.branch_names("refs/remotes/origin/a/b"), vec!["a/b"]);
}

#[test]
fn lookup_succeeds_first_time() {
    let n = Nixpkgs::new("/srv/nixpkgs", "origin");
    let (s, a) = n.lookup_step(
        LookupState::FirstListing,
        LookupEvent::Listed(ListingOutcome::Output("refs/remotes/origin/staging\n".to_string())),
    );
    assert_eq!(s, LookupState::Finished);
    match a {
        LookupAction::Found(v) => assert_eq!(v, vec!["staging"]),
        _ => panic!("expected names"),
    }
}

#[test]
fn lookup_retries_once_after_exit_code() {
    let n = Nixpkgs::new("/srv/nixpkgs", "origin");
    let (s, a) = n.lookup_step(
        LookupState::FirstListing,
        LookupEvent::Listed(ListingOutcome::ExitedWithCode),
    );
    assert_eq!(s, LookupState::Fetching);
    assert!(matches!(a, LookupAction::RunFetch));
    let (s, a) = n.lookup_step(s, LookupEvent::Fetched);
    assert_eq!(s, LookupState::SecondListing);
    assert!(matches!(a, LookupAction::RunListing));
    let (s, a) = n.lookup_step(s, LookupEvent::Listed(ListingOutcome::ExitedWithCode));
    assert_eq!(s, LookupState::Finished);
    assert!(matches!(a, LookupAction::Failed));
}

#[test]
fn lookup_fails_when_broken() {
    let n = Nixpkgs::new("/srv/nixpkgs", "origin");
    let (s, a) = n.lookup_step(LookupState::FirstListing, LookupEvent::Listed(ListingOutcome::Broken));
    assert_eq!(s, LookupState::Fetching);
    assert!(matches!(a, LookupAction::RunFetch));
    let (s, a) = n.lookup_step(s, LookupEvent::Fetched);
    assert_eq!(s, LookupState::SecondListing);
    assert!(matches!(a, LookupAction::RunListing));
    let (s, a) = n.lookup_step(s, LookupEvent::Listed(ListingOutcome::Broken));
    assert_eq!(s, LookupState::Finished);
    assert!(matches!(a, LookupAction::Failed));
    let (s, a) = n.lookup_step(LookupState::Finished, LookupEvent::Fetched);
    assert_eq!(s, LookupState::Finished);
    assert!(matches!(a, LookupAction::Failed));
}

#[test]
fn merge_commit_before_cutoff_is_dropped() {
    assert_eq!(merge_commit_oid(Some("2013-10-06T14:05:21Z"), Some("abc")), None);
    assert_eq!(
        merge_commit_oid(Some("2013-10-20T15:50:06Z"), Some("abc")),
        Some("abc".to_string())
    );
    assert_eq!(
        merge_commit_oid(Some("2021-05-01T00:00:00Z"), Some("def")),
        Some("def".to_string())
    );
    assert_eq!(merge_commit_oid(None, Some("abc")), None);
    assert_eq!(merge_commit_oid(Some("2021-05-01T00:00:00Z"), None), None);
}

#[test]
fn status_from_report() {
    assert!(matches!(
        PullRequestStatus::from_report(false, false, None, None),
        PullRequestStatus::Open
    ));
    assert!(matches!(
        PullRequestStatus::from_report(false, true, None, None),
        PullRequestStatus::Closed
    ));
    match PullRequestStatus::from_report(true, true, Some("2021-01-01T00:00:00Z"), Some("c0ffee")) {
        PullRequestStatus::Merged { merge_commit_oid } => {
            assert_eq!(merge_commit_oid, Some("c0ffee".to_string()))
        }
        _ => panic!("expected merged"),
    }
}

#[test]
fn pr_numbers_read_as_i64() {
    let samples = [
        "1", "123456", "+7", "-7", "0", "007", "", "-", "+", "12a", " 12", "12 ",
        "9223372036854775807", "9223372036854775808", "-9223372036854775808",
        "-9223372036854775809", "99999999999999999999999", "１２",
    ];
    for s in samples {
        assert_eq!(parse_pr_number(s), s.parse::<i64>().ok(), "{:?}", s);
    }
    assert_eq!(parse_pr_number("125000"), Some(125000));
    assert_eq!(parse_pr_number("-9223372036854775808"), Some(i64::MIN));
    assert_eq!(parse_pr_number("x"), None);
}

use pr_tracker::branches::{next_branches, rules, BranchPattern};
use regex::Regex;

#[test]
fn staging_18_03() {
    let res = next_branches("staging-18.03");
    assert_eq!(res, vec!["release-18.03"]);
}

#[test]
fn staging_20_09() {
    let res = next_branches("staging-20.09");
    assert_eq!(res, vec!["release-20.09"]);
}

#[test]
fn staging_21_05() {
    let res = next_branches("staging-21.05");
    assert_eq!(res, vec!["staging-next-21.05"]);
}

#[test]
fn staging_30_05() {
    let res = next_branches("staging-30.05");
    assert_eq!(res, vec!["staging-next-30.05"]);
}

#[test]
fn staging_00_11() {
    let res = next_branches("staging-00.11");
    assert_eq!(res, vec!["staging-next-00.11"]);
}

#[test]
fn staging_next_21_05() {
    let res = next_branches("staging-next-21.05");
    assert_eq!(res, vec!["release-21.05"]);
}

#[test]
fn release_20_09() {
    let res = next_branches("release-20.09");
    assert_eq!(res, vec!["nixpkgs-20.09-darwin", "nixos-20.09-small"]);
}

#[test]
fn release_20_09_same_on_every_call() {
    for _ in 0..3 {
        assert_eq!(
            next_branches("release-20.09"),
            vec!["nixpkgs-20.09-darwin", "nixos-20.09-small"]
        );
    }
}

#[test]
fn fixed_names() {
    assert_eq!(next_branches("staging"), vec!["staging-next"]);
    assert_eq!(next_branches("staging-next"), vec!["master"]);
    assert_eq!(
        next_branches("master"),
        vec!["nixpkgs-unstable", "nixos-unstable-small"]
    );
    assert_eq!(next_branches("nixos-unstable-small"), vec!["nixos-unstable"]);
    assert_eq!(next_branches("nixos-21.05-small"), vec!["nixos-21.05"]);
}

#[test]
fn no_match_is_empty() {
    assert!(next_branches("feature/foo").is_empty());
    assert!(next_branches("").is_empty());
    assert!(next_branches("nixpkgs-unstable").is_empty());
    assert!(next_branches("nixos-21.05").is_empty());
    assert!(next_branches("staging-2.05").is_empty());
    assert!(next_branches("staging-21.5").is_empty());
    assert!(next_branches("release-").is_empty());
    assert!(next_branches("release-21.05a").is_empty());
    assert!(next_branches("master ").is_empty());
}

#[test]
fn wildcard_year_digit() {
    assert_eq!(next_branches("staging-1x.05"), vec!["release-1x.05"]);
    assert_eq!(next_branches("staging-0x.05"), vec!["staging-next-0x.05"]);
    assert!(next_branches("staging-20x05").is_empty());
    assert!(next_branches("staging-1\n.05").is_empty());
}

#[test]
fn nested_small_suffix() {
    assert_eq!(next_branches("nixos-a-small-small"), vec!["nixos-a-small"]);
    assert_eq!(next_branches("nixos--small"), vec!["nixos-"]);
    assert!(next_branches("nixos-small").is_empty());
    assert!(next_branches("nixos-a\nb-small").is_empty());
}

const PATTERNS: [BranchPattern; 8] = [
    BranchPattern::Master,
    BranchPattern::NixosSmall,
    BranchPattern::Release,
    BranchPattern::StagingToRelease,
    BranchPattern::StagingToNext,
    BranchPattern::StagingNextVersion,
    BranchPattern::StagingNext,
    BranchPattern::Staging,
];

#[test]
fn patterns_in_ascending_order_of_source() {
    for w in PATTERNS.windows(2) {
        assert!(w[0].source() < w[1].source());
    }
}

#[test]
fn matchers_agree_with_regular_expressions() {
    let samples = [
        "master", "masters", "staging", "staging-next", "staging-next-21.05",
        "staging-next-", "staging-next-1.2.3", "staging-18.03", "staging-20.09",
        "staging-21.05", "staging-30.05", "staging-00.11", "staging-19.x9",
        "staging-1x.05", "staging-29.12", "staging-20.1", "staging-200.11",
        "release-20.09", "release-.", "release-", "release-20.09-x",
        "nixos-unstable-small", "nixos-small", "nixos--small", "nixos-a-small-small",
        "nixos-a\nb-small", "nixpkgs-unstable", "", "feature", "staging-2\n.05",
        "release-21.05\n", "release-\u{662}\u{660}", "staging-20.\u{660}\u{669}",
        "staging-\u{662}\u{661}.05", "staging-next-\u{967}\u{968}.\u{966}",
        "release-\u{ff12}\u{ff10}.09", "release-\u{b2}", "staging-21.\u{bd}5",
        "release-\u{2167}",
    ];
    for p in PATTERNS {
        let re = Regex::new(p.source()).unwrap();
        for s in samples {
            let expected = re
                .captures(s)
                .map(|c| c.get(1).map_or("", |m| m.as_str()).to_string());
            assert_eq!(p.capture(s), expected, "{} on {:?}", p.source(), s);
        }
    }
}

#[test]
fn rule_table_replacements_agree_with_regular_expressions() {
    let samples = [
        "master", "staging", "staging-next", "staging-next-21.05", "staging-18.03",
        "staging-21.05", "release-20.09", "nixos-unstable-small", "nixos-20.09-small",
    ];
    for s in samples {
        let mut expected: Vec<String> = Vec::new();
        for p in PATTERNS {
            let re = Regex::new(p.source()).unwrap();
            if re.is_match(s) {
                for r in rules() {
                    if r.pattern == p {
                        let template = format!("{}$1{}", r.head, r.tail);
                        expected.push(re.replace(s, template.as_str()).into_owned());
                    }
                }
            }
        }
        assert_eq!(next_branches(s), expected, "{:?}", s);
    }
}

#[test]
fn non_ascii_decimal_digits() {
    assert_eq!(
        next_branches("release-\u{662}\u{660}"),
        vec!["nixpkgs-\u{662}\u{660}-darwin", "nixos-\u{662}\u{660}-small"]
    );
    assert_eq!(next_branches("staging-20.\u{660}\u{669}"), vec!["release-20.\u{660}\u{669}"]);
    assert_eq!(
        next_branches("staging-next-\u{967}\u{968}.\u{966}"),
        vec!["release-\u{967}\u{968}.\u{966}"]
    );
    assert_eq!(
        next_branches("staging-1\u{661}.05"),
        vec!["release-1\u{661}.05"]
    );
    // Superscript two and Roman numeral eight are numbers but not decimal digits.
    assert!(next_branches("release-\u{b2}").is_empty());
    assert!(next_branches("release-\u{2167}").is_empty());
    // The year's first character is matched literally, not as a digit class.
    assert!(next_branches("staging-\u{662}\u{661}.05").is_empty());
}

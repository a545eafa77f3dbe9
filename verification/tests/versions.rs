use std::cmp::Ordering;

use dsh_desktop::catalog::make_listing;
use dsh_desktop::version::{is_higher, is_prerelease_version, semver_desc_cmp, sort_versions};

#[test]
fn prerelease_detection_by_suffix() {
    assert!(is_prerelease_version("0.1.2-alpha.3"));
    assert!(is_prerelease_version("0.1.2-alpha"));
    assert!(is_prerelease_version("0.1.2-beta.1"));
    assert!(is_prerelease_version("0.1.2-canary.5"));
    assert!(is_prerelease_version("0.1.1-rc.2"));
    assert!(is_prerelease_version("1.0.0-pre"));
    assert!(is_prerelease_version("0.1.2-alpha-rc.1"));
    assert!(!is_prerelease_version("0.1.2"));
    assert!(!is_prerelease_version("0.1.0"));
    assert!(!is_prerelease_version("1.0.0"));
    assert!(!is_prerelease_version("0.0.1"));
    assert!(is_prerelease_version("0.1.2-ALPHA"));
    assert!(is_prerelease_version("0.1.2-Rc.1"));
}

#[test]
fn semver_desc_ordering() {
    assert_eq!(semver_desc_cmp("1.0.0", "1.0.0-rc.1"), Ordering::Less);
    assert_eq!(semver_desc_cmp("1.0.0-rc.1", "1.0.0"), Ordering::Greater);
    assert_eq!(semver_desc_cmp("1.0.0", "0.9.9"), Ordering::Less);
    assert_eq!(semver_desc_cmp("0.1.1-rc.2", "0.1.0-rc.8"), Ordering::Less);
    assert_eq!(semver_desc_cmp("1.0.0-beta", "1.0.0-alpha"), Ordering::Less);
    assert_eq!(semver_desc_cmp("1.0.0-rc.1", "1.0.0-beta"), Ordering::Less);
}

#[test]
fn full_version_list_sort_matches_npm() {
    let mut vs = vec![
        "0.1.1-rc.2",
        "0.0.1-rc.1",
        "0.1.0-rc.2",
        "0.1.2-alpha.3",
        "0.1.0-rc.7",
        "1.0.0",
        "0.0.1-rc.5",
        "0.1.2-alpha.2",
    ];
    let expected = vec![
        "1.0.0",
        "0.1.2-alpha.3",
        "0.1.2-alpha.2",
        "0.1.1-rc.2",
        "0.1.0-rc.7",
        "0.1.0-rc.2",
        "0.0.1-rc.5",
        "0.0.1-rc.1",
    ];
    let owned: Vec<String> = vs.iter().map(|v| v.to_string()).collect();
    assert_eq!(sort_versions(&owned), expected);
    vs.sort_by(|a, b| semver_desc_cmp(a, b));
    assert_eq!(vs, expected);
}

#[test]
fn equal_and_odd_versions() {
    assert_eq!(semver_desc_cmp("1.0", "1.0.0"), Ordering::Equal);
    assert_eq!(semver_desc_cmp("1.2.3", "1.2.3"), Ordering::Equal);
    assert_eq!(semver_desc_cmp("1.x.3", "1.3"), Ordering::Equal);
    assert_eq!(semver_desc_cmp("1.0.0-", "1.0.0"), Ordering::Equal);
    assert_eq!(semver_desc_cmp("99999999999999999999.1", "1.0.0"), Ordering::Equal);
    assert_eq!(semver_desc_cmp("1.0.0-rc.10", "1.0.0-rc.9"), Ordering::Greater);
    assert_eq!(semver_desc_cmp("1.0.0-rc.1", "1.0.0-rc"), Ordering::Less);
    assert!(is_higher("0.10.0", "0.9.0"));
    assert!(!is_higher("0.9.0", "0.9.0"));
    assert!(is_higher("1.0.0", "1.0.0-rc.99"));
}

#[test]
fn words_without_a_hyphen_are_no_prereleases() {
    assert!(!is_prerelease_version("alpha"));
    assert!(!is_prerelease_version("1.0.0-alphabet"));
    assert!(!is_prerelease_version("1.0.0-"));
    assert!(!is_prerelease_version(""));
}

#[test]
fn sort_keeps_the_order_of_equal_versions() {
    let vs: Vec<String> = ["1.0", "2.0", "1.0.0", "1"].iter().map(|v| v.to_string()).collect();
    assert_eq!(sort_versions(&vs), ["2.0", "1.0", "1.0.0", "1"]);
    assert!(sort_versions(&Vec::new()).is_empty());
}

#[test]
fn listing_marks_tags_and_the_current_version() {
    let vs: Vec<String> = ["0.1.0", "0.2.0-alpha.1", "0.1.1"].iter().map(|v| v.to_string()).collect();
    let list = make_listing(
        &vs,
        "0.1.0",
        &Some("0.1.1".to_string()),
        &Some("0.2.0-alpha.1".to_string()),
    );
    assert_eq!(list.len(), 3);
    assert_eq!(list[0].version, "0.2.0-alpha.1");
    assert!(list[0].prerelease);
    assert_eq!(list[0].tags, ["alpha"]);
    assert_eq!(list[1].version, "0.1.1");
    assert!(!list[1].prerelease);
    assert!(!list[1].is_current);
    assert_eq!(list[1].tags, ["latest"]);
    assert_eq!(list[2].version, "0.1.0");
    assert!(list[2].is_current);
    assert!(list[2].tags.is_empty());
    let both = make_listing(
        &vec!["1.0.0".to_string()],
        "0.1.0",
        &Some("1.0.0".to_string()),
        &Some("1.0.0".to_string()),
    );
    assert_eq!(both[0].tags, ["latest", "alpha"]);
}

#[test]
fn order_is_transitive() {
    let vs = ["2.0.0", "2.0.0-rc.1", "2.0.0-beta", "1.9.9", "1.9", "1.0.0-alpha.2", "1.0.0-alpha"];
    for i in 0..vs.len() {
        for j in 0..vs.len() {
            assert_eq!(is_higher(vs[i], vs[j]), i < j, "{} {}", vs[i], vs[j]);
        }
    }
}

#[test]
fn build_metadata_does_not_count() {
    assert_eq!(semver_desc_cmp("1.0.1+b", "1.0.1"), Ordering::Equal);
    assert_eq!(semver_desc_cmp("1.0.1+b-x", "1.0.1"), Ordering::Equal);
    assert_eq!(semver_desc_cmp("1.0.1-rc.1+b", "1.0.1-rc.1"), Ordering::Equal);
    assert_eq!(semver_desc_cmp("1.0.1-rc.1+b", "1.0.1"), Ordering::Greater);
    assert_eq!(semver_desc_cmp("1.0.1+a", "1.0.0+z"), Ordering::Less);
    assert!(is_prerelease_version("1.0.0+b-rc"));
}

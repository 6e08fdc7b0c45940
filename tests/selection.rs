use latest_tag::{
    get_latest_prefiltered, get_latest_tag, get_tag_pattern, glob_pattern, parse_version,
    TagError,
};
use latest_tag::version::read_prerelease;

#[test]
fn test_get_latest_tag() {
    // The highest stable tag is returned even with an older prerelease of the same major.minor.patch version
    let tags = vec!["v1.0.0", "v1.2.0", "v1.1.5", "v2.0.0-beta.0", "v2.0.0"];
    let latest_tag = get_latest_tag(tags, "v", "beta", false).unwrap();
    assert_eq!(latest_tag, "v2.0.0");

    // The highest stable tag is returned even with a newer prerelease of the same major.minor version
    let tags = vec!["v1.0.0", "v1.2.0", "v1.1.5", "v2.0.0-beta.0"];
    let latest_tag = get_latest_tag(tags, "v", "beta", false).unwrap();
    assert_eq!(latest_tag, "v1.2.0");

    // The highest tag (including prerelease) is returned
    let tags = vec!["v1.0.0-beta.0", "v1.0.0", "v1.1.0-beta.0"];
    let latest_tag = get_latest_tag(tags, "v", "beta", true).unwrap();
    assert_eq!(latest_tag, "v1.1.0-beta.0");

    // Test with different prerelease suffixes
    let tags = vec!["v1.0.0-beta.1", "v1.0.0-beta.2"];
    let latest_tag = get_latest_tag(tags, "v", "beta", true).unwrap();
    assert_eq!(latest_tag, "v1.0.0-beta.2");

    // Test with multi-digit prerelease numbers (lexical comparison must not be used)
    let tags = vec!["v1.0.0-beta.10", "v1.0.0-beta.2"];
    let latest_tag = get_latest_tag(tags, "v", "beta", true).unwrap();
    assert_eq!(latest_tag, "v1.0.0-beta.10");

    // No matching tags gives an error
    let tags: Vec<&str> = vec![];
    let result = get_latest_tag(tags, "v", "beta", false);
    assert!(result.is_err());
}

#[test]
fn release_mode_prefers_release_over_its_prerelease() {
    let tags = vec!["v1.0.0", "v1.2.0", "v1.1.5", "v2.0.0-beta.0", "v2.0.0"];
    assert_eq!(get_latest_tag(tags, "v", "beta", false).unwrap(), "v2.0.0");
}

#[test]
fn release_mode_ignores_higher_prerelease() {
    let tags = vec!["v1.0.0", "v1.2.0", "v1.1.5", "v2.0.0-beta.0"];
    assert_eq!(get_latest_tag(tags, "v", "beta", false).unwrap(), "v1.2.0");
}

#[test]
fn prerelease_mode_picks_highest_prerelease() {
    let tags = vec!["v1.0.0-beta.0", "v1.0.0", "v1.1.0-beta.0"];
    assert_eq!(get_latest_tag(tags, "v", "beta", true).unwrap(), "v1.1.0-beta.0");
}

#[test]
fn prerelease_counters_compare_numerically() {
    let tags = vec!["v1.0.0-beta.10", "v1.0.0-beta.2"];
    assert_eq!(get_latest_tag(tags, "v", "beta", true).unwrap(), "v1.0.0-beta.10");
    let tags = vec!["v1.0.0-beta.2", "v1.0.0-beta.10"];
    assert_eq!(get_latest_tag(tags, "v", "beta", true).unwrap(), "v1.0.0-beta.10");
}

#[test]
fn empty_list_fails_in_both_modes() {
    for prerelease in [false, true] {
        let empty: Vec<&str> = vec![];
        match get_latest_tag(empty, "v", "beta", prerelease) {
            Err(TagError::NoMatchingTag(p)) => {
                assert_eq!(p.tag_prefix, "v");
                assert_eq!(p.prerelease_suffix, "beta");
                assert_eq!(p.prerelease, prerelease);
            }
            Ok(t) => panic!("unexpected tag {}", t),
        }
    }
}

#[test]
fn nothing_matching_fails() {
    let tags = vec!["release-1", "v1.0", "x1.0.0", "v1.0.0-rc.1"];
    assert!(get_latest_tag(tags.clone(), "v", "beta", false).is_err());
    assert!(get_latest_tag(tags, "v", "beta", true).is_err());
}

#[test]
fn selecting_twice_gives_the_same_tag() {
    let tags = vec!["v0.9.0", "v0.10.0", "v0.2.0"];
    let first = get_latest_tag(tags.clone(), "v", "beta", false).unwrap();
    let second = get_latest_tag(tags, "v", "beta", false).unwrap();
    assert_eq!(first, second);
    assert_eq!(first, "v0.10.0");
}

#[test]
fn prefix_is_taken_literally() {
    let tags = vec!["a1.0.0", "v.1.0.0", "v.2.0.0", "vv3.0.0"];
    assert_eq!(get_latest_tag(tags, "v.", "beta", false).unwrap(), "v.2.0.0");
    let tags = vec!["v1.0.0", "v1+2.0.0"];
    assert_eq!(get_latest_tag(tags, "v1+", "beta", false).unwrap(), "v1+2.0.0");
}

#[test]
fn dots_between_numbers_are_literal() {
    let tags = vec!["v1x2x3", "v1.0.0"];
    assert_eq!(get_latest_tag(tags, "v", "beta", false).unwrap(), "v1.0.0");
}

#[test]
fn other_suffix_is_not_matched() {
    let tags = vec!["v3.0.0-rc.1", "v1.0.0-beta.4"];
    assert_eq!(get_latest_tag(tags, "v", "beta", true).unwrap(), "v1.0.0-beta.4");
}

#[test]
fn malformed_tag_ranks_lowest() {
    // a leading zero is no semantic version: the tag ranks as 0.0.0
    let tags = vec!["v01.0.0", "v0.0.1"];
    assert_eq!(get_latest_tag(tags, "v", "beta", false).unwrap(), "v0.0.1");
    let tags = vec!["v01.0.0"];
    assert_eq!(get_latest_tag(tags, "v", "beta", false).unwrap(), "v01.0.0");
}

#[test]
fn equal_versions_resolve_to_the_last() {
    let tags = vec!["v01.0.0", "v00.0.0", "v0.0.0"];
    assert_eq!(get_latest_tag(tags, "v", "beta", false).unwrap(), "v0.0.0");
    let tags = vec!["v0.0.0", "v01.0.0"];
    assert_eq!(get_latest_tag(tags, "v", "beta", false).unwrap(), "v01.0.0");
}

#[test]
fn empty_prefix_works() {
    let tags = vec!["1.2.3", "1.10.0", "v9.0.0"];
    assert_eq!(get_latest_tag(tags, "", "rc", false).unwrap(), "1.10.0");
}

#[test]
fn glob_mode_ranks_every_candidate() {
    let tags = vec!["v1.0.0", "v2.0.0-beta.1", "v1.5.0"];
    assert_eq!(get_latest_prefiltered(tags, "v", "beta", false).unwrap(), "v2.0.0-beta.1");
    let tags = vec!["v2.0.0", "v2.0.0-beta.1"];
    assert_eq!(get_latest_prefiltered(tags, "v", "beta", true).unwrap(), "v2.0.0");
    let tags = vec!["v1.0.0", "garbage"];
    assert_eq!(get_latest_prefiltered(tags, "v", "beta", false).unwrap(), "v1.0.0");
}

#[test]
fn glob_mode_fails_on_empty_list() {
    let empty: Vec<&str> = vec![];
    assert!(matches!(
        get_latest_prefiltered(empty, "v", "beta", true),
        Err(TagError::NoMatchingTag(_))
    ));
}

#[test]
fn glob_pattern_shapes() {
    assert_eq!(glob_pattern(false, "v", "beta"), b"v*".to_vec());
    assert_eq!(glob_pattern(true, "v", "beta"), b"v*beta*".to_vec());
    assert_eq!(glob_pattern(false, "", "beta"), b"*".to_vec());
}

#[test]
fn pattern_accepts_exactly_the_grammar() {
    let release = get_tag_pattern(false, "v", "beta");
    assert!(release.is_match("v1.2.3"));
    assert!(release.is_match("v10.20.30"));
    assert!(!release.is_match("v1.2.3-beta.1"));
    assert!(!release.is_match("v1.2"));
    assert!(!release.is_match("v1..3"));
    assert!(!release.is_match("1.2.3"));
    assert!(!release.is_match("v1.2.3 "));
    let pre = get_tag_pattern(true, "v", "beta");
    assert!(pre.is_match("v1.2.3-beta.1"));
    assert!(pre.is_match("v1.2.3-beta.10"));
    assert!(!pre.is_match("v1.2.3"));
    assert!(!pre.is_match("v1.2.3-beta."));
    assert!(!pre.is_match("v1.2.3-beta"));
    assert!(!pre.is_match("v1.2.3-beta1"));
    assert!(!pre.is_match("v1.2.3-alpha.1"));
}

#[test]
fn parse_version_reads_fields() {
    let v = parse_version("v1.22.333", "v");
    assert_eq!((v.major, v.minor, v.patch), (1, 22, 333));
    assert!(v.pre.is_none());
    let v = parse_version("v4.5.6-beta.12", "v");
    assert_eq!((v.major, v.minor, v.patch), (4, 5, 6));
    let p = v.pre.unwrap();
    assert_eq!(p.label, b"beta".to_vec());
    assert_eq!(p.counter, 12);
}

#[test]
fn parse_version_degrades_to_zero() {
    for tag in ["v1.0", "vx.y.z", "v1.0.0-beta", "x1.0.0", "v"] {
        let v = parse_version(tag, "v");
        assert_eq!((v.major, v.minor, v.patch), (0, 0, 0), "{}", tag);
        assert!(v.pre.is_none());
    }
}

#[test]
fn parse_version_compares_by_precedence() {
    let a = parse_version("v1.0.0-beta.2", "v");
    let b = parse_version("v1.0.0-beta.10", "v");
    let c = parse_version("v1.0.0", "v");
    assert!(a.precedes_or_equals(&b));
    assert!(!b.precedes_or_equals(&a));
    assert!(b.precedes_or_equals(&c));
    assert!(!c.precedes_or_equals(&b));
}

#[test]
fn prerelease_counter_overflow_is_rejected() {
    assert!(read_prerelease(b"beta.18446744073709551615").is_some());
    assert!(read_prerelease(b"beta.18446744073709551616").is_none());
    assert!(matches!(read_prerelease(b""), Some(None)));
    assert!(read_prerelease(b"beta").is_none());
    assert!(read_prerelease(b".5").is_some());
}

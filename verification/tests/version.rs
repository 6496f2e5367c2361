use nvm_switch::version::{
    find_current_version, find_full_version, find_partial_version, find_version, version_dirs,
    NodeVersion, ParseVersionError, Version,
};

fn version(major: u32, minor: Option<u32>, patch: Option<u32>) -> Version {
    Version { major, minor, patch, location: None }
}

fn located(major: u32, minor: u32, patch: u32, location: &str) -> Version {
    Version { major, minor: Some(minor), patch: Some(patch), location: Some(location.to_string()) }
}

#[test]
fn parses_a_full_version() {
    assert_eq!(Version::from_str("v12.4.5"), Ok(version(12, Some(4), Some(5))));
    assert_eq!(Version::from_str("12.4.5"), Ok(version(12, Some(4), Some(5))));
}

#[test]
fn parses_partial_versions() {
    assert_eq!(Version::from_str("v12"), Ok(version(12, None, None)));
    assert_eq!(Version::from_str("v12.4"), Ok(version(12, Some(4), None)));
    assert_eq!(Version::from_str("0"), Ok(version(0, None, None)));
}

#[test]
fn parses_leading_zeros_and_the_greatest_component() {
    assert_eq!(Version::from_str("v007.08"), Ok(version(7, Some(8), None)));
    assert_eq!(
        Version::from_str("4294967295.4294967295.4294967295"),
        Ok(version(u32::MAX, Some(u32::MAX), Some(u32::MAX)))
    );
}

#[test]
fn ignores_what_follows_the_third_group() {
    assert_eq!(Version::from_str("v1.2.3.4"), Ok(version(1, Some(2), Some(3))));
    assert_eq!(Version::from_str("v1.2.3.beta"), Ok(version(1, Some(2), Some(3))));
    assert_eq!(Version::from_str("1.2.3."), Ok(version(1, Some(2), Some(3))));
}

#[test]
fn takes_an_empty_group_for_an_absent_component() {
    assert_eq!(Version::from_str("v1."), Ok(version(1, None, None)));
    assert_eq!(Version::from_str("v1.2."), Ok(version(1, Some(2), None)));
    assert_eq!(Version::from_str("v1.."), Ok(version(1, None, None)));
}

#[test]
fn drops_a_patch_group_without_a_minor_group() {
    assert_eq!(Version::from_str("v1..3"), Ok(version(1, None, None)));
    assert_eq!(Version::from_str("v1..x"), Err(ParseVersionError));
}

#[test]
fn rejects_text_that_is_no_version() {
    for text in [
        "", "v", "vv1", ".", ".1", "v.1.2", "x", "1x", "1.x", "1.2.x", "1.2.3-beta", " 1", "1 ",
        "+1", "1.+2", "-1", "1,2", "V1", "\u{661}",
    ] {
        assert_eq!(Version::from_str(text), Err(ParseVersionError), "{:?}", text);
    }
}

#[test]
fn rejects_a_component_that_does_not_fit() {
    assert_eq!(Version::from_str("4294967296"), Err(ParseVersionError));
    assert_eq!(Version::from_str("1.4294967296"), Err(ParseVersionError));
    assert_eq!(Version::from_str("1.2.99999999999999999999999999"), Err(ParseVersionError));
}

#[test]
fn parse_error_has_its_message() {
    assert_eq!(ParseVersionError.to_string(), "invalid version");
}

#[test]
fn shows_the_components_that_are_present() {
    assert_eq!(version(12, Some(4), Some(5)).to_string(), "v12.4.5");
    assert_eq!(version(12, Some(4), None).to_string(), "v12.4");
    assert_eq!(version(12, None, None).to_string(), "v12");
    assert_eq!(version(0, Some(0), Some(0)).to_string(), "v0.0.0");
    assert_eq!(version(12, None, Some(5)).to_string(), "v12");
    assert_eq!(
        version(u32::MAX, Some(10), Some(100)).to_string(),
        "v4294967295.10.100"
    );
}

#[test]
fn text_form_round_trips() {
    let samples = [
        version(0, None, None),
        version(12, None, None),
        version(12, Some(0), None),
        version(12, Some(4), Some(5)),
        version(u32::MAX, Some(u32::MAX), Some(u32::MAX)),
        version(100, Some(10), Some(1)),
    ];
    for sample in samples.iter() {
        let text = sample.to_string();
        let parsed = Version::from_str(&text).unwrap();
        assert_eq!(&parsed, sample);
        assert_eq!(parsed.to_string(), text);
    }
}

#[test]
fn is_full_needs_minor_and_patch() {
    assert!(version(1, Some(2), Some(3)).is_full());
    assert!(!version(1, Some(2), None).is_full());
    assert!(!version(1, None, None).is_full());
    assert!(!version(1, None, Some(3)).is_full());
}

#[test]
fn default_version_is_zero() {
    assert_eq!(Version::default(), version(0, None, None));
}

#[test]
fn clone_keeps_every_field() {
    let version = located(18, 2, 0, "/home/u/.nvm/versions/node/v18.2.0");
    assert_eq!(version.clone(), version);
}

#[test]
fn matches_treats_an_absent_component_as_a_wildcard() {
    let v12 = version(12, None, None);
    let v12_4 = version(12, Some(4), None);
    let v12_4_5 = version(12, Some(4), Some(5));
    let v12_4_6 = version(12, Some(4), Some(6));
    let v12_5_5 = version(12, Some(5), Some(5));
    let v14 = version(14, None, None);
    assert!(v12.matches(&v12_4_5));
    assert!(v12_4.matches(&v12_4_5));
    assert!(v12_4.matches(&v12_4_6));
    assert!(!v12_4_5.matches(&v12_4_6));
    assert!(!v12_4.matches(&v12_5_5));
    assert!(!v12.matches(&v14));
    assert!(!v14.matches(&v12_4_5));
    assert!(version(12, None, Some(1)).matches(&version(12, Some(3), Some(2))));
}

#[test]
fn matches_is_symmetric_and_reflexive() {
    let samples = [
        version(12, None, None),
        version(12, Some(4), None),
        version(12, Some(4), Some(5)),
        version(12, Some(4), Some(6)),
        version(12, Some(5), None),
        version(12, None, Some(5)),
        version(14, Some(4), Some(5)),
        located(12, 4, 5, "/somewhere"),
    ];
    for a in samples.iter() {
        assert!(a.matches(a));
        for b in samples.iter() {
            assert_eq!(a.matches(b), b.matches(a));
        }
    }
}

#[test]
fn is_below_ranks_by_major_minor_patch_and_location() {
    let v12 = version(12, None, None);
    let v12_0 = version(12, Some(0), None);
    let v12_0_0 = version(12, Some(0), Some(0));
    let v12_4_5 = version(12, Some(4), Some(5));
    let v14 = version(14, None, None);
    assert!(v12.is_below(&v12_0));
    assert!(v12_0.is_below(&v12_0_0));
    assert!(v12_0_0.is_below(&v12_4_5));
    assert!(v12_4_5.is_below(&v14));
    assert!(!v14.is_below(&v12_4_5));
    assert!(!v12_4_5.is_below(&v12_4_5));
    assert!(located(12, 4, 5, "/a").is_below(&located(12, 4, 5, "/b")));
    assert!(!located(12, 4, 5, "/b").is_below(&located(12, 4, 5, "/a")));
    assert!(!located(12, 4, 5, "/a").is_below(&located(12, 4, 5, "/a")));
    assert!(located(12, 4, 5, "/a").is_below(&located(12, 4, 5, "/a/b")));
    assert!(version(12, Some(4), Some(5)).is_below(&located(12, 4, 5, "")));
    assert!(!located(12, 4, 5, "").is_below(&version(12, Some(4), Some(5))));
    assert!(located(12, 4, 6, "/a").is_below(&located(12, 5, 0, "/a")));
}

#[test]
fn is_below_is_the_order_of_the_comparison_operators() {
    let samples = [
        version(12, None, None),
        version(12, Some(0), None),
        version(12, Some(0), Some(0)),
        version(12, None, Some(7)),
        version(13, None, None),
        located(12, 0, 0, ""),
        located(12, 0, 0, "/"),
        located(12, 0, 0, "/a"),
        located(12, 0, 0, "/a/b"),
        located(12, 0, 0, "/a-b"),
        located(12, 0, 0, "/ab"),
        located(12, 0, 0, "/h/.nvm/versions/node/v12.0.0"),
        located(12, 0, 0, "/h/.nvm/versions/io.js/v12.0.0"),
        located(12, 0, 0, "/h/.nvm/v12.0.0"),
        located(12, 0, 0, "/\u{e9}"),
        located(12, 0, 0, "/\u{1f600}"),
        located(12, 0, 0, "/\u{ffff}"),
        located(12, 0, 0, "/z"),
    ];
    for a in samples.iter() {
        for b in samples.iter() {
            assert_eq!(a.is_below(b), a < b, "{:?} {:?}", a, b);
        }
    }
}

#[test]
fn equal_versions_rank_by_location() {
    let node = located(1, 2, 3, "/h/.nvm/versions/node/v1.2.3");
    let iojs = located(1, 2, 3, "/h/.nvm/versions/io.js/v1.2.3");
    let pin = version(1, None, None);
    assert_eq!(find_partial_version(&pin, &vec![node.clone(), iojs.clone()]), Some(node.clone()));
    assert_eq!(find_partial_version(&pin, &vec![iojs, node.clone()]), Some(node));
}

#[test]
fn parse_is_there_for_strings() {
    assert_eq!("v12.4.5".parse::<Version>(), Ok(version(12, Some(4), Some(5))));
    assert_eq!("v12".parse::<Version>(), Ok(version(12, None, None)));
    assert_eq!("x".parse::<Version>(), Err(ParseVersionError));
    assert_eq!("+1".parse::<Version>(), Err(ParseVersionError));
}

#[test]
fn ranking_picks_the_greatest_match() {
    let installed = vec![
        located(12, 0, 0, "/h/.nvm/versions/node/v12.0.0"),
        located(12, 4, 0, "/h/.nvm/versions/node/v12.4.0"),
        located(12, 4, 5, "/h/.nvm/versions/node/v12.4.5"),
        located(14, 1, 0, "/h/.nvm/versions/node/v14.1.0"),
    ];
    let pin = version(12, None, None);
    let expected = located(12, 4, 5, "/h/.nvm/versions/node/v12.4.5");
    assert_eq!(find_partial_version(&pin, &installed), Some(expected.clone()));
    assert_eq!(find_version(&pin, "/h", &vec![], &installed), Some(expected));
}

#[test]
fn ranking_does_not_depend_on_the_order_of_the_listing() {
    let installed = vec![
        located(14, 1, 0, "/d"),
        located(12, 4, 5, "/c"),
        located(12, 0, 0, "/a"),
        located(12, 4, 0, "/b"),
    ];
    assert_eq!(
        find_partial_version(&version(12, None, None), &installed),
        Some(located(12, 4, 5, "/c"))
    );
    assert_eq!(
        find_partial_version(&version(12, Some(4), None), &installed),
        Some(located(12, 4, 5, "/c"))
    );
    assert_eq!(
        find_partial_version(&version(12, Some(0), None), &installed),
        Some(located(12, 0, 0, "/a"))
    );
}

#[test]
fn ranking_takes_the_greater_location_of_equal_versions() {
    let installed = vec![located(12, 4, 5, "/first"), located(12, 4, 5, "/second")];
    assert_eq!(
        find_partial_version(&version(12, None, None), &installed),
        Some(located(12, 4, 5, "/second"))
    );
    let installed = vec![located(12, 4, 5, "/second"), located(12, 4, 5, "/first")];
    assert_eq!(
        find_partial_version(&version(12, None, None), &installed),
        Some(located(12, 4, 5, "/second"))
    );
}

#[test]
fn partial_lookup_fails_without_a_match() {
    let installed = vec![located(14, 1, 0, "/d")];
    assert_eq!(find_partial_version(&version(12, None, None), &installed), None);
    assert_eq!(find_partial_version(&version(12, None, None), &vec![]), None);
    assert_eq!(find_version(&version(12, Some(1), None), "/h", &vec![true], &installed), None);
}

#[test]
fn version_dirs_lists_the_four_roots_in_priority_order() {
    let dirs = version_dirs(&version(12, Some(4), Some(5)), "/home/u");
    assert_eq!(
        dirs,
        vec![
            "/home/u/.nvm/v12.4.5".to_string(),
            "/home/u/.nvm/versions/node/v12.4.5".to_string(),
            "/home/u/.nvm/io.js/v12.4.5".to_string(),
            "/home/u/.nvm/versions/io.js/v12.4.5".to_string(),
        ]
    );
}

#[test]
fn full_lookup_takes_the_first_directory_that_exists() {
    let pin = version(12, Some(4), Some(5));
    let found = find_version(&pin, "/h", &vec![false, true, false, true], &vec![]);
    assert_eq!(found, Some(located(12, 4, 5, "/h/.nvm/versions/node/v12.4.5")));
    let found = find_version(&pin, "/h", &vec![true, true, true, true], &vec![]);
    assert_eq!(found, Some(located(12, 4, 5, "/h/.nvm/v12.4.5")));
    let found = find_version(&pin, "/h", &vec![false, false, false, true], &vec![]);
    assert_eq!(found, Some(located(12, 4, 5, "/h/.nvm/versions/io.js/v12.4.5")));
}

#[test]
fn full_lookup_is_exact() {
    let pin = version(12, Some(4), Some(5));
    let others = vec![located(12, 4, 6, "/h/.nvm/versions/node/v12.4.6")];
    assert_eq!(find_version(&pin, "/h", &vec![false, false, false, false], &others), None);
    assert_eq!(find_version(&pin, "/h", &vec![], &others), None);
    let found = find_version(&pin, "/h", &vec![false, true], &others).unwrap();
    assert_eq!((found.major, found.minor, found.patch), (12, Some(4), Some(5)));
}

#[test]
fn full_lookup_reads_no_more_answers_than_directories() {
    let pin = version(1, Some(2), Some(3));
    let dirs = vec!["/a".to_string(), "/b".to_string()];
    assert_eq!(find_full_version(&pin, &dirs, &vec![false, false, true]), None);
    assert_eq!(find_full_version(&pin, &dirs, &vec![false]), None);
    assert_eq!(find_full_version(&pin, &dirs, &vec![false, true]), Some(located(1, 2, 3, "/b")));
}

#[test]
fn current_version_comes_from_the_first_managed_segment() {
    let path = "/usr/bin:/home/u/.nvm/versions/node/v18.2.0/bin:/home/u/.nvm/versions/node/v16.0.0/bin:/bin";
    assert_eq!(
        find_current_version(path, "/home/u"),
        Some(located(18, 2, 0, "/home/u/.nvm/versions/node/v18.2.0"))
    );
}

#[test]
fn current_version_of_the_older_layout() {
    assert_eq!(
        find_current_version("/home/u/.nvm/v0.10.48/bin", "/home/u"),
        Some(located(0, 10, 48, "/home/u/.nvm/v0.10.48"))
    );
}

#[test]
fn no_current_version_without_a_managed_segment() {
    assert_eq!(find_current_version("/usr/local/bin:/usr/bin:/bin", "/home/u"), None);
    assert_eq!(find_current_version("", "/home/u"), None);
    assert_eq!(find_current_version("/home/u/.nvmx/v1.2.3/bin", "/home/u"), None);
    assert_eq!(find_current_version("/home/u/.nvm", "/home/u"), None);
    assert_eq!(find_current_version("/home/other/.nvm/v1.2.3/bin", "/home/u"), None);
}

#[test]
fn no_current_version_where_the_first_managed_segment_names_none() {
    let path = "/home/u/.nvm/tools/bin:/home/u/.nvm/versions/node/v18.2.0/bin";
    assert_eq!(find_current_version(path, "/home/u"), None);
    assert_eq!(find_current_version("/.nvm/", ""), None);
}

#[test]
fn current_version_skips_empty_names_and_cuts_four_characters() {
    assert_eq!(
        find_current_version("/home/u/.nvm//v8.1//bin/", "/home/u"),
        Some(Version {
            major: 8,
            minor: Some(1),
            patch: None,
            location: Some("/home/u/.nvm//v8.1//".to_string()),
        })
    );
}

#[test]
fn node_version_holds_a_version_or_the_system() {
    let resolved = NodeVersion::NvmVersion(Some(version(1, None, None)));
    assert_ne!(resolved, NodeVersion::System);
    assert_ne!(resolved, NodeVersion::NvmVersion(None));
}

use nvm_switch::nvmrc::{
    find_nvmrc_step, lts_alias_files, newest_installed, resolve_nvmrc_version,
    select_relative_lts, Resolution, ResolveError, SearchStep, MAX_NVMRC_FILE_SIZE,
    MAX_RECURSIVE_DEREF,
};
use nvm_switch::ranking::rank;
use nvm_switch::version::{NodeVersion, Version};

fn version(major: u32, minor: Option<u32>, patch: Option<u32>) -> Version {
    Version { major, minor, patch, location: None }
}

fn resolved(major: u32, minor: Option<u32>, patch: Option<u32>) -> Result<Resolution, ResolveError> {
    Ok(Resolution::Resolved(NodeVersion::NvmVersion(Some(version(major, minor, patch)))))
}

fn alias(path: &str, depth: u32) -> Result<Resolution, ResolveError> {
    Ok(Resolution::Alias { path: path.to_string(), depth })
}

fn strings(items: &[&str]) -> Vec<String> {
    items.iter().map(|item| item.to_string()).collect()
}

#[test]
fn search_takes_a_small_pin_file() {
    assert_eq!(find_nvmrc_step(Some(0), false, false), SearchStep::Found);
    assert_eq!(find_nvmrc_step(Some(32), false, false), SearchStep::Found);
    assert_eq!(find_nvmrc_step(Some(32), true, true), SearchStep::Found);
    assert_eq!(MAX_NVMRC_FILE_SIZE, 32);
}

#[test]
fn search_gives_up_at_a_large_pin_file() {
    assert_eq!(find_nvmrc_step(Some(33), false, false), SearchStep::Abandon);
    assert_eq!(find_nvmrc_step(Some(u64::MAX), false, true), SearchStep::Abandon);
}

#[test]
fn search_goes_up_to_the_top_and_no_further() {
    assert_eq!(find_nvmrc_step(None, false, false), SearchStep::Ascend { last: false });
    assert_eq!(find_nvmrc_step(None, false, true), SearchStep::Ascend { last: true });
    assert_eq!(find_nvmrc_step(None, true, true), SearchStep::Abandon);
    assert_eq!(find_nvmrc_step(None, true, false), SearchStep::Abandon);
}

#[test]
fn literal_versions_resolve_to_themselves() {
    assert_eq!(resolve_nvmrc_version("v12.4.5", 0, "/h"), resolved(12, Some(4), Some(5)));
    assert_eq!(resolve_nvmrc_version(" 18\n", 0, "/h"), resolved(18, None, None));
    assert_eq!(resolve_nvmrc_version("\t16.3\r\n", 5, "/h"), resolved(16, Some(3), None));
}

#[test]
fn system_resolves_to_the_system_runtime() {
    assert_eq!(
        resolve_nvmrc_version("system\n", 0, "/h"),
        Ok(Resolution::Resolved(NodeVersion::System))
    );
}

#[test]
fn node_and_stable_ask_for_the_newest_installed_version() {
    assert_eq!(resolve_nvmrc_version("node", 0, "/h"), Ok(Resolution::Newest));
    assert_eq!(resolve_nvmrc_version(" stable ", 3, "/h"), Ok(Resolution::Newest));
}

#[test]
fn default_names_the_default_alias_file() {
    assert_eq!(resolve_nvmrc_version("default", 0, "/h"), alias("/h/.nvm/alias/default", 1));
    assert_eq!(resolve_nvmrc_version("default\n", 5, "/h"), alias("/h/.nvm/alias/default", 6));
}

#[test]
fn named_lts_names_its_alias_file() {
    assert_eq!(resolve_nvmrc_version("lts/iron", 0, "/h"), alias("/h/.nvm/alias/lts/iron", 1));
    assert_eq!(resolve_nvmrc_version(" lts/*\n", 2, "/h"), alias("/h/.nvm/alias/lts/*", 3));
    assert_eq!(resolve_nvmrc_version("lts/  jod", 0, "/h"), alias("/h/.nvm/alias/lts/jod", 1));
    assert_eq!(resolve_nvmrc_version("lts/", 0, "/h"), alias("/h/.nvm/alias/lts/", 1));
}

#[test]
fn relative_lts_names_the_alias_directory_and_the_offset() {
    let relative = |offset: usize| {
        Ok(Resolution::RelativeLts { dir: "/h/.nvm/alias/lts".to_string(), offset })
    };
    assert_eq!(resolve_nvmrc_version("lts/-0", 0, "/h"), relative(0));
    assert_eq!(resolve_nvmrc_version("lts/-2\n", 0, "/h"), relative(2));
    assert_eq!(resolve_nvmrc_version("lts/-+3", 0, "/h"), relative(3));
    assert_eq!(resolve_nvmrc_version("lts/-007", 0, "/h"), relative(7));
    assert_eq!(
        resolve_nvmrc_version(&format!("lts/-{}", usize::MAX), 0, "/h"),
        relative(usize::MAX)
    );
}

#[test]
fn relative_lts_needs_a_number() {
    for pin in ["lts/-", "lts/-x", "lts/--1", "lts/-1x", "lts/- 1", "lts/-+", "lts/-++1",
        "lts/-99999999999999999999999999"]
    {
        assert_eq!(
            resolve_nvmrc_version(pin, 0, "/h"),
            Err(ResolveError::InvalidRelative),
            "{:?}",
            pin
        );
    }
}

#[test]
fn other_text_is_an_invalid_pin() {
    for pin in ["", "   ", "latest", "Node", "lts", "v", "12.x", "system32", "iojs"] {
        assert_eq!(
            resolve_nvmrc_version(pin, 0, "/h"),
            Err(ResolveError::InvalidVersion),
            "{:?}",
            pin
        );
    }
}

#[test]
fn depth_is_tested_before_the_pin_is_read() {
    assert_eq!(MAX_RECURSIVE_DEREF, 5);
    for pin in ["v12", "system", "default", "lts/iron", "lts/-1", "node", "nonsense"] {
        assert!(resolve_nvmrc_version(pin, 5, "/h") != Err(ResolveError::DepthExceeded));
        assert_eq!(resolve_nvmrc_version(pin, 6, "/h"), Err(ResolveError::DepthExceeded));
        assert_eq!(resolve_nvmrc_version(pin, u32::MAX, "/h"), Err(ResolveError::DepthExceeded));
    }
}

fn follow(pin: &str, files: &[(&str, &str)]) -> (Result<Resolution, ResolveError>, usize) {
    let mut text = pin.to_string();
    let mut depth = 0;
    let mut reads = 0;
    loop {
        match resolve_nvmrc_version(&text, depth, "/h") {
            Ok(Resolution::Alias { path, depth: next }) => {
                let content = files.iter().find(|(name, _)| *name == path).unwrap().1;
                text = content.to_string();
                depth = next;
                reads += 1;
            }
            other => return (other, reads),
        }
    }
}

#[test]
fn alias_cycle_ends_with_depth_exceeded() {
    let files = [("/h/.nvm/alias/default", "default\n")];
    assert_eq!(follow("default", &files), (Err(ResolveError::DepthExceeded), 6));
    let files = [
        ("/h/.nvm/alias/default", "lts/a"),
        ("/h/.nvm/alias/lts/a", "lts/b"),
        ("/h/.nvm/alias/lts/b", "default"),
    ];
    assert_eq!(follow("lts/b", &files), (Err(ResolveError::DepthExceeded), 6));
}

#[test]
fn alias_chain_longer_than_the_bound_is_cut() {
    let files = [
        ("/h/.nvm/alias/default", "lts/a"),
        ("/h/.nvm/alias/lts/a", "lts/b"),
        ("/h/.nvm/alias/lts/b", "lts/c"),
        ("/h/.nvm/alias/lts/c", "lts/d"),
        ("/h/.nvm/alias/lts/d", "lts/e"),
        ("/h/.nvm/alias/lts/e", "v20.1.0"),
    ];
    assert_eq!(follow("default", &files), (Err(ResolveError::DepthExceeded), 6));
    assert_eq!(follow("lts/a", &files), (resolved(20, Some(1), Some(0)), 5));
    assert_eq!(follow("lts/e", &files), (resolved(20, Some(1), Some(0)), 1));
}

#[test]
fn alias_files_leave_out_the_wildcard() {
    assert_eq!(
        lts_alias_files("/h/.nvm/alias/lts", &strings(&["argon", "*", "boron", "**", ""])),
        strings(&[
            "/h/.nvm/alias/lts/argon",
            "/h/.nvm/alias/lts/boron",
            "/h/.nvm/alias/lts/**",
            "/h/.nvm/alias/lts/",
        ])
    );
    assert_eq!(lts_alias_files("/d", &strings(&["*"])), Vec::<String>::new());
}

#[test]
fn relative_lts_counts_from_the_most_recent_line() {
    let contents = strings(&["v4.9.1\n", "v18.20.4\n", "v6.17.1", "not a version", " v20.18.0 "]);
    let line = |major, minor, patch| {
        Ok(NodeVersion::NvmVersion(Some(version(major, Some(minor), Some(patch)))))
    };
    assert_eq!(select_relative_lts(&contents, 0), line(20, 18, 0));
    assert_eq!(select_relative_lts(&contents, 1), line(18, 20, 4));
    assert_eq!(select_relative_lts(&contents, 2), line(6, 17, 1));
    assert_eq!(select_relative_lts(&contents, 3), line(4, 9, 1));
}

#[test]
fn relative_lts_out_of_range_is_not_found() {
    let contents = strings(&["v4.9.1", "v18.20.4", "nothing"]);
    assert_eq!(select_relative_lts(&contents, 2), Err(ResolveError::NotFound));
    assert_eq!(select_relative_lts(&contents, 3), Err(ResolveError::NotFound));
    assert_eq!(select_relative_lts(&contents, usize::MAX), Err(ResolveError::NotFound));
    assert_eq!(select_relative_lts(&vec![], 0), Err(ResolveError::NotFound));
    assert_eq!(select_relative_lts(&strings(&["lts/iron"]), 0), Err(ResolveError::NotFound));
}

#[test]
fn newest_installed_is_the_greatest() {
    let installed = vec![
        version(12, Some(4), Some(5)),
        version(14, Some(1), Some(0)),
        version(12, Some(0), Some(0)),
        version(14, Some(0), Some(9)),
    ];
    assert_eq!(
        newest_installed(&installed),
        Ok(NodeVersion::NvmVersion(Some(version(14, Some(1), Some(0)))))
    );
}

#[test]
fn newest_installed_of_none_is_not_found() {
    assert_eq!(newest_installed(&vec![]), Err(ResolveError::NotFound));
}

#[test]
fn rank_sorts_ascending_with_the_location_last() {
    let first = Version { major: 1, minor: Some(2), patch: None, location: Some("a".to_string()) };
    let second = Version { major: 1, minor: Some(2), patch: None, location: Some("b".to_string()) };
    let versions = vec![
        version(2, None, None),
        second.clone(),
        version(1, Some(2), Some(0)),
        first.clone(),
        version(1, None, None),
        version(0, Some(99), Some(99)),
    ];
    assert_eq!(
        rank(&versions),
        vec![
            version(0, Some(99), Some(99)),
            version(1, None, None),
            first,
            second,
            version(1, Some(2), Some(0)),
            version(2, None, None),
        ]
    );
    assert_eq!(rank(&vec![]), vec![]);
}

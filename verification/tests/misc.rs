use nvm_switch::install_node::{installed_version, nvm_script_path};
use nvm_switch::misc::{
    get_runtime_name, is_iojs, list_all_nvm_versions, listing_roots, path_below, version_of_entry,
    Entry, ListingType, NoReadableRoot, IOJS_MAX_MAJOR, IOJS_MIN_MAJOR, NVM_VERSION_DIR_NEW,
    NVM_VERSION_DIR_NEW_IOJS, NVM_VERSION_DIR_OLD, NVM_VERSION_DIR_OLD_IOJS,
};
use nvm_switch::query_current::{managed_npm_path, parse_version_output, system_npm_candidates};
use nvm_switch::version::{NodeVersion, Version};

fn major(major: u32) -> Version {
    Version { major, minor: Some(0), patch: Some(0), location: None }
}

fn dir(root: &str, name: &str) -> Entry {
    Entry { name: name.to_string(), path: format!("{}/{}", root, name), is_dir: true }
}

fn file(root: &str, name: &str) -> Entry {
    Entry { name: name.to_string(), path: format!("{}/{}", root, name), is_dir: false }
}

fn at(major: u32, minor: Option<u32>, patch: Option<u32>, location: &str) -> Version {
    Version { major, minor, patch, location: Some(location.to_string()) }
}

#[test]
fn iojs_is_the_band_from_one_to_three() {
    assert!(!is_iojs(&major(0)));
    assert!(is_iojs(&major(1)));
    assert!(is_iojs(&major(2)));
    assert!(is_iojs(&major(3)));
    assert!(!is_iojs(&major(4)));
    assert!(!is_iojs(&major(18)));
    assert!(is_iojs(&Version { major: 1, minor: None, patch: None, location: None }));
    assert!(is_iojs(&Version { major: 3, minor: Some(9), patch: Some(9), location: None }));
    assert_eq!((IOJS_MIN_MAJOR, IOJS_MAX_MAJOR), (1, 4));
}

#[test]
fn runtime_name_follows_the_band() {
    assert_eq!(get_runtime_name(&major(0)), "node");
    assert_eq!(get_runtime_name(&major(1)), "io.js");
    assert_eq!(get_runtime_name(&major(3)), "io.js");
    assert_eq!(get_runtime_name(&major(4)), "node");
}

#[test]
fn version_directories_have_their_names() {
    assert_eq!(NVM_VERSION_DIR_OLD, ".nvm");
    assert_eq!(NVM_VERSION_DIR_NEW, ".nvm/versions/node");
    assert_eq!(NVM_VERSION_DIR_OLD_IOJS, ".nvm/io.js");
    assert_eq!(NVM_VERSION_DIR_NEW_IOJS, ".nvm/versions/io.js");
    assert_eq!(path_below("/home/u", NVM_VERSION_DIR_NEW), "/home/u/.nvm/versions/node");
}

#[test]
fn listing_roots_depend_on_the_listing_type() {
    assert_eq!(
        listing_roots(ListingType::Node, "/h"),
        vec!["/h/.nvm".to_string(), "/h/.nvm/versions/node".to_string()]
    );
    assert_eq!(
        listing_roots(ListingType::Iojs, "/h"),
        vec!["/h/.nvm/versions/io.js".to_string(), "/h/.nvm/io.js".to_string()]
    );
    assert_eq!(
        listing_roots(ListingType::Both, "/h"),
        vec![
            "/h/.nvm".to_string(),
            "/h/.nvm/versions/node".to_string(),
            "/h/.nvm/versions/io.js".to_string(),
            "/h/.nvm/io.js".to_string(),
        ]
    );
}

#[test]
fn entry_stands_for_a_version_where_it_is_a_directory_named_by_one() {
    assert_eq!(version_of_entry(&dir("/r", "v12.4.5")), Some(at(12, Some(4), Some(5), "/r/v12.4.5")));
    assert_eq!(version_of_entry(&dir("/r", "v12")), Some(at(12, None, None, "/r/v12")));
    assert_eq!(version_of_entry(&file("/r", "v12.4.5")), None);
    assert_eq!(version_of_entry(&dir("/r", "12.4.5")), None);
    assert_eq!(version_of_entry(&dir("/r", "versions")), None);
    assert_eq!(version_of_entry(&dir("/r", "v")), None);
    assert_eq!(version_of_entry(&dir("/r", "")), None);
}

#[test]
fn listing_joins_the_roots_in_order() {
    let listings = vec![
        Some(vec![dir("/a", "v0.10.1"), file("/a", "v0.10.2"), dir("/a", "versions")]),
        None,
        Some(vec![dir("/c", "v3.3.1"), dir("/c", "v1.0.0")]),
        Some(vec![]),
    ];
    assert_eq!(
        list_all_nvm_versions(&listings),
        Ok(vec![
            at(0, Some(10), Some(1), "/a/v0.10.1"),
            at(3, Some(3), Some(1), "/c/v3.3.1"),
            at(1, Some(0), Some(0), "/c/v1.0.0"),
        ])
    );
}

#[test]
fn listing_of_readable_empty_roots_is_empty() {
    assert_eq!(list_all_nvm_versions(&vec![Some(vec![]), None]), Ok(vec![]));
    assert_eq!(list_all_nvm_versions(&vec![None, Some(vec![file("/a", "v1.2.3")])]), Ok(vec![]));
}

#[test]
fn listing_fails_where_no_root_is_readable() {
    assert_eq!(list_all_nvm_versions(&vec![None, None, None, None]), Err(NoReadableRoot));
    assert_eq!(list_all_nvm_versions(&vec![]), Err(NoReadableRoot));
}

#[test]
fn npm_of_a_managed_version_is_in_its_bin_directory() {
    let version = at(18, Some(2), Some(0), "/h/.nvm/versions/node/v18.2.0");
    assert_eq!(managed_npm_path(&version), "/h/.nvm/versions/node/v18.2.0/bin/npm");
}

#[test]
fn npm_of_the_system_is_looked_for_outside_the_managed_installation() {
    let path = "/h/.nvm/versions/node/v18.2.0/bin:/usr/local/bin::/usr/bin";
    assert_eq!(
        system_npm_candidates(path, "/h"),
        vec!["/usr/local/bin/npm".to_string(), "/npm".to_string(), "/usr/bin/npm".to_string()]
    );
    assert_eq!(system_npm_candidates("", "/h"), vec!["/npm".to_string()]);
}

#[test]
fn version_output_is_trimmed_and_read() {
    assert_eq!(parse_version_output("v18.2.0\n"), Some(major_minor_patch(18, 2, 0)));
    assert_eq!(parse_version_output("  8.1.0 "), Some(major_minor_patch(8, 1, 0)));
    assert_eq!(parse_version_output("node: command not found"), None);
    assert_eq!(parse_version_output(""), None);
}

fn major_minor_patch(major: u32, minor: u32, patch: u32) -> Version {
    Version { major, minor: Some(minor), patch: Some(patch), location: None }
}

#[test]
fn installer_loads_the_script_of_the_version_manager() {
    assert_eq!(nvm_script_path("/home/u"), "/home/u/.nvm//nvm.sh");
}

#[test]
fn installation_counts_where_the_pin_names_a_version_after_it() {
    let version = major_minor_patch(18, 2, 0);
    assert_eq!(
        installed_version(NodeVersion::NvmVersion(Some(major_minor_patch(18, 2, 0)))),
        Some(version)
    );
    assert_eq!(installed_version(NodeVersion::NvmVersion(None)), None);
    assert_eq!(installed_version(NodeVersion::System), None);
}

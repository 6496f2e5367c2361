//! Where the package manager of a runtime is looked for, and how the
//! answer of a runtime to a query for its version is read.

use vstd::prelude::*;
use crate::env_utils::{strip_nvm_path, without_managed};
use crate::text::{
    chars_of,
    lines,
    push_chars,
    push_str,
    rows,
    split,
    split_chars,
    string_of,
    trim,
    trim_chars,
};
use crate::version::{Version, VersionView};

verus! {

/// The places in which the package manager of the system is looked for:
/// one in each directory of the search path `path` that lies outside the
/// managed installation below `home`.
pub open spec fn npm_places(path: Seq<char>, home: Seq<char>) -> Seq<Seq<char>> {
    split(without_managed(path, home), ':').map_values(|dir: Seq<char>| dir + "/npm"@)
}

/// The package manager that comes with the installed `version`.
pub fn managed_npm_path(version: &Version) -> (npm: String)
    requires
        version.location is Some,
    ensures
        npm@ == version@.location->0 + "/bin/npm"@,
{
    let mut npm: Vec<char> = match &version.location {
        Some(location) => chars_of(location.as_str()),
        None => Vec::new(),
    };
    push_str(&mut npm, "/bin/npm");
    string_of(&npm)
}

/// The places in which the package manager of the system is looked for, in
/// the order of the search path `path`.
pub fn system_npm_candidates(path: &str, home: &str) -> (places: Vec<String>)
    ensures
        lines(places@) == npm_places(path@, home@),
{
    let stripped = strip_nvm_path(path, home);
    let dirs = split_chars(&chars_of(stripped.as_str()), ':');
    let mut places: Vec<String> = Vec::new();
    let mut i: usize = 0;
    while i < dirs.len()
        invariant
            i <= dirs.len(),
            rows(dirs@) == split(without_managed(path@, home@), ':'),
            places.len() == i,
            forall|j: int| 0 <= j < i ==> (#[trigger] places@[j])@ == dirs@[j]@ + "/npm"@,
        decreases dirs.len() - i,
    {
        let mut place: Vec<char> = Vec::new();
        push_chars(&mut place, &dirs[i]);
        push_str(&mut place, "/npm");
        places.push(string_of(&place));
        i += 1;
    }
    assert(rows(dirs@).len() == dirs.len());
    assert forall|j: int| 0 <= j < places.len() implies lines(places@)[j] == npm_places(
        path@,
        home@,
    )[j] by {
        assert(rows(dirs@)[j] == dirs@[j]@);
    }
    places
}

/// Reads the version that a runtime printed when it was asked for it.
pub fn parse_version_output(output: &str) -> (version: Option<Version>)
    ensures
        version is Some <==> VersionView::parse(trim(output@)) is Some,
        version is Some ==> Some(version->0@) == VersionView::parse(trim(output@)),
        version is Some ==> version->0@.well_formed(),
{
    Version::from_chars(&trim_chars(&chars_of(output)))
}

} // verus!

//! Runtime versions: the data model, the text form, partial matching and
//! ranking.

use vstd::prelude::*;
use crate::decimal::{
    decimal,
    is_digit,
    lemma_decimal_is_digits,
    lemma_decimal_round_trip,
    number,
    parse_decimal,
    push_decimal,
};
use crate::misc::{
    below,
    dot_nvm_home,
    lookup_dirs,
    NVM_VERSION_DIR_NEW,
    NVM_VERSION_DIR_NEW_IOJS,
    NVM_VERSION_DIR_OLD,
    NVM_VERSION_DIR_OLD_IOJS,
};
use crate::ranking::{lemma_ranked, lemma_ranked_last_is_highest, rank, ranked};
use crate::text::{
    chars_below,
    chars_of,
    free_of,
    lemma_split_first,
    lemma_split_whole,
    lines,
    push_chars,
    push_str,
    rows,
    slice_of,
    split,
    split_chars,
    starts_with,
    string_of,
    text_below,
};

verus! {

/// A runtime version, possibly partial: `v12`, `v12.4` or `v12.4.5`.
///
/// `location` is the directory of the installation, once the version has
/// been found on disk.
///
/// The operators `<` and `>` compare the fields in their order; verified
/// code ranks versions with `is_below`.
#[derive(Debug, PartialEq, Eq, PartialOrd)]
pub struct Version {
    pub major: u32,
    pub minor: Option<u32>,
    pub patch: Option<u32>,
    pub location: Option<String>,
}

/// The mathematical value of a `Version`: its components, and its location
/// as a sequence of characters.
pub struct VersionView {
    pub major: u32,
    pub minor: Option<u32>,
    pub patch: Option<u32>,
    pub location: Option<Seq<char>>,
}

impl View for Version {
    type V = VersionView;

    open spec fn view(&self) -> VersionView {
        VersionView {
            major: self.major,
            minor: self.minor,
            patch: self.patch,
            location: match self.location {
                Some(path) => Some(path@),
                None => None,
            },
        }
    }
}

/// The values of the versions of `versions`.
pub open spec fn views(versions: Seq<Version>) -> Seq<VersionView> {
    Seq::new(versions.len(), |i: int| versions[i]@)
}

/// What a pin resolves to: a managed version, or the runtime of the system.
#[derive(Debug, PartialEq, Eq)]
pub enum NodeVersion {
    /// A managed version; `None` where the pin is valid and names no
    /// version yet.
    NvmVersion(Option<Version>),
    System,
}

/// The mathematical value of a `NodeVersion`.
pub enum NodeVersionView {
    NvmVersion(Option<VersionView>),
    System,
}

impl View for NodeVersion {
    type V = NodeVersionView;

    open spec fn view(&self) -> NodeVersionView {
        match self {
            NodeVersion::NvmVersion(Some(version)) => NodeVersionView::NvmVersion(Some(version@)),
            NodeVersion::NvmVersion(None) => NodeVersionView::NvmVersion(None),
            NodeVersion::System => NodeVersionView::System,
        }
    }
}

/// The text is no version.
#[derive(Debug, PartialEq, Eq)]
pub struct ParseVersionError;

impl ParseVersionError {
    /// The message of the error.
    pub fn to_string(&self) -> (message: String)
        ensures
            message@ == "invalid version"@,
    {
        string_of(&chars_of("invalid version"))
    }
}

/// A component as a number for ranking: an absent one ranks below every
/// present one.
pub open spec fn component_rank(c: Option<u32>) -> int {
    match c {
        Some(n) => n as int,
        None => -1,
    }
}

/// Whether the location `a` ranks below the location `b`: an absent one
/// ranks below every present one, and two present ones rank as their
/// texts stand in the order of a dictionary.
pub open spec fn location_below(a: Option<Seq<char>>, b: Option<Seq<char>>) -> bool {
    match (a, b) {
        (None, Some(_)) => true,
        (Some(first), Some(second)) => text_below(first, second),
        _ => false,
    }
}

/// What one group of a version's text stands for: nothing where the group is
/// empty, a number where it is digits that fit, and `None` otherwise.
pub open spec fn component_of(group: Seq<char>) -> Option<Option<u32>> {
    if group.len() == 0 {
        Some(None)
    } else {
        match number(group) {
            Some(n) => if n <= u32::MAX {
                Some(Some(n as u32))
            } else {
                None
            },
            None => None,
        }
    }
}

impl VersionView {
    /// A patch component comes only with a minor one.
    pub open spec fn well_formed(&self) -> bool {
        self.patch is Some ==> self.minor is Some
    }

    /// Both the minor and the patch component are present.
    pub open spec fn full(&self) -> bool {
        self.minor is Some && self.patch is Some
    }

    /// The two versions agree on the major component and on every further
    /// component that both have, up to the first that either lacks.
    pub open spec fn agrees_with(&self, other: VersionView) -> bool {
        &&& self.major == other.major
        &&& (self.minor is None || other.minor is None || {
            &&& self.minor == other.minor
            &&& (self.patch is None || other.patch is None || self.patch == other.patch)
        })
    }

    /// `self` ranks strictly below `other`: by major, then minor, then
    /// patch, and among versions of the same components by location.
    pub open spec fn ranks_below(&self, other: VersionView) -> bool {
        let (a, b) = (component_rank(self.minor), component_rank(other.minor));
        let (c, d) = (component_rank(self.patch), component_rank(other.patch));
        self.major < other.major || (self.major == other.major && (a < b || (a == b && (c < d
            || (c == d && location_below(self.location, other.location))))))
    }

    /// The text form: `v`, the major component, and each further component
    /// after a dot; a patch component without a minor one is not shown.
    pub open spec fn text(&self) -> Seq<char> {
        let head = seq!['v'] + decimal(self.major as nat);
        match self.minor {
            None => head,
            Some(minor) => {
                let middle = head.push('.') + decimal(minor as nat);
                match self.patch {
                    None => middle,
                    Some(patch) => middle.push('.') + decimal(patch as nat),
                }
            },
        }
    }

    /// The version that `text` spells, if any. One leading `v` is dropped;
    /// the first three groups between dots are the components, and what
    /// follows them is not read. The major group must be a number, the two
    /// others a number or empty. A patch group counts only after a minor
    /// one.
    pub open spec fn parse(text: Seq<char>) -> Option<VersionView> {
        let body = if text.len() > 0 && text[0] == 'v' {
            text.skip(1)
        } else {
            text
        };
        let groups = split(body, '.');
        let major = component_of(groups[0]);
        let minor = if groups.len() > 1 {
            component_of(groups[1])
        } else {
            Some(None)
        };
        let patch = if groups.len() > 2 {
            component_of(groups[2])
        } else {
            Some(None)
        };
        if major is Some && major->0 is Some && minor is Some && patch is Some {
            Some(
                VersionView {
                    major: major->0->0,
                    minor: minor->0,
                    patch: if minor->0 is Some {
                        patch->0
                    } else {
                        None
                    },
                    location: None,
                },
            )
        } else {
            None
        }
    }
}

impl Version {
    /// Whether both the minor and the patch component are present.
    pub fn is_full(&self) -> (full: bool)
        ensures
            full == self@.full(),
    {
        self.minor.is_some() && self.patch.is_some()
    }

    /// Whether the two versions match: a component that either lacks is a
    /// wildcard.
    pub fn matches(&self, other: &Self) -> (same: bool)
        ensures
            same == self@.agrees_with(other@),
    {
        if self.major != other.major {
            return false;
        }
        match (self.minor, other.minor) {
            (Some(a), Some(b)) => {
                if a != b {
                    return false;
                }
                match (self.patch, other.patch) {
                    (Some(c), Some(d)) => c == d,
                    _ => true,
                }
            },
            _ => true,
        }
    }

    /// Whether `self` ranks strictly below `other`.
    pub fn is_below(&self, other: &Self) -> (below: bool)
        ensures
            below == self@.ranks_below(other@),
    {
        if self.major != other.major {
            return self.major < other.major;
        }
        let a = rank_of(self.minor);
        let b = rank_of(other.minor);
        if a != b {
            return a < b;
        }
        let c = rank_of(self.patch);
        let d = rank_of(other.patch);
        if c != d {
            return c < d;
        }
        match (&self.location, &other.location) {
            (None, Some(_)) => true,
            (Some(first), Some(second)) => chars_below(
                &chars_of(first.as_str()),
                &chars_of(second.as_str()),
            ),
            _ => false,
        }
    }

    /// The text form of the version.
    pub fn to_string(&self) -> (text: String)
        ensures
            text@ == self@.text(),
    {
        string_of(&self.to_chars())
    }

    /// The text form of the version, as characters.
    pub fn to_chars(&self) -> (text: Vec<char>)
        ensures
            text@ == self@.text(),
    {
        let mut text: Vec<char> = Vec::new();
        text.push('v');
        push_decimal(&mut text, self.major);
        if let Some(minor) = self.minor {
            text.push('.');
            push_decimal(&mut text, minor);
            if let Some(patch) = self.patch {
                text.push('.');
                push_decimal(&mut text, patch);
            }
        }
        text
    }

    /// Reads a version from its text form.
    pub fn from_str(version_str: &str) -> (parsed: Result<Version, ParseVersionError>)
        ensures
            parsed is Ok <==> VersionView::parse(version_str@) is Some,
            parsed is Ok ==> Some(parsed->Ok_0@) == VersionView::parse(version_str@),
            parsed is Ok ==> parsed->Ok_0@.well_formed() && parsed->Ok_0.location is None,
    {
        match Version::from_chars(&chars_of(version_str)) {
            Some(version) => Ok(version),
            None => Err(ParseVersionError),
        }
    }

    /// Reads a version from the characters of its text form.
    pub fn from_chars(text: &Vec<char>) -> (parsed: Option<Version>)
        ensures
            parsed is Some <==> VersionView::parse(text@) is Some,
            parsed is Some ==> Some(parsed->0@) == VersionView::parse(text@),
            parsed is Some ==> parsed->0@.well_formed() && parsed->0.location is None,
    {
        let body = if text.len() > 0 && text[0] == 'v' {
            slice_of(text, 1, text.len())
        } else {
            slice_of(text, 0, text.len())
        };
        assert(body@ == if text@.len() > 0 && text@[0] == 'v' {
            text@.skip(1)
        } else {
            text@
        });
        let groups = split_chars(&body, '.');
        assert(rows(groups@).len() >= 1);
        let major = match read_component(&groups[0]) {
            Some(Some(major)) => major,
            _ => { return None; },
        };
        let minor = if groups.len() > 1 {
            match read_component(&groups[1]) {
                Some(minor) => minor,
                None => { return None; },
            }
        } else {
            None
        };
        let patch = if groups.len() > 2 {
            match read_component(&groups[2]) {
                Some(patch) => patch,
                None => { return None; },
            }
        } else {
            None
        };
        Some(
            Version { major, minor, patch: if minor.is_some() {
                patch
            } else {
                None
            }, location: None },
        )
    }
}

impl std::str::FromStr for Version {
    type Err = ParseVersionError;

    /// Reads a version from its text form, as `Version::from_chars` does.
    fn from_str(version_str: &str) -> (parsed: Result<Version, ParseVersionError>) {
        match Version::from_chars(&chars_of(version_str)) {
            Some(version) => Ok(version),
            None => Err(ParseVersionError),
        }
    }
}

impl Clone for Version {
    fn clone(&self) -> (copy: Self)
        ensures
            copy == *self,
    {
        Version {
            major: self.major,
            minor: self.minor,
            patch: self.patch,
            location: match &self.location {
                Some(path) => Some(path.clone()),
                None => None,
            },
        }
    }
}

impl Default for Version {
    fn default() -> (version: Self)
        ensures
            version == (Version { major: 0, minor: None, patch: None, location: None }),
    {
        Version { major: 0, minor: None, patch: None, location: None }
    }
}

/// Matching is symmetric.
pub proof fn lemma_matches_symmetric(a: VersionView, b: VersionView)
    ensures
        a.agrees_with(b) == b.agrees_with(a),
{
}

/// Every version matches itself.
pub proof fn lemma_matches_reflexive(v: VersionView)
    ensures
        v.agrees_with(v),
{
}

/// The digits of a number make one group, which stands for the number.
proof fn lemma_component_of_decimal(n: u32)
    ensures
        component_of(decimal(n as nat)) == Some(Some(n)),
        free_of(decimal(n as nat), '.'),
{
    lemma_decimal_round_trip(n as nat);
    lemma_decimal_is_digits(n as nat);
    let digits = decimal(n as nat);
    assert forall|i: int| 0 <= i < digits.len() implies digits[i] != '.' by {
        assert(is_digit(digits[i]));
    }
}

/// Reading the text form of a version gives its components back: all of
/// them where the version is well formed, and in any case a version with
/// the same text form.
pub proof fn lemma_text_round_trip(v: VersionView)
    ensures
        VersionView::parse(v.text()) is Some,
        VersionView::parse(v.text())->0.text() == v.text(),
        VersionView::parse(v.text())->0.major == v.major,
        VersionView::parse(v.text())->0.minor == v.minor,
        v.well_formed() ==> VersionView::parse(v.text())->0.patch == v.patch,
        VersionView::parse(v.text())->0.location is None,
{
    let major = decimal(v.major as nat);
    let text = v.text();
    lemma_component_of_decimal(v.major);
    match v.minor {
        None => {
            assert(text.skip(1) == major);
            lemma_split_whole(major, '.');
        },
        Some(m) => {
            let minor = decimal(m as nat);
            lemma_component_of_decimal(m);
            match v.patch {
                None => {
                    assert(text.skip(1) == major.push('.') + minor);
                    lemma_split_first(major, minor, '.');
                    lemma_split_whole(minor, '.');
                },
                Some(p) => {
                    let patch = decimal(p as nat);
                    lemma_component_of_decimal(p);
                    assert(text.skip(1) == major.push('.') + (minor.push('.') + patch));
                    lemma_split_first(major, minor.push('.') + patch, '.');
                    lemma_split_first(minor, patch, '.');
                    lemma_split_whole(patch, '.');
                },
            }
        },
    }
}

/// The first segment of the search path `path` that lies in the managed
/// installation below `home`.
pub open spec fn managed_segment(path: Seq<char>, home: Seq<char>) -> Option<Seq<char>> {
    let managed = split(path, ':').filter(
        |segment: Seq<char>| dot_nvm_home(home).is_prefix_of(segment),
    );
    if managed.len() > 0 {
        Some(managed[0])
    } else {
        None
    }
}

/// The name of the directory above the last one of the path `dir`, among
/// the names that are not empty.
pub open spec fn version_name(dir: Seq<char>) -> Option<Seq<char>> {
    let names = split(dir, '/').filter(|name: Seq<char>| name.len() > 0);
    if names.len() >= 2 {
        Some(names[names.len() - 2])
    } else {
        None
    }
}

/// The managed version that the search path `path` puts first: the one
/// that the directory above the last one of the first managed segment
/// names. Its location is that segment without its last four characters,
/// the directory `/bin`.
pub open spec fn current_version(path: Seq<char>, home: Seq<char>) -> Option<VersionView> {
    match managed_segment(path, home) {
        Some(dir) => match version_name(dir) {
            Some(name) => match VersionView::parse(name) {
                Some(version) => Some(
                    VersionView { location: Some(dir.take(dir.len() - 4)), ..version },
                ),
                None => None,
            },
            None => None,
        },
        None => None,
    }
}

/// The position of the first of `segments` that begins with `prefix`.
fn first_with_prefix(segments: &Vec<Vec<char>>, prefix: &Vec<char>) -> (first: Option<usize>)
    ensures
        match first {
            Some(at) => {
                &&& at < segments.len()
                &&& rows(segments@).filter(|segment: Seq<char>| prefix@.is_prefix_of(segment)).len()
                    > 0
                &&& rows(segments@).filter(|segment: Seq<char>| prefix@.is_prefix_of(segment))[0]
                    == segments@[at as int]@
            },
            None => rows(segments@).filter(|segment: Seq<char>| prefix@.is_prefix_of(segment)).len()
                == 0,
        },
{
    let ghost all = rows(segments@);
    let ghost keep = |segment: Seq<char>| prefix@.is_prefix_of(segment);
    let mut i: usize = 0;
    proof {
        assert(all.take(0).filter(keep).len() == 0) by {
            reveal(Seq::filter);
        }
    }
    while i < segments.len()
        invariant
            i <= segments.len(),
            all == rows(segments@),
            keep == |segment: Seq<char>| prefix@.is_prefix_of(segment),
            all.take(i as int).filter(keep).len() == 0,
        decreases segments.len() - i,
    {
        proof {
            all.take(i as int).lemma_filter_push(all[i as int], keep);
            assert(all.take(i + 1) == all.take(i as int).push(all[i as int]));
        }
        if starts_with(&segments[i], prefix) {
            proof {
                let upto = all.take(i + 1);
                let rest = all.skip(i + 1);
                assert(all == upto + rest);
                Seq::filter_distributes_over_add(upto, rest, keep);
            }
            return Some(i);
        }
        i += 1;
    }
    assert(all.take(segments.len() as int) == all);
    None
}

/// The names of `names` that are not empty, in their order.
fn without_empty(names: &Vec<Vec<char>>) -> (kept: Vec<Vec<char>>)
    ensures
        rows(kept@) == rows(names@).filter(|name: Seq<char>| name.len() > 0),
{
    let ghost all = rows(names@);
    let ghost keep = |name: Seq<char>| name.len() > 0;
    let mut kept: Vec<Vec<char>> = Vec::new();
    let mut i: usize = 0;
    proof {
        assert(all.take(0).filter(keep) == Seq::<Seq<char>>::empty()) by {
            reveal(Seq::filter);
        }
    }
    while i < names.len()
        invariant
            i <= names.len(),
            all == rows(names@),
            keep == |name: Seq<char>| name.len() > 0,
            rows(kept@) == all.take(i as int).filter(keep),
        decreases names.len() - i,
    {
        proof {
            all.take(i as int).lemma_filter_push(all[i as int], keep);
            assert(all.take(i + 1) == all.take(i as int).push(all[i as int]));
        }
        if names[i].len() > 0 {
            let ghost before = rows(kept@);
            let name = slice_of(&names[i], 0, names[i].len());
            assert(name@ == all[i as int]);
            kept.push(name);
            assert(rows(kept@) == before.push(name@));
        }
        i += 1;
    }
    assert(all.take(names.len() as int) == all);
    kept
}

/// Tells from the search path `path` which managed version is in use, with
/// the managed installation below `home`. `None` means that the runtime
/// of the system is in use.
pub fn find_current_version(path: &str, home: &str) -> (current: Option<Version>)
    ensures
        current is Some <==> current_version(path@, home@) is Some,
        current is Some ==> Some(current->0@) == current_version(path@, home@),
        current is Some ==> current->0@.well_formed() && current->0.location is Some,
{
    let mut prefix = chars_of(home);
    push_str(&mut prefix, "/.nvm/");
    let segments = split_chars(&chars_of(path), ':');
    let at = match first_with_prefix(&segments, &prefix) {
        Some(at) => at,
        None => { return None; },
    };
    let dir = &segments[at];
    assert(managed_segment(path@, home@) == Some(dir@));
    let names = without_empty(&split_chars(dir, '/'));
    if names.len() < 2 {
        return None;
    }
    let name = &names[names.len() - 2];
    assert(version_name(dir@) == Some(name@));
    match Version::from_chars(name) {
        Some(version) => {
            proof {
                reveal_strlit("/.nvm/");
                assert(dir@.len() >= prefix@.len() >= 6);
            }
            let location = slice_of(dir, 0, dir.len() - 4);
            Some(
                Version {
                    major: version.major,
                    minor: version.minor,
                    patch: version.patch,
                    location: Some(string_of(&location)),
                },
            )
        },
        None => None,
    }
}

/// The directories in which the version with the text form `name` may be
/// installed below `home`, the one to look in first standing first.
pub open spec fn install_dirs(home: Seq<char>, name: Seq<char>) -> Seq<Seq<char>> {
    lookup_dirs().map_values(|dir: Seq<char>| below(below(home, dir), name))
}

/// The directories in which `version` may be installed below `home`, the
/// one to look in first standing first.
pub fn version_dirs(version: &Version, home: &str) -> (dirs: Vec<String>)
    ensures
        lines(dirs@) == install_dirs(home@, version@.text()),
{
    let name = version.to_chars();
    let mut dirs: Vec<String> = Vec::new();
    dirs.push(dir_for(home, NVM_VERSION_DIR_OLD, &name));
    dirs.push(dir_for(home, NVM_VERSION_DIR_NEW, &name));
    dirs.push(dir_for(home, NVM_VERSION_DIR_OLD_IOJS, &name));
    dirs.push(dir_for(home, NVM_VERSION_DIR_NEW_IOJS, &name));
    dirs
}

/// The directory `name` in the directory `root` below `home`.
fn dir_for(home: &str, root: &str, name: &Vec<char>) -> (dir: String)
    ensures
        dir@ == below(below(home@, root@), name@),
{
    let mut dir = chars_of(home);
    dir.push('/');
    push_str(&mut dir, root);
    dir.push('/');
    push_chars(&mut dir, name);
    string_of(&dir)
}

/// Finds a version that names all its components: `dirs` are the
/// directories in which it may be installed, and `is_dir` tells of each, in
/// the same order, whether it is there. The first that is there becomes the
/// location; the components are those of `version`.
pub fn find_full_version(version: &Version, dirs: &Vec<String>, is_dir: &Vec<bool>) -> (found:
    Option<Version>)
    ensures
        found is Some <==> exists|i: int| 0 <= i < dirs.len() && i < is_dir.len() && is_dir[i],
        found matches Some(installed) ==> {
            &&& installed.major == version.major
            &&& installed.minor == version.minor
            &&& installed.patch == version.patch
            &&& exists|i: int|
                {
                    &&& 0 <= i < dirs.len() && i < is_dir.len() && is_dir[i]
                    &&& forall|j: int| 0 <= j < i ==> !is_dir[j]
                    &&& installed@.location == Some(dirs[i]@)
                }
        },
{
    let mut i: usize = 0;
    while i < dirs.len() && i < is_dir.len()
        invariant
            forall|j: int| 0 <= j < i ==> !is_dir[j],
        decreases dirs.len() - i,
    {
        if is_dir[i] {
            return Some(
                Version {
                    major: version.major,
                    minor: version.minor,
                    patch: version.patch,
                    location: Some(dirs[i].clone()),
                },
            );
        }
        i += 1;
    }
    None
}

/// The newest of the installed versions that match `target`.
pub open spec fn newest_match(target: VersionView, installed: Seq<VersionView>) -> Option<
    VersionView,
> {
    let matching = installed.filter(|candidate: VersionView| target.agrees_with(candidate));
    if matching.len() > 0 {
        Some(ranked(matching).last())
    } else {
        None
    }
}

/// Finds the newest of the installed versions that match `version`.
pub fn find_partial_version(version: &Version, installed: &Vec<Version>) -> (found: Option<Version>)
    ensures
        found is Some <==> newest_match(version@, views(installed@)) is Some,
        found is Some ==> Some(found->0@) == newest_match(version@, views(installed@)),
{
    let ghost all = views(installed@);
    let ghost keep = |candidate: VersionView| version@.agrees_with(candidate);
    let mut matching: Vec<Version> = Vec::new();
    let mut i: usize = 0;
    proof {
        assert(all.take(0).filter(keep) == Seq::<VersionView>::empty()) by {
            reveal(Seq::filter);
        }
    }
    while i < installed.len()
        invariant
            i <= installed.len(),
            all == views(installed@),
            keep == |candidate: VersionView| version@.agrees_with(candidate),
            views(matching@) == all.take(i as int).filter(keep),
        decreases installed.len() - i,
    {
        proof {
            all.take(i as int).lemma_filter_push(all[i as int], keep);
            assert(all.take(i + 1) == all.take(i as int).push(all[i as int]));
        }
        if version.matches(&installed[i]) {
            let ghost before = views(matching@);
            let candidate = installed[i].clone();
            matching.push(candidate);
            assert(views(matching@) == before.push(candidate@));
        }
        i += 1;
    }
    assert(all.take(installed.len() as int) == all);
    let ascending = rank(&matching);
    proof {
        lemma_ranked(views(matching@));
        assert(views(ascending@).len() == ascending.len());
        assert(views(matching@).len() == matching.len());
    }
    if ascending.len() > 0 {
        let newest = ascending[ascending.len() - 1].clone();
        assert(newest@ == views(ascending@).last());
        Some(newest)
    } else {
        None
    }
}

/// Finds the installed version that `version` asks for, below `home`.
///
/// A version that names all its components is looked up by its
/// directory: `is_dir` tells of each directory of `version_dirs`, in the
/// same order, whether it is there, and the first that is there is the
/// location. The answer then has the very components of `version`. Any
/// other version is matched against `installed`, of which the newest match
/// is the answer.
pub fn find_version(
    version: &Version,
    home: &str,
    is_dir: &Vec<bool>,
    installed: &Vec<Version>,
) -> (found: Option<Version>)
    ensures
        version@.full() ==> {
            let dirs = install_dirs(home@, version@.text());
            &&& found is Some <==> exists|i: int|
                0 <= i < dirs.len() && i < is_dir.len() && is_dir[i]
            &&& found matches Some(installed) ==> {
                &&& installed.major == version.major
                &&& installed.minor == version.minor
                &&& installed.patch == version.patch
                &&& exists|i: int|
                    {
                        &&& 0 <= i < dirs.len() && i < is_dir.len() && is_dir[i]
                        &&& forall|j: int| 0 <= j < i ==> !is_dir[j]
                        &&& installed@.location == Some(dirs[i])
                    }
            }
        },
        !version@.full() ==> {
            &&& found is Some <==> newest_match(version@, views(installed@)) is Some
            &&& found is Some ==> Some(found->0@) == newest_match(version@, views(installed@))
        },
{
    if version.is_full() {
        let dirs = version_dirs(version, home);
        assert(lines(dirs@).len() == dirs.len());
        let found = find_full_version(version, &dirs, is_dir);
        proof {
            if found is Some {
                let i = choose|i: int|
                    {
                        &&& 0 <= i < dirs.len() && i < is_dir.len() && is_dir[i]
                        &&& forall|j: int| 0 <= j < i ==> !is_dir[j]
                        &&& found->0@.location == Some(dirs[i]@)
                    };
                assert(lines(dirs@)[i] == dirs[i]@);
            }
        }
        found
    } else {
        find_partial_version(version, installed)
    }
}

/// The newest match is one of the installed versions, it matches the
/// target, and no installed version that matches ranks above it.
pub proof fn lemma_newest_match(target: VersionView, installed: Seq<VersionView>)
    requires
        newest_match(target, installed) is Some,
    ensures
        installed.contains(newest_match(target, installed)->0),
        target.agrees_with(newest_match(target, installed)->0),
        forall|i: int|
            0 <= i < installed.len() && target.agrees_with(#[trigger] installed[i])
                ==> !newest_match(target, installed)->0.ranks_below(installed[i]),
{
    let keep = |candidate: VersionView| target.agrees_with(candidate);
    let matching = installed.filter(keep);
    let newest = ranked(matching).last();
    lemma_ranked_last_is_highest(matching);
    let at = choose|at: int| 0 <= at < matching.len() && matching[at] == newest;
    installed.lemma_filter_pred(keep, at);
    installed.lemma_filter_contains_rev(keep, newest);
    assert forall|i: int|
        0 <= i < installed.len() && target.agrees_with(
            #[trigger] installed[i],
        ) implies !newest.ranks_below(installed[i]) by {
        installed.lemma_filter_contains(keep, i);
        let k = choose|k: int| 0 <= k < matching.len() && matching[k] == installed[i];
        assert(!newest.ranks_below(matching[k]));
    }
}

/// A component as a number for ranking.
fn rank_of(c: Option<u32>) -> (rank: i64)
    ensures
        rank == component_rank(c),
{
    match c {
        Some(n) => n as i64,
        None => -1,
    }
}

/// Reads one group of a version's text.
fn read_component(group: &Vec<char>) -> (c: Option<Option<u32>>)
    ensures
        c == component_of(group@),
{
    if group.len() == 0 {
        Some(None)
    } else {
        match parse_decimal(group, 0xffff_ffff) {
            Some(n) => Some(Some(n as u32)),
            None => None,
        }
    }
}

} // verus!

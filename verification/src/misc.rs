//! The directories that hold installed versions, and what they list.

use vstd::prelude::*;
use crate::text::{chars_of, lines, push_str, string_of};
use crate::version::{views, Version, VersionView};

verus! {

/// The directory of the older layout, below the home directory.
pub const NVM_VERSION_DIR_OLD: &'static str = ".nvm";

/// The directory of the newer layout, below the home directory.
pub const NVM_VERSION_DIR_NEW: &'static str = ".nvm/versions/node";

/// The directory of the older layout for io.js.
pub const NVM_VERSION_DIR_OLD_IOJS: &'static str = ".nvm/io.js";

/// The directory of the newer layout for io.js.
pub const NVM_VERSION_DIR_NEW_IOJS: &'static str = ".nvm/versions/io.js";

/// The first major version that was released as io.js.
pub const IOJS_MIN_MAJOR: u32 = 1;

/// The first major version after those released as io.js.
pub const IOJS_MAX_MAJOR: u32 = 4;

/// The path of `dir` below `home`.
pub open spec fn below(home: Seq<char>, dir: Seq<char>) -> Seq<char> {
    home.push('/') + dir
}

/// The beginning of every path in the managed installation below `home`.
pub open spec fn dot_nvm_home(home: Seq<char>) -> Seq<char> {
    home + "/.nvm/"@
}

/// The directories below the home directory in which one version is looked
/// for, the one to look in first standing first.
pub open spec fn lookup_dirs() -> Seq<Seq<char>> {
    seq![
        NVM_VERSION_DIR_OLD@,
        NVM_VERSION_DIR_NEW@,
        NVM_VERSION_DIR_OLD_IOJS@,
        NVM_VERSION_DIR_NEW_IOJS@,
    ]
}

/// Whether a version with this major component was released as io.js.
pub open spec fn iojs_band(major: u32) -> bool {
    IOJS_MIN_MAJOR <= major < IOJS_MAX_MAJOR
}

/// Whether the version was released as io.js.
pub fn is_iojs(version: &Version) -> (iojs: bool)
    ensures
        iojs == iojs_band(version.major),
{
    IOJS_MIN_MAJOR <= version.major && version.major < IOJS_MAX_MAJOR
}

/// The name under which the version's runtime was released.
pub fn get_runtime_name(version: &Version) -> (name: &'static str)
    ensures
        name@ == if iojs_band(version.major) {
            "io.js"@
        } else {
            "node"@
        },
{
    if is_iojs(version) {
        "io.js"
    } else {
        "node"
    }
}

/// Which runtimes to list.
#[derive(Clone, Copy, Debug, PartialEq, Eq)]
pub enum ListingType {
    Node,
    Iojs,
    Both,
}

/// The directories below the home directory that are read for a listing,
/// in the order in which they are read.
pub open spec fn listing_dirs(listing_type: ListingType) -> Seq<Seq<char>> {
    match listing_type {
        ListingType::Node => seq![NVM_VERSION_DIR_OLD@, NVM_VERSION_DIR_NEW@],
        ListingType::Iojs => seq![NVM_VERSION_DIR_NEW_IOJS@, NVM_VERSION_DIR_OLD_IOJS@],
        ListingType::Both => seq![
            NVM_VERSION_DIR_OLD@,
            NVM_VERSION_DIR_NEW@,
            NVM_VERSION_DIR_NEW_IOJS@,
            NVM_VERSION_DIR_OLD_IOJS@,
        ],
    }
}

/// The path of `dir` below `home`.
pub fn path_below(home: &str, dir: &str) -> (path: String)
    ensures
        path@ == below(home@, dir@),
{
    let mut path = chars_of(home);
    path.push('/');
    push_str(&mut path, dir);
    string_of(&path)
}

/// The directories to read for a listing, in order.
pub fn listing_roots(listing_type: ListingType, home: &str) -> (roots: Vec<String>)
    ensures
        lines(roots@) == listing_dirs(listing_type).map_values(|dir: Seq<char>| below(home@, dir)),
{
    let mut roots: Vec<String> = Vec::new();
    match listing_type {
        ListingType::Node => {
            roots.push(path_below(home, NVM_VERSION_DIR_OLD));
            roots.push(path_below(home, NVM_VERSION_DIR_NEW));
        },
        ListingType::Iojs => {
            roots.push(path_below(home, NVM_VERSION_DIR_NEW_IOJS));
            roots.push(path_below(home, NVM_VERSION_DIR_OLD_IOJS));
        },
        ListingType::Both => {
            roots.push(path_below(home, NVM_VERSION_DIR_OLD));
            roots.push(path_below(home, NVM_VERSION_DIR_NEW));
            roots.push(path_below(home, NVM_VERSION_DIR_NEW_IOJS));
            roots.push(path_below(home, NVM_VERSION_DIR_OLD_IOJS));
        },
    }
    roots
}

/// One entry of a directory, as it was read.
#[derive(Debug, PartialEq, Eq)]
pub struct Entry {
    /// The name of the entry in its directory.
    pub name: String,
    /// The full path of the entry.
    pub path: String,
    /// Whether the entry is a directory.
    pub is_dir: bool,
}

/// The mathematical value of an `Entry`.
pub struct EntryView {
    pub name: Seq<char>,
    pub path: Seq<char>,
    pub is_dir: bool,
}

impl View for Entry {
    type V = EntryView;

    open spec fn view(&self) -> EntryView {
        EntryView { name: self.name@, path: self.path@, is_dir: self.is_dir }
    }
}

/// A directory that was read, with its entries in the order in which they
/// came; `None` for a directory that could not be read.
pub type Listing = Option<Vec<Entry>>;

/// The value of a listing.
pub open spec fn listing_view(listing: Listing) -> Option<Seq<EntryView>> {
    match listing {
        Some(entries) => Some(Seq::new(entries@.len(), |i: int| entries@[i]@)),
        None => None,
    }
}

/// The values of the listings of `listings`.
pub open spec fn listing_views(listings: Seq<Listing>) -> Seq<Option<Seq<EntryView>>> {
    Seq::new(listings.len(), |i: int| listing_view(listings[i]))
}

/// The installed version that an entry stands for: the entry is a
/// directory, its name begins with `v` and spells a version, and the
/// version's location is the entry's path.
pub open spec fn entry_version(entry: EntryView) -> Option<VersionView> {
    if entry.is_dir && entry.name.len() > 0 && entry.name[0] == 'v' {
        match VersionView::parse(entry.name) {
            Some(version) => Some(VersionView { location: Some(entry.path), ..version }),
            None => None,
        }
    } else {
        None
    }
}

/// The installed versions of one directory, in the order of its entries.
pub open spec fn listed_versions(listing: Option<Seq<EntryView>>) -> Seq<VersionView> {
    match listing {
        Some(entries) => entries.filter_map(|entry: EntryView| entry_version(entry)),
        None => Seq::empty(),
    }
}

/// The installed versions of all the directories, one directory after the
/// other.
pub open spec fn installed_versions(listings: Seq<Option<Seq<EntryView>>>) -> Seq<VersionView> {
    listings.flat_map(|listing: Option<Seq<EntryView>>| listed_versions(listing))
}

/// Whether one of the directories could be read.
pub open spec fn any_readable(listings: Seq<Option<Seq<EntryView>>>) -> bool {
    exists|i: int| 0 <= i < listings.len() && listings[i] is Some
}

/// None of the directories that hold installed versions could be read.
#[derive(Debug, PartialEq, Eq)]
pub struct NoReadableRoot;

/// The installed version that an entry stands for, if any.
pub fn version_of_entry(entry: &Entry) -> (version: Option<Version>)
    ensures
        version is Some <==> entry_version(entry@) is Some,
        version is Some ==> Some(version->0@) == entry_version(entry@),
        version is Some ==> version->0@.well_formed() && version->0.location is Some,
{
    if !entry.is_dir {
        return None;
    }
    let name = chars_of(entry.name.as_str());
    if name.len() == 0 || name[0] != 'v' {
        return None;
    }
    match Version::from_chars(&name) {
        Some(version) => Some(
            Version {
                major: version.major,
                minor: version.minor,
                patch: version.patch,
                location: Some(entry.path.clone()),
            },
        ),
        None => None,
    }
}

/// The installed versions that the listings of the version directories
/// show, one directory after the other and each in the order of its
/// entries. Fails where no directory could be read.
pub fn list_all_nvm_versions(listings: &Vec<Listing>) -> (found: Result<Vec<Version>, NoReadableRoot>)
    ensures
        found is Ok <==> any_readable(listing_views(listings@)),
        found is Ok ==> views(found->Ok_0@) == installed_versions(listing_views(listings@)),
{
    let ghost all = listing_views(listings@);
    let ghost per_root = |listing: Option<Seq<EntryView>>| listed_versions(listing);
    let ghost per_entry = |entry: EntryView| entry_version(entry);
    let mut versions: Vec<Version> = Vec::new();
    let mut readable = false;
    let mut i: usize = 0;
    assert(all.take(0).flat_map(per_root) == Seq::<VersionView>::empty());
    while i < listings.len()
        invariant
            i <= listings.len(),
            all == listing_views(listings@),
            per_root == |listing: Option<Seq<EntryView>>| listed_versions(listing),
            per_entry == |entry: EntryView| entry_version(entry),
            readable <==> exists|j: int| 0 <= j < i && all[j] is Some,
            views(versions@) == all.take(i as int).flat_map(per_root),
        decreases listings.len() - i,
    {
        let ghost before = views(versions@);
        proof {
            all.lemma_flat_map_take_append(per_root, i as int);
        }
        match &listings[i] {
            Some(entries) => {
                readable = true;
                let ghost shown = all[i as int]->0;
                let mut k: usize = 0;
                assert(shown.take(0).filter_map(per_entry) == Seq::<VersionView>::empty());
                while k < entries.len()
                    invariant
                        k <= entries.len(),
                        shown.len() == entries.len(),
                        forall|j: int| 0 <= j < entries.len() ==> shown[j] == entries@[j]@,
                        per_entry == |entry: EntryView| entry_version(entry),
                        views(versions@) == before + shown.take(k as int).filter_map(per_entry),
                    decreases entries.len() - k,
                {
                    proof {
                        shown.lemma_filter_map_take_succ(per_entry, k as int);
                    }
                    let ghost so_far = views(versions@);
                    if let Some(version) = version_of_entry(&entries[k]) {
                        versions.push(version);
                        assert(views(versions@) == so_far.push(version@));
                    }
                    k += 1;
                }
                assert(shown.take(entries.len() as int) == shown);
            },
            None => {},
        }
        i += 1;
    }
    assert(all.take(listings.len() as int) == all);
    if readable {
        Ok(versions)
    } else {
        Err(NoReadableRoot)
    }
}

} // verus!

//! Pins: the text of a pin file, and what it resolves to.
//!
//! A pin may name an alias, a file whose content is a pin again. Reading
//! files is left to the caller: `resolve_nvmrc_version` resolves one pin as
//! far as it can without reading, and says what is to be read next.

use vstd::prelude::*;
use crate::decimal::{number, parse_decimal};
use crate::ranking::{lemma_ranked, lemma_ranked_last_is_highest, rank, ranked};
use crate::text::{
    chars_of,
    lines,
    push_chars,
    push_str,
    slice_of,
    spells,
    starts_with,
    string_of,
    trim,
    trim_chars,
};
use crate::version::{views, NodeVersion, NodeVersionView, Version, VersionView};

verus! {

/// A pin file larger than this many bytes is not read.
pub const MAX_NVMRC_FILE_SIZE: u64 = 32;

/// The greatest depth at which a pin is still resolved: the number of
/// aliases that may be followed from the first pin.
pub const MAX_RECURSIVE_DEREF: u32 = 5;

/// What the search for a pin file does after it has looked for the file in
/// one directory.
#[derive(Clone, Copy, Debug, PartialEq, Eq)]
pub enum SearchStep {
    /// The file of this directory is the pin file.
    Found,
    /// There is no pin file.
    Abandon,
    /// The search goes on in the directory above; `last` tells whether
    /// that is the last directory to search.
    Ascend { last: bool },
}

/// What the search does after one directory. `size` is the size in bytes
/// of the pin file there, if there is one. `last` tells whether the
/// directory is the last to search, and `above_is_top` whether the
/// directory above has none above it.
///
/// The first file that is there ends the search: it is the pin file where
/// it is no larger than `MAX_NVMRC_FILE_SIZE`, and else there is none.
pub open spec fn search_step(size: Option<u64>, last: bool, above_is_top: bool) -> SearchStep {
    match size {
        Some(bytes) => if bytes <= MAX_NVMRC_FILE_SIZE {
            SearchStep::Found
        } else {
            SearchStep::Abandon
        },
        None => if last {
            SearchStep::Abandon
        } else {
            SearchStep::Ascend { last: above_is_top }
        },
    }
}

/// Decides what the search for a pin file does after one directory.
pub fn find_nvmrc_step(size: Option<u64>, last: bool, above_is_top: bool) -> (step: SearchStep)
    ensures
        step == search_step(size, last, above_is_top),
{
    match size {
        Some(bytes) => if bytes <= MAX_NVMRC_FILE_SIZE {
            SearchStep::Found
        } else {
            SearchStep::Abandon
        },
        None => if last {
            SearchStep::Abandon
        } else {
            SearchStep::Ascend { last: above_is_top }
        },
    }
}

/// How far one pin could be resolved without reading anything.
#[derive(Debug, PartialEq, Eq)]
pub enum Resolution {
    /// The pin is resolved.
    Resolved(NodeVersion),
    /// The pin names an alias: the content of the file at `path` is the
    /// pin to resolve next, at depth `depth`.
    Alias { path: String, depth: u32 },
    /// The pin names a line of long-term support by its distance from the
    /// most recent one: the alias files in `dir` are to be read, and
    /// `select_relative_lts` picks the version.
    RelativeLts { dir: String, offset: usize },
    /// The pin names the newest installed version: the installed versions
    /// are to be listed, and `newest_installed` picks the version.
    Newest,
}

/// The mathematical value of a `Resolution`.
pub enum ResolutionView {
    Resolved(NodeVersionView),
    Alias { path: Seq<char>, depth: u32 },
    RelativeLts { dir: Seq<char>, offset: usize },
    Newest,
}

impl View for Resolution {
    type V = ResolutionView;

    open spec fn view(&self) -> ResolutionView {
        match self {
            Resolution::Resolved(version) => ResolutionView::Resolved(version@),
            Resolution::Alias { path, depth } => ResolutionView::Alias {
                path: path@,
                depth: *depth,
            },
            Resolution::RelativeLts { dir, offset } => ResolutionView::RelativeLts {
                dir: dir@,
                offset: *offset,
            },
            Resolution::Newest => ResolutionView::Newest,
        }
    }
}

/// Why a pin does not resolve.
#[derive(Clone, Copy, Debug, PartialEq, Eq)]
pub enum ResolveError {
    /// More aliases were followed than `MAX_RECURSIVE_DEREF` allows.
    DepthExceeded,
    /// The distance of a relative pin is no number.
    InvalidRelative,
    /// The pin is no alias and no version.
    InvalidVersion,
    /// No version is there to choose.
    NotFound,
}

/// The distance that the text after `lts/-` spells: digits, after at most
/// one `+`.
pub open spec fn relative_offset(text: Seq<char>) -> Option<nat> {
    if text.len() > 0 && text[0] == '+' {
        number(text.skip(1))
    } else {
        number(text)
    }
}

/// The directory of the alias files for long-term support, below `home`.
pub open spec fn lts_alias_dir(home: Seq<char>) -> Seq<char> {
    home + "/.nvm/alias/lts"@
}

/// The alias file of the default version, below `home`.
pub open spec fn default_alias_file(home: Seq<char>) -> Seq<char> {
    home + "/.nvm/alias/default"@
}

/// How far the pin `contents`, met at depth `depth`, resolves without
/// reading anything. The depth is tested first, then the pin is trimmed and
/// read: as a relative or named line of long-term support, as one of the
/// words `node`, `stable`, `default` and `system`, or else as a version.
pub open spec fn resolve_step(contents: Seq<char>, depth: u32, home: Seq<char>) -> Result<
    ResolutionView,
    ResolveError,
> {
    let pin = trim(contents);
    if depth > MAX_RECURSIVE_DEREF {
        Err(ResolveError::DepthExceeded)
    } else if "lts/"@.is_prefix_of(pin) {
        let name = pin.skip("lts/"@.len() as int);
        if name.len() > 0 && name[0] == '-' {
            match relative_offset(name.skip(1)) {
                Some(offset) => if offset <= usize::MAX {
                    Ok(
                        ResolutionView::RelativeLts {
                            dir: lts_alias_dir(home),
                            offset: offset as usize,
                        },
                    )
                } else {
                    Err(ResolveError::InvalidRelative)
                },
                None => Err(ResolveError::InvalidRelative),
            }
        } else {
            Ok(
                ResolutionView::Alias {
                    path: lts_alias_dir(home).push('/') + trim(name),
                    depth: (depth + 1) as u32,
                },
            )
        }
    } else if pin == "node"@ || pin == "stable"@ {
        Ok(ResolutionView::Newest)
    } else if pin == "default"@ {
        Ok(ResolutionView::Alias { path: default_alias_file(home), depth: (depth + 1) as u32 })
    } else if pin == "system"@ {
        Ok(ResolutionView::Resolved(NodeVersionView::System))
    } else {
        match VersionView::parse(pin) {
            Some(version) => Ok(
                ResolutionView::Resolved(NodeVersionView::NvmVersion(Some(version))),
            ),
            None => Err(ResolveError::InvalidVersion),
        }
    }
}

/// Resolves the pin `contents`, met after `recursion_depth` aliases, as
/// far as that takes no reading, with the installation below `home`.
pub fn resolve_nvmrc_version(contents: &str, recursion_depth: u32, home: &str) -> (step: Result<
    Resolution,
    ResolveError,
>)
    ensures
        match resolve_step(contents@, recursion_depth, home@) {
            Ok(resolution) => step is Ok && step->Ok_0@ == resolution,
            Err(error) => step == Err::<Resolution, ResolveError>(error),
        },
{
    if recursion_depth > MAX_RECURSIVE_DEREF {
        return Err(ResolveError::DepthExceeded);
    }
    let pin = trim_chars(&chars_of(contents));
    let lts = chars_of("lts/");
    if starts_with(&pin, &lts) {
        let name = slice_of(&pin, lts.len(), pin.len());
        assert(name@ == pin@.skip("lts/"@.len() as int));
        if name.len() > 0 && name[0] == '-' {
            let signed = slice_of(&name, 1, name.len());
            let digits = if signed.len() > 0 && signed[0] == '+' {
                slice_of(&signed, 1, signed.len())
            } else {
                signed
            };
            assert(name@.skip(1) == name@.subrange(1, name@.len() as int));
            assert(relative_offset(name@.skip(1)) == number(digits@));
            return match parse_decimal(&digits, usize::MAX as u64) {
                Some(offset) => {
                    let mut dir = chars_of(home);
                    push_str(&mut dir, "/.nvm/alias/lts");
                    Ok(Resolution::RelativeLts { dir: string_of(&dir), offset: offset as usize })
                },
                None => Err(ResolveError::InvalidRelative),
            };
        }
        let mut path = chars_of(home);
        push_str(&mut path, "/.nvm/alias/lts");
        path.push('/');
        push_chars(&mut path, &trim_chars(&name));
        return Ok(Resolution::Alias { path: string_of(&path), depth: recursion_depth + 1 });
    }
    if spells(&pin, "node") || spells(&pin, "stable") {
        return Ok(Resolution::Newest);
    }
    if spells(&pin, "default") {
        let mut path = chars_of(home);
        push_str(&mut path, "/.nvm/alias/default");
        return Ok(Resolution::Alias { path: string_of(&path), depth: recursion_depth + 1 });
    }
    if spells(&pin, "system") {
        return Ok(Resolution::Resolved(NodeVersion::System));
    }
    match Version::from_chars(&pin) {
        Some(version) => Ok(Resolution::Resolved(NodeVersion::NvmVersion(Some(version)))),
        None => Err(ResolveError::InvalidVersion),
    }
}

/// What the pin `pin`, met at depth `depth`, comes to when every alias is
/// followed, where `files` gives the content of the file at each path.
pub open spec fn resolve_through(
    pin: Seq<char>,
    depth: u32,
    home: Seq<char>,
    files: spec_fn(Seq<char>) -> Seq<char>,
) -> Result<ResolutionView, ResolveError>
    decreases MAX_RECURSIVE_DEREF + 1 - depth,
{
    match resolve_step(pin, depth, home) {
        Ok(ResolutionView::Alias { path, depth: next }) => resolve_through(
            files(path),
            next,
            home,
            files,
        ),
        other => other,
    }
}

/// Following aliases ends: whatever the files hold, the outcome is an
/// error or a resolution that names no further alias.
pub proof fn lemma_resolution_ends(
    pin: Seq<char>,
    depth: u32,
    home: Seq<char>,
    files: spec_fn(Seq<char>) -> Seq<char>,
)
    ensures
        !(resolve_through(pin, depth, home, files) matches Ok(ResolutionView::Alias { .. })),
    decreases MAX_RECURSIVE_DEREF + 1 - depth,
{
    match resolve_step(pin, depth, home) {
        Ok(ResolutionView::Alias { path, depth: next }) => {
            lemma_resolution_ends(files(path), next, home, files);
        },
        _ => {},
    }
}

/// A chain of aliases longer than `MAX_RECURSIVE_DEREF` is cut: where each
/// of the pins `chain[0]` to `chain[MAX_RECURSIVE_DEREF]` names an alias
/// whose file holds the next pin, resolving the first pin fails with
/// `DepthExceeded`.
pub proof fn lemma_alias_chain_is_cut(
    chain: Seq<Seq<char>>,
    home: Seq<char>,
    files: spec_fn(Seq<char>) -> Seq<char>,
)
    requires
        chain.len() > MAX_RECURSIVE_DEREF + 1,
        forall|i: int|
            0 <= i <= MAX_RECURSIVE_DEREF ==> (#[trigger] resolve_step(chain[i], i as u32, home)
                matches Ok(ResolutionView::Alias { path, .. }) && files(path) == chain[i + 1]),
    ensures
        resolve_through(chain[0], 0, home, files) == Err::<ResolutionView, ResolveError>(
            ResolveError::DepthExceeded,
        ),
{
    lemma_chain_from(chain, home, files, 0);
}

/// The same, from any pin of the chain on.
proof fn lemma_chain_from(
    chain: Seq<Seq<char>>,
    home: Seq<char>,
    files: spec_fn(Seq<char>) -> Seq<char>,
    at: int,
)
    requires
        chain.len() > MAX_RECURSIVE_DEREF + 1,
        0 <= at <= MAX_RECURSIVE_DEREF + 1,
        forall|i: int|
            0 <= i <= MAX_RECURSIVE_DEREF ==> (#[trigger] resolve_step(chain[i], i as u32, home)
                matches Ok(ResolutionView::Alias { path, .. }) && files(path) == chain[i + 1]),
    ensures
        resolve_through(chain[at], at as u32, home, files) == Err::<ResolutionView, ResolveError>(
            ResolveError::DepthExceeded,
        ),
    decreases MAX_RECURSIVE_DEREF + 1 - at,
{
    if at <= MAX_RECURSIVE_DEREF {
        assert(resolve_step(chain[at], at as u32, home) is Ok);
        lemma_chain_from(chain, home, files, at + 1);
    }
}

/// The alias files to read for a relative pin: one for each name that the
/// alias directory `dir` lists, but for the name `*`.
pub open spec fn alias_files(dir: Seq<char>, names: Seq<Seq<char>>) -> Seq<Seq<char>> {
    names.filter(|name: Seq<char>| name != "*"@).map_values(|name: Seq<char>| dir.push('/') + name)
}

/// The alias files to read for a relative pin, from the names that the
/// alias directory `dir` lists.
pub fn lts_alias_files(dir: &str, names: &Vec<String>) -> (files: Vec<String>)
    ensures
        lines(files@) == alias_files(dir@, lines(names@)),
{
    let ghost keep = |name: Seq<char>| name != "*"@;
    let ghost place = |name: Seq<char>| dir@.push('/') + name;
    let ghost all = lines(names@);
    let mut files: Vec<String> = Vec::new();
    let mut i: usize = 0;
    proof {
        assert(all.take(0) == Seq::<Seq<char>>::empty());
        assert(all.take(0).filter(keep) == Seq::<Seq<char>>::empty()) by {
            reveal(Seq::filter);
        }
    }
    while i < names.len()
        invariant
            i <= names.len(),
            all == lines(names@),
            keep == |name: Seq<char>| name != "*"@,
            place == |name: Seq<char>| dir@.push('/') + name,
            lines(files@) == all.take(i as int).filter(keep).map_values(place),
        decreases names.len() - i,
    {
        let name = chars_of(names[i].as_str());
        proof {
            all.take(i as int).lemma_filter_push(all[i as int], keep);
            assert(all.take(i + 1) == all.take(i as int).push(all[i as int]));
        }
        if !spells(&name, "*") {
            let mut path = chars_of(dir);
            path.push('/');
            push_chars(&mut path, &name);
            let ghost before = lines(files@);
            files.push(string_of(&path));
            assert(lines(files@) == before.push(path@));
        }
        i += 1;
    }
    assert(all.take(names.len() as int) == all);
    files
}

/// The versions that the contents of the alias files spell, in the order
/// of the files. Content that spells no version is passed over.
pub open spec fn lts_versions(contents: Seq<Seq<char>>) -> Seq<VersionView> {
    contents.filter_map(|text: Seq<char>| VersionView::parse(trim(text)))
}

/// The line of long-term support at distance `offset` from the most
/// recent one, among those that the contents of the alias files spell.
pub open spec fn relative_lts(contents: Seq<Seq<char>>, offset: usize) -> Result<
    NodeVersionView,
    ResolveError,
> {
    let ascending = ranked(lts_versions(contents));
    if offset < ascending.len() {
        Ok(NodeVersionView::NvmVersion(Some(ascending[ascending.len() - 1 - offset])))
    } else {
        Err(ResolveError::NotFound)
    }
}

/// Picks the line of long-term support at distance `offset` from the most
/// recent one, from the contents of the alias files that could be read.
pub fn select_relative_lts(contents: &Vec<String>, offset: usize) -> (found: Result<
    NodeVersion,
    ResolveError,
>)
    ensures
        found is Err <==> offset >= lts_versions(lines(contents@)).len(),
        match relative_lts(lines(contents@), offset) {
            Ok(version) => found is Ok && found->Ok_0@ == version,
            Err(error) => found == Err::<NodeVersion, ResolveError>(error),
        },
{
    let ghost all = lines(contents@);
    let ghost read = |text: Seq<char>| VersionView::parse(trim(text));
    let mut versions: Vec<Version> = Vec::new();
    let mut i: usize = 0;
    assert(all.take(0).filter_map(read) == Seq::<VersionView>::empty());
    while i < contents.len()
        invariant
            i <= contents.len(),
            all == lines(contents@),
            read == |text: Seq<char>| VersionView::parse(trim(text)),
            views(versions@) == all.take(i as int).filter_map(read),
        decreases contents.len() - i,
    {
        proof {
            all.lemma_filter_map_take_succ(read, i as int);
        }
        let text = trim_chars(&chars_of(contents[i].as_str()));
        let ghost before = views(versions@);
        if let Some(version) = Version::from_chars(&text) {
            versions.push(version);
            assert(views(versions@) == before.push(version@));
        }
        i += 1;
    }
    assert(all.take(contents.len() as int) == all);
    let ascending = rank(&versions);
    proof {
        lemma_ranked(views(versions@));
        assert(views(ascending@).len() == ascending.len());
    }
    if offset < ascending.len() {
        let version = ascending[ascending.len() - 1 - offset].clone();
        assert(version@ == views(ascending@)[ascending.len() - 1 - offset]);
        Ok(NodeVersion::NvmVersion(Some(version)))
    } else {
        Err(ResolveError::NotFound)
    }
}

/// The line at distance 0 is the most recent: one of the versions that the
/// alias files spell, and none of them ranks above it. A distance of the
/// number of lines or more finds nothing.
pub proof fn lemma_relative_lts(contents: Seq<Seq<char>>, offset: usize)
    ensures
        offset >= lts_versions(contents).len() ==> relative_lts(contents, offset) == Err::<
            NodeVersionView,
            ResolveError,
        >(ResolveError::NotFound),
        offset == 0 && lts_versions(contents).len() > 0 ==> {
            &&& relative_lts(contents, offset) matches Ok(NodeVersionView::NvmVersion(Some(recent)))
            &&& lts_versions(contents).contains(recent)
            &&& forall|i: int|
                0 <= i < lts_versions(contents).len() ==> !recent.ranks_below(
                    #[trigger] lts_versions(contents)[i],
                )
        },
{
    lemma_ranked(lts_versions(contents));
    if lts_versions(contents).len() > 0 {
        lemma_ranked_last_is_highest(lts_versions(contents));
    }
}

/// The newest of the installed versions: the one that no other ranks
/// above.
pub open spec fn newest(installed: Seq<VersionView>) -> Result<NodeVersionView, ResolveError> {
    if installed.len() > 0 {
        Ok(NodeVersionView::NvmVersion(Some(ranked(installed).last())))
    } else {
        Err(ResolveError::NotFound)
    }
}

/// Picks the newest of the installed versions.
pub fn newest_installed(installed: &Vec<Version>) -> (found: Result<NodeVersion, ResolveError>)
    ensures
        found is Err <==> installed@.len() == 0,
        match newest(views(installed@)) {
            Ok(version) => found is Ok && found->Ok_0@ == version,
            Err(error) => found == Err::<NodeVersion, ResolveError>(error),
        },
{
    let ascending = rank(installed);
    proof {
        lemma_ranked(views(installed@));
        assert(views(ascending@).len() == ascending.len());
        assert(views(installed@).len() == installed.len());
    }
    if ascending.len() > 0 {
        let version = ascending[ascending.len() - 1].clone();
        assert(version@ == views(ascending@).last());
        Ok(NodeVersion::NvmVersion(Some(version)))
    } else {
        Err(ResolveError::NotFound)
    }
}

} // verus!

//! The changes that switch the environment to a version, or back to the
//! runtime of the system.

use vstd::prelude::*;
use crate::decimal::{decimal, is_digit, lemma_decimal_is_digits};
use crate::env_utils::{
    changes,
    get_new_env,
    lemma_stripped_segments,
    managed_prefix,
    prepended,
    strip_nvm_path,
    unmanaged,
    without_managed,
    EnvChangeset,
    EnvChangesetView,
};
use crate::misc::{below, dot_nvm_home, lookup_dirs};
use crate::text::{
    chars_of,
    free_of,
    lemma_split_concat,
    lemma_split_first,
    lemma_split_whole,
    push_str,
    split,
    string_of,
};
use crate::version::{
    current_version,
    lemma_text_round_trip,
    managed_segment,
    version_name,
    NodeVersion,
    NodeVersionView,
    Version,
    VersionView,
};

verus! {

/// The variable that a change sets or removes.
pub open spec fn variable(change: EnvChangesetView) -> Seq<char> {
    match change {
        EnvChangesetView::UpdateVar { name, .. } => name,
        EnvChangesetView::DeleteVar { name } => name,
    }
}

/// Whether no two changes of `changes` are about the same variable.
pub open spec fn one_change_each(changes: Seq<EnvChangesetView>) -> bool {
    forall|i: int, j: int|
        0 <= i < j < changes.len() ==> variable(#[trigger] changes[i]) != variable(
            #[trigger] changes[j],
        )
}

/// The changes that put the installation at `location` in use: the search
/// path `path` loses its managed segments and gets the installation's
/// `bin` directory in front, and two variables name the installation's
/// directories.
pub open spec fn activation(location: Seq<char>, path: Seq<char>, home: Seq<char>) -> Seq<
    EnvChangesetView,
> {
    seq![
        EnvChangesetView::UpdateVar {
            name: "PATH"@,
            value: prepended(location, without_managed(path, home), "/bin"@),
        },
        EnvChangesetView::UpdateVar { name: "NVM_BIN"@, value: location + "/bin"@ },
        EnvChangesetView::UpdateVar { name: "NVM_INC"@, value: location + "/include/node"@ },
    ]
}

/// The changes that put the runtime of the system in use: the search path
/// `path` loses its managed segments, and the two variables that name an
/// installation's directories are removed.
pub open spec fn reversion(path: Seq<char>, home: Seq<char>) -> Seq<EnvChangesetView> {
    seq![
        EnvChangesetView::UpdateVar { name: "PATH"@, value: without_managed(path, home) },
        EnvChangesetView::DeleteVar { name: "NVM_BIN"@ },
        EnvChangesetView::DeleteVar { name: "NVM_INC"@ },
    ]
}

/// The three variables are three.
proof fn lemma_names_differ()
    ensures
        "PATH"@ != "NVM_BIN"@,
        "PATH"@ != "NVM_INC"@,
        "NVM_BIN"@ != "NVM_INC"@,
{
    reveal_strlit("PATH");
    reveal_strlit("NVM_BIN");
    reveal_strlit("NVM_INC");
    assert("PATH"@.len() != "NVM_BIN"@.len());
    assert("PATH"@.len() != "NVM_INC"@.len());
    assert("NVM_BIN"@[4] != "NVM_INC"@[4]);
}

/// The text of `name`, as a string.
fn named(name: &str) -> (owned: String)
    ensures
        owned@ == name@,
{
    string_of(&chars_of(name))
}

/// The directory `dir` of the installation at `location`.
fn dir_of(location: &str, dir: &str) -> (path: String)
    ensures
        path@ == location@ + dir@,
{
    let mut path = chars_of(location);
    push_str(&mut path, dir);
    string_of(&path)
}

/// The changes that put the installed `version` in use, given the search
/// path `path` and the home directory `home`.
pub fn set_node_version(version: &Version, path: &str, home: &str) -> (changesets: Vec<
    EnvChangeset,
>)
    requires
        version.location is Some,
    ensures
        changes(changesets@) == activation(version@.location->0, path@, home@),
        one_change_each(changes(changesets@)),
{
    let stripped = strip_nvm_path(path, home);
    let mut changesets: Vec<EnvChangeset> = Vec::new();
    changesets.push(
        EnvChangeset::UpdateVar {
            name: named("PATH"),
            value: get_new_env(version, stripped.as_str(), "/bin"),
        },
    );
    let (bin, headers) = match &version.location {
        Some(location) => (
            dir_of(location.as_str(), "/bin"),
            dir_of(location.as_str(), "/include/node"),
        ),
        None => (String::new(), String::new()),
    };
    changesets.push(EnvChangeset::UpdateVar { name: named("NVM_BIN"), value: bin });
    changesets.push(EnvChangeset::UpdateVar { name: named("NVM_INC"), value: headers });
    proof {
        lemma_names_differ();
    }
    changesets
}

/// The changes that put the runtime of the system in use, given the search
/// path `path` and the home directory `home`.
pub fn revert_to_system_version(path: &str, home: &str) -> (changesets: Vec<EnvChangeset>)
    ensures
        changes(changesets@) == reversion(path@, home@),
        one_change_each(changes(changesets@)),
{
    let mut changesets: Vec<EnvChangeset> = Vec::new();
    changesets.push(
        EnvChangeset::UpdateVar { name: named("PATH"), value: strip_nvm_path(path, home) },
    );
    changesets.push(EnvChangeset::DeleteVar { name: named("NVM_BIN") });
    changesets.push(EnvChangeset::DeleteVar { name: named("NVM_INC") });
    proof {
        lemma_names_differ();
    }
    changesets
}

/// No segment passes a test that every segment fails.
proof fn lemma_filter_none(segments: Seq<Seq<char>>, keep: spec_fn(Seq<char>) -> bool)
    requires
        forall|i: int| 0 <= i < segments.len() ==> !keep(#[trigger] segments[i]),
    ensures
        segments.filter(keep).len() == 0,
    decreases segments.len(),
{
    reveal(Seq::filter);
    if segments.len() > 0 {
        let front = segments.drop_last();
        assert forall|i: int| 0 <= i < front.len() implies !keep(#[trigger] front[i]) by {
            assert(front[i] == segments[i]);
        }
        lemma_filter_none(front, keep);
    }
}

/// After the changes that put the runtime of the system in use, no managed
/// version is found in use: a search path without its managed segments
/// names none.
pub proof fn lemma_reversion_is_detected(path: Seq<char>, home: Seq<char>)
    ensures
        current_version(without_managed(path, home), home) is None,
{
    let managed = |segment: Seq<char>| dot_nvm_home(home).is_prefix_of(segment);
    let left = split(without_managed(path, home), ':');
    lemma_stripped_segments(path, home);
    assert forall|i: int| 0 <= i < left.len() implies !managed(#[trigger] left[i]) by {
        lemma_managed_is_stripped(left[i], home);
    }
    lemma_filter_none(left, managed);
}

/// A segment in the managed installation is one that stripping removes.
proof fn lemma_managed_is_stripped(segment: Seq<char>, home: Seq<char>)
    ensures
        dot_nvm_home(home).is_prefix_of(segment) ==> !unmanaged(segment, home),
{
    reveal_strlit("/.nvm");
    reveal_strlit("/.nvm/");
    let short = managed_prefix(home);
    let long = dot_nvm_home(home);
    if long.is_prefix_of(segment) {
        assert(short == long.take(short.len() as int));
        assert(segment.take(long.len() as int).take(short.len() as int) == segment.take(
            short.len() as int,
        ));
    }
}

/// A search path that begins with the `bin` directory of a managed
/// installation has that directory for its first managed segment.
proof fn lemma_first_segment_is_managed(location: Seq<char>, rest: Seq<char>, home: Seq<char>)
    requires
        free_of(location, ':'),
        dot_nvm_home(home).is_prefix_of(location),
    ensures
        managed_segment(prepended(location, rest, "/bin"@), home) == Some(location + "/bin"@),
{
    let bin = location + "/bin"@;
    let value = prepended(location, rest, "/bin"@);
    let managed = |segment: Seq<char>| dot_nvm_home(home).is_prefix_of(segment);
    reveal_strlit("/bin");
    assert(free_of(bin, ':'));
    assert(value == bin.push(':') + rest);
    lemma_split_first(bin, rest, ':');
    assert(managed(bin)) by {
        assert(bin.take(dot_nvm_home(home).len() as int) == location.take(
            dot_nvm_home(home).len() as int,
        ));
    }
    split(rest, ':').lemma_filter_prepend(bin, managed);
}

/// Filtering keeps a single piece that passes.
proof fn lemma_filter_one(piece: Seq<char>, keep: spec_fn(Seq<char>) -> bool)
    requires
        keep(piece),
    ensures
        seq![piece].filter(keep) == seq![piece],
{
    reveal(Seq::filter);
    Seq::<Seq<char>>::empty().lemma_filter_push(piece, keep);
    assert(seq![piece] == Seq::<Seq<char>>::empty().push(piece));
}

/// The `bin` directory of the directory `name` in `above` has `name` for
/// the name above its last.
proof fn lemma_name_above_bin(above: Seq<char>, name: Seq<char>)
    requires
        name.len() > 0,
        free_of(name, '/'),
    ensures
        version_name((above.push('/') + name) + "/bin"@) == Some(name),
{
    let location = above.push('/') + name;
    let bin = location + "/bin"@;
    let full = |part: Seq<char>| part.len() > 0;
    let last = seq!['b', 'i', 'n'];
    reveal_strlit("/bin");
    assert(bin == location.push('/') + last);
    lemma_split_concat(location, last, '/');
    lemma_split_concat(above, name, '/');
    lemma_split_whole(last, '/');
    lemma_split_whole(name, '/');
    let before = split(above, '/');
    assert(split(bin, '/') == (before + seq![name]) + seq![last]);
    Seq::filter_distributes_over_add(before + seq![name], seq![last], full);
    Seq::filter_distributes_over_add(before, seq![name], full);
    lemma_filter_one(name, full);
    lemma_filter_one(last, full);
    let names = split(bin, '/').filter(full);
    assert(names == (before.filter(full) + seq![name]) + seq![last]);
    assert(names[names.len() - 2] == name);
}

/// Every directory in which a version is looked for lies in the managed
/// installation, and its name holds no colon.
proof fn lemma_lookup_dir_is_managed(dir: Seq<char>, name: Seq<char>, home: Seq<char>)
    requires
        lookup_dirs().contains(dir),
    ensures
        free_of(dir, ':'),
        dot_nvm_home(home).is_prefix_of(below(below(home, dir), name)),
{
    reveal_strlit("/.nvm/");
    reveal_strlit(".nvm");
    reveal_strlit(".nvm/versions/node");
    reveal_strlit(".nvm/io.js");
    reveal_strlit(".nvm/versions/io.js");
    let i = choose|i: int| 0 <= i < lookup_dirs().len() && lookup_dirs()[i] == dir;
    let location = below(below(home, dir), name);
    let prefix = dot_nvm_home(home);
    assert(dir.len() >= 4 && dir[0] == '.' && dir[1] == 'n' && dir[2] == 'v' && dir[3] == 'm');
    assert(dir.len() > 4 ==> dir[4] == '/');
    assert(location.take(prefix.len() as int) == prefix);
}

/// After the changes that put a version in use, that version is found in
/// use: where its location is the directory of its name in one of the
/// version directories below `home`, the new search path names the
/// version, with that location. The home directory must hold no colon.
pub proof fn lemma_activation_is_detected(
    version: VersionView,
    dir: Seq<char>,
    path: Seq<char>,
    home: Seq<char>,
)
    requires
        version.well_formed(),
        free_of(home, ':'),
        lookup_dirs().contains(dir),
        version.location == Some(below(below(home, dir), version.text())),
    ensures
        activation(version.location->0, path, home)[0] matches EnvChangesetView::UpdateVar {
            value,
            ..
        } && current_version(value, home) == Some(version),
{
    let location = version.location->0;
    let name = version.text();
    let bin = location + "/bin"@;
    let value = prepended(location, without_managed(path, home), "/bin"@);
    lemma_text_is_a_name(version);
    lemma_lookup_dir_is_managed(dir, name, home);
    assert(free_of(location, ':'));
    lemma_first_segment_is_managed(location, without_managed(path, home), home);
    lemma_name_above_bin(below(home, dir), name);
    lemma_text_round_trip(version);
    reveal_strlit("/bin");
    assert(bin.take(bin.len() - 4) == location);
    let found = current_version(value, home)->0;
    assert(found.major == version.major && found.minor == version.minor && found.patch
        == version.patch && found.location == version.location);
}

/// The text form of a version holds no colon and no slash, and is not
/// empty.
proof fn lemma_text_is_a_name(version: VersionView)
    ensures
        version.text().len() > 0,
        free_of(version.text(), ':'),
        free_of(version.text(), '/'),
{
    lemma_digits_are_a_name(version.major);
    if version.minor is Some {
        lemma_digits_are_a_name(version.minor->0);
        if version.patch is Some {
            lemma_digits_are_a_name(version.patch->0);
        }
    }
}

/// The digits of a number hold no colon and no slash.
proof fn lemma_digits_are_a_name(n: u32)
    ensures
        free_of(decimal(n as nat), ':'),
        free_of(decimal(n as nat), '/'),
{
    lemma_decimal_is_digits(n as nat);
    let digits = decimal(n as nat);
    assert forall|i: int| 0 <= i < digits.len() implies digits[i] != ':' && digits[i] != '/' by {
        assert(is_digit(digits[i]));
    }
}

/// What a pin asks for, given the version in use.
#[derive(Clone, Copy, Debug, PartialEq, Eq)]
pub enum Switch {
    /// What is in use is what the pin asks for: nothing changes.
    Keep,
    /// The pin names a version that is not in use: it is to be found, or
    /// installed, and put in use.
    Activate,
    /// The pin names no version yet: one is to be installed by the text of
    /// the pin, and put in use.
    Install,
    /// The pin asks for the runtime of the system, and a managed version
    /// is in use.
    Revert,
}

/// What the resolved pin `target` asks for when `current` is in use;
/// `None` is the runtime of the system.
pub open spec fn switch_for(current: Option<VersionView>, target: NodeVersionView) -> Switch {
    match target {
        NodeVersionView::NvmVersion(Some(version)) => if current is Some && version.agrees_with(
            current->0,
        ) {
            Switch::Keep
        } else {
            Switch::Activate
        },
        NodeVersionView::NvmVersion(None) => Switch::Install,
        NodeVersionView::System => if current is Some {
            Switch::Revert
        } else {
            Switch::Keep
        },
    }
}

/// Decides what the resolved pin `target` asks for when `current` is in
/// use.
pub fn plan_switch(current: &Option<Version>, target: &NodeVersion) -> (switch: Switch)
    ensures
        switch == switch_for(
            match current {
                Some(version) => Some(version@),
                None => None,
            },
            target@,
        ),
{
    match target {
        NodeVersion::NvmVersion(Some(version)) => match current {
            Some(in_use) => if version.matches(in_use) {
                Switch::Keep
            } else {
                Switch::Activate
            },
            None => Switch::Activate,
        },
        NodeVersion::NvmVersion(None) => Switch::Install,
        NodeVersion::System => match current {
            Some(_) => Switch::Revert,
            None => Switch::Keep,
        },
    }
}

} // verus!

//! Changes to the environment, and the shell script that makes them.

use vstd::prelude::*;
use crate::text::{
    chars_of,
    free_of,
    join,
    lemma_split_join,
    lemma_split_pieces,
    lemma_split_whole,
    join_chars,
    push_str,
    rows,
    slice_of,
    split,
    split_chars,
    starts_with,
    string_of,
};
use crate::version::Version;

verus! {

/// One change to the environment: a variable is set, or it is removed.
#[derive(Debug, PartialEq, Eq)]
pub enum EnvChangeset {
    UpdateVar { name: String, value: String },
    DeleteVar { name: String },
}

/// The mathematical value of an `EnvChangeset`.
pub enum EnvChangesetView {
    UpdateVar { name: Seq<char>, value: Seq<char> },
    DeleteVar { name: Seq<char> },
}

impl View for EnvChangeset {
    type V = EnvChangesetView;

    open spec fn view(&self) -> EnvChangesetView {
        match self {
            EnvChangeset::UpdateVar { name, value } => EnvChangesetView::UpdateVar {
                name: name@,
                value: value@,
            },
            EnvChangeset::DeleteVar { name } => EnvChangesetView::DeleteVar { name: name@ },
        }
    }
}

/// The values of the changes of `changesets`.
pub open spec fn changes(changesets: Seq<EnvChangeset>) -> Seq<EnvChangesetView> {
    Seq::new(changesets.len(), |i: int| changesets[i]@)
}

/// The beginning of every path below the managed installation of `home`.
pub open spec fn managed_prefix(home: Seq<char>) -> Seq<char> {
    home + "/.nvm"@
}

/// Whether the path `segment` lies outside the managed installation.
pub open spec fn unmanaged(segment: Seq<char>, home: Seq<char>) -> bool {
    !managed_prefix(home).is_prefix_of(segment)
}

/// The search path `env_var` without the segments that lie in the managed
/// installation: the other segments, in their order, with a colon between
/// neighbours.
pub open spec fn without_managed(env_var: Seq<char>, home: Seq<char>) -> Seq<char> {
    join(split(env_var, ':').filter(|segment: Seq<char>| unmanaged(segment, home)), ':')
}

/// The search path that puts the directory `append_path` of the
/// installation at `location` before the search path `env`.
pub open spec fn prepended(location: Seq<char>, env: Seq<char>, append_path: Seq<char>) -> Seq<
    char,
> {
    (location + append_path).push(':') + env
}

/// What stands for the character `c` between the quotes of a quoted value.
pub open spec fn escaped(c: char) -> Seq<char> {
    if c == '\'' {
        seq!['\'', '\\', '\'', '$', '\'']
    } else if c == '\r' {
        seq!['\\', 'r']
    } else if c == '\n' {
        seq!['\\', 'n']
    } else if c == '\\' {
        seq!['\\', '\\']
    } else if c == '\0' {
        Seq::empty()
    } else if c == '\x1b' {
        seq!['\\', 'e']
    } else {
        seq![c]
    }
}

/// The value in the quoted form that a shell reads back as the value: `$'`,
/// what stands for each character, and `'`.
pub open spec fn quoted(value: Seq<char>) -> Seq<char> {
    (seq!['$', '\''] + value.flat_map(|c: char| escaped(c))).push('\'')
}

/// The statement that makes one change.
pub open spec fn statement(change: EnvChangesetView) -> Seq<char> {
    match change {
        EnvChangesetView::UpdateVar { name, value } => ("export "@ + name).push('=') + quoted(
            value,
        ).push(';'),
        EnvChangesetView::DeleteVar { name } => ("unset "@ + name).push(';'),
    }
}

/// The statements that make the changes, in the order of the changes.
pub open spec fn statements(changes: Seq<EnvChangesetView>) -> Seq<Seq<char>> {
    changes.map_values(|change: EnvChangesetView| statement(change))
}

/// The script that makes the changes in their order: one statement for
/// each change, with a line feed between neighbours.
pub open spec fn script(changes: Seq<EnvChangesetView>) -> Seq<char> {
    join(statements(changes), '\n')
}

/// The search path that puts the directory `append_path` of the
/// installation of `version` before the search path `env`.
pub fn get_new_env(version: &Version, env: &str, append_path: &str) -> (path: String)
    requires
        version.location is Some,
    ensures
        path@ == prepended(version@.location->0, env@, append_path@),
{
    let mut path: Vec<char> = match &version.location {
        Some(location) => chars_of(location.as_str()),
        None => Vec::new(),
    };
    push_str(&mut path, append_path);
    path.push(':');
    push_str(&mut path, env);
    string_of(&path)
}

/// Removes from the search path `env_var` the segments that lie in the
/// managed installation below `home`.
pub fn strip_nvm_path(env_var: &str, home: &str) -> (stripped: String)
    ensures
        stripped@ == without_managed(env_var@, home@),
{
    let mut prefix = chars_of(home);
    push_str(&mut prefix, "/.nvm");
    let segments = split_chars(&chars_of(env_var), ':');
    let ghost all = rows(segments@);
    let ghost keep = |segment: Seq<char>| unmanaged(segment, home@);
    let mut kept: Vec<Vec<char>> = Vec::new();
    let mut i: usize = 0;
    proof {
        assert(all.take(0).filter(keep) == Seq::<Seq<char>>::empty()) by {
            reveal(Seq::filter);
        }
    }
    while i < segments.len()
        invariant
            i <= segments.len(),
            all == rows(segments@),
            prefix@ == managed_prefix(home@),
            keep == |segment: Seq<char>| unmanaged(segment, home@),
            rows(kept@) == all.take(i as int).filter(keep),
        decreases segments.len() - i,
    {
        proof {
            all.take(i as int).lemma_filter_push(all[i as int], keep);
            assert(all.take(i + 1) == all.take(i as int).push(all[i as int]));
        }
        if !starts_with(&segments[i], &prefix) {
            let ghost before = rows(kept@);
            let segment = slice_of(&segments[i], 0, segments[i].len());
            assert(segment@ == all[i as int]);
            kept.push(segment);
            assert(rows(kept@) == before.push(segment@));
        }
        i += 1;
    }
    assert(all.take(segments.len() as int) == all);
    string_of(&join_chars(&kept, ':'))
}

/// Filtering keeps a sequence whose every element passes.
proof fn lemma_filter_all(segments: Seq<Seq<char>>, keep: spec_fn(Seq<char>) -> bool)
    requires
        forall|i: int| 0 <= i < segments.len() ==> keep(#[trigger] segments[i]),
    ensures
        segments.filter(keep) == segments,
    decreases segments.len(),
{
    reveal(Seq::filter);
    if segments.len() > 0 {
        let front = segments.drop_last();
        assert forall|i: int| 0 <= i < front.len() implies keep(#[trigger] front[i]) by {
            assert(front[i] == segments[i]);
        }
        lemma_filter_all(front, keep);
        assert(front.push(segments.last()) == segments);
    }
}

/// A search path without its managed segments has none: each of its
/// segments lies outside the managed installation, and joined again they
/// make the same search path.
pub proof fn lemma_stripped_segments(env_var: Seq<char>, home: Seq<char>)
    ensures
        forall|i: int|
            0 <= i < split(without_managed(env_var, home), ':').len() ==> unmanaged(
                #[trigger] split(without_managed(env_var, home), ':')[i],
                home,
            ),
        join(split(without_managed(env_var, home), ':'), ':') == without_managed(env_var, home),
{
    let keep = |segment: Seq<char>| unmanaged(segment, home);
    let pieces = split(env_var, ':');
    let kept = pieces.filter(keep);
    lemma_split_pieces(env_var, ':');
    assert forall|i: int| 0 <= i < kept.len() implies keep(#[trigger] kept[i]) && free_of(
        kept[i],
        ':',
    ) by {
        pieces.lemma_filter_pred(keep, i);
        assert(kept.contains(kept[i]));
        pieces.lemma_filter_contains_rev(keep, kept[i]);
        let j = choose|j: int| 0 <= j < pieces.len() && pieces[j] == kept[i];
        assert(free_of(pieces[j], ':'));
    }
    if kept.len() == 0 {
        let nothing = Seq::<char>::empty();
        reveal_strlit("/.nvm");
        assert(managed_prefix(home).len() > 0);
        assert(join(kept, ':') == nothing);
        lemma_split_whole(nothing, ':');
    } else {
        lemma_split_join(kept, ':');
    }
}

/// Removing the managed segments from a search path that has none left
/// changes nothing: to remove them twice is to remove them once.
pub proof fn lemma_strip_idempotent(env_var: Seq<char>, home: Seq<char>)
    ensures
        without_managed(without_managed(env_var, home), home) == without_managed(env_var, home),
{
    let keep = |segment: Seq<char>| unmanaged(segment, home);
    lemma_stripped_segments(env_var, home);
    lemma_filter_all(split(without_managed(env_var, home), ':'), keep);
}

/// The character that a backslash and `c` stand for between `$'` and `'`.
/// Of the escapes that a shell knows there, these are the ones that a
/// quoted value uses.
pub open spec fn unescaped(c: char) -> Option<char> {
    if c == '\\' {
        Some('\\')
    } else if c == '\'' {
        Some('\'')
    } else if c == 'n' {
        Some('\n')
    } else if c == 'r' {
        Some('\r')
    } else if c == 'e' {
        Some('\x1b')
    } else {
        None
    }
}

/// Reads `text` as a shell reads what follows `$'`: up to the first quote
/// that no backslash stands before. Gives the characters that were read
/// and the text after the closing quote, or `None` where the quote is
/// never closed or an escape is not known.
pub open spec fn read_quoted(text: Seq<char>) -> Option<(Seq<char>, Seq<char>)>
    decreases text.len(),
{
    if text.len() == 0 {
        None
    } else if text[0] == '\'' {
        Some((Seq::empty(), text.skip(1)))
    } else if text[0] == '\\' {
        if text.len() >= 2 && unescaped(text[1]) is Some {
            match read_quoted(text.skip(2)) {
                Some((value, rest)) => Some((seq![unescaped(text[1])->0] + value, rest)),
                None => None,
            }
        } else {
            None
        }
    } else {
        match read_quoted(text.skip(1)) {
            Some((value, rest)) => Some((seq![text[0]] + value, rest)),
            None => None,
        }
    }
}

/// Reads `word` as a shell reads one word that is made of pieces `$'...'`
/// and of quotes written `\'`: the characters that the word stands for.
/// `None` where `word` holds anything else, such as a character outside
/// quotes that would end the word.
pub open spec fn read_word(word: Seq<char>) -> Option<Seq<char>>
    decreases word.len(),
{
    if word.len() == 0 {
        Some(Seq::empty())
    } else if word.len() >= 2 && word[0] == '$' && word[1] == '\'' {
        match read_quoted(word.skip(2)) {
            Some((value, rest)) => if rest.len() < word.len() {
                match read_word(rest) {
                    Some(more) => Some(value + more),
                    None => None,
                }
            } else {
                None
            },
            None => None,
        }
    } else if word.len() >= 2 && word[0] == '\\' && word[1] == '\'' {
        match read_word(word.skip(2)) {
            Some(more) => Some(seq!['\''] + more),
            None => None,
        }
    } else {
        None
    }
}

/// What reading gives from inside a piece `$'...'` on: the rest of the
/// piece, and the pieces that follow it.
spec fn read_on(text: Seq<char>) -> Option<Seq<char>> {
    match read_quoted(text) {
        Some((value, rest)) => match read_word(rest) {
            Some(more) => Some(value + more),
            None => None,
        },
        None => None,
    }
}

/// `value` before what was read, if anything was.
spec fn before(value: Seq<char>, read: Option<Seq<char>>) -> Option<Seq<char>> {
    match read {
        Some(more) => Some(value + more),
        None => None,
    }
}

/// The closing quote stands in the text: what follows it is shorter.
proof fn lemma_read_quoted_shortens(text: Seq<char>)
    ensures
        read_quoted(text) matches Some((_, rest)) ==> rest.len() < text.len(),
    decreases text.len(),
{
    if text.len() > 0 && text[0] != '\'' {
        if text[0] == '\\' {
            if text.len() >= 2 {
                lemma_read_quoted_shortens(text.skip(2));
            }
        } else {
            lemma_read_quoted_shortens(text.skip(1));
        }
    }
}

/// A piece that is opened in front of `text` reads as `text` does from
/// inside a piece.
proof fn lemma_read_opened(text: Seq<char>)
    ensures
        read_word(seq!['$', '\''] + text) == read_on(text),
{
    let word = seq!['$', '\''] + text;
    assert(word.skip(2) == text);
    lemma_read_quoted_shortens(text);
}

/// What stands for one character reads back as that character, or as
/// nothing where the character is the null character.
proof fn lemma_read_escaped(c: char, tail: Seq<char>)
    ensures
        read_on(escaped(c) + tail) == before(
            if c == '\0' {
                Seq::empty()
            } else {
                seq![c]
            },
            read_on(tail),
        ),
{
    let text = escaped(c) + tail;
    if c == '\'' {
        let closed = seq!['\\', '\'', '$', '\''] + tail;
        let reopened = seq!['$', '\''] + tail;
        assert(text.skip(1) == closed);
        assert(closed.skip(2) == reopened);
        lemma_read_opened(tail);
        assert(read_quoted(text) == Some((Seq::<char>::empty(), closed)));
        assert(read_word(closed) == before(seq!['\''], read_on(tail)));
        if read_on(tail) is Some {
            assert(Seq::<char>::empty() + (seq!['\''] + read_on(tail)->0) == seq!['\'']
                + read_on(tail)->0);
        }
    } else if c == '\0' {
        assert(text == tail);
        if read_on(tail) is Some {
            assert(Seq::<char>::empty() + read_on(tail)->0 == read_on(tail)->0);
        }
    } else {
        if c == '\r' || c == '\n' || c == '\\' || c == '\x1b' {
            assert(text.skip(2) == tail);
            assert(unescaped(text[1]) == Some(c));
        } else {
            assert(text.skip(1) == tail);
        }
        match read_quoted(tail) {
            Some((value, rest)) => {
                assert(read_quoted(text) == Some((seq![c] + value, rest)));
                if read_word(rest) is Some {
                    assert((seq![c] + value) + read_word(rest)->0 == seq![c] + (value + read_word(
                        rest,
                    )->0));
                }
            },
            None => {},
        }
    }
}

/// What stands for the characters of `value` reads back as `value` without
/// its null characters.
proof fn lemma_read_all_escaped(value: Seq<char>, tail: Seq<char>)
    ensures
        read_on(value.flat_map(|c: char| escaped(c)) + tail) == before(
            value.filter(|c: char| c != '\0'),
            read_on(tail),
        ),
    decreases value.len(),
{
    let each = |c: char| escaped(c);
    let kept = |c: char| c != '\0';
    if value.len() == 0 {
        reveal(Seq::filter);
        assert(value.flat_map(each) + tail == tail);
        if read_on(tail) is Some {
            assert(value.filter(kept) + read_on(tail)->0 == read_on(tail)->0);
        }
    } else {
        let front = value.drop_last();
        let c = value.last();
        assert(value == front.push(c));
        front.lemma_flat_map_push(each, c);
        front.lemma_filter_push(c, kept);
        assert(value.flat_map(each) + tail == front.flat_map(each) + (escaped(c) + tail));
        lemma_read_all_escaped(front, escaped(c) + tail);
        lemma_read_escaped(c, tail);
        if read_on(tail) is Some {
            let more = read_on(tail)->0;
            if c == '\0' {
                assert(front.filter(kept) + (Seq::<char>::empty() + more) == value.filter(kept)
                    + more);
            } else {
                assert(front.filter(kept) + (seq![c] + more) == value.filter(kept) + more);
            }
        }
    }
}

/// A shell reads a quoted value back as one word, which stands for the
/// value without its null characters: no character of the value ends the
/// word or begins another.
pub proof fn lemma_quoted_reads_back(value: Seq<char>)
    ensures
        read_word(quoted(value)) == Some(value.filter(|c: char| c != '\0')),
{
    let body = value.flat_map(|c: char| escaped(c));
    let close = seq!['\''];
    assert(quoted(value) == seq!['$', '\''] + (body + close));
    lemma_read_opened(body + close);
    lemma_read_all_escaped(value, close);
    assert(close.skip(1) == Seq::<char>::empty());
    assert(read_quoted(close) == Some((Seq::<char>::empty(), Seq::<char>::empty())));
    assert(read_on(close) == Some(Seq::<char>::empty()));
    assert(value.filter(|c: char| c != '\0') + Seq::<char>::empty() == value.filter(
        |c: char| c != '\0',
    ));
}

/// Appends to `out` what stands for `c` between the quotes of a quoted
/// value.
fn push_escaped(out: &mut Vec<char>, c: char)
    ensures
        final(out)@ == old(out)@ + escaped(c),
{
    if c == '\'' {
        out.push('\'');
        out.push('\\');
        out.push('\'');
        out.push('$');
        out.push('\'');
    } else if c == '\r' {
        out.push('\\');
        out.push('r');
    } else if c == '\n' {
        out.push('\\');
        out.push('n');
    } else if c == '\\' {
        out.push('\\');
        out.push('\\');
    } else if c == '\0' {
    } else if c == '\x1b' {
        out.push('\\');
        out.push('e');
    } else {
        out.push(c);
    }
}

/// Appends the quoted form of `value` to `out`.
fn push_quoted(out: &mut Vec<char>, value: &Vec<char>)
    ensures
        final(out)@ == old(out)@ + quoted(value@),
{
    let ghost each = |c: char| escaped(c);
    out.push('$');
    out.push('\'');
    let mut i: usize = 0;
    assert(value@.take(0).flat_map(each) == Seq::<char>::empty());
    while i < value.len()
        invariant
            i <= value.len(),
            each == |c: char| escaped(c),
            out@ == old(out)@ + (seq!['$', '\''] + value@.take(i as int).flat_map(each)),
        decreases value.len() - i,
    {
        proof {
            value@.lemma_flat_map_take_append(each, i as int);
        }
        push_escaped(out, value[i]);
        i += 1;
    }
    assert(value@.take(value.len() as int) == value@);
    out.push('\'');
}

/// The value in the quoted form that a shell reads back as the value.
pub fn sanitize_shell_value(value: &str) -> (safe: String)
    ensures
        safe@ == quoted(value@),
{
    let mut safe: Vec<char> = Vec::new();
    push_quoted(&mut safe, &chars_of(value));
    string_of(&safe)
}

/// Writes the script that makes the changes in their order: one statement
/// on each line, and nothing before the first or after the last.
pub fn gen_shell_script(changesets: &Vec<EnvChangeset>) -> (text: String)
    ensures
        text@ == script(changes(changesets@)),
{
    let ghost all = statements(changes(changesets@));
    let mut text: Vec<char> = Vec::new();
    let mut i: usize = 0;
    while i < changesets.len()
        invariant
            i <= changesets.len(),
            all == statements(changes(changesets@)),
            text@ == join(all.take(i as int), '\n'),
        decreases changesets.len() - i,
    {
        proof {
            let upto = all.take(i + 1);
            assert(upto.drop_last() == all.take(i as int));
            assert(upto.last() == statement(changesets@[i as int]@));
        }
        if i > 0 {
            text.push('\n');
        }
        match &changesets[i] {
            EnvChangeset::UpdateVar { name, value } => {
                push_str(&mut text, "export ");
                push_str(&mut text, name.as_str());
                text.push('=');
                push_quoted(&mut text, &chars_of(value.as_str()));
                text.push(';');
            },
            EnvChangeset::DeleteVar { name } => {
                push_str(&mut text, "unset ");
                push_str(&mut text, name.as_str());
                text.push(';');
            },
        }
        i += 1;
    }
    assert(all.take(changesets.len() as int) == all);
    string_of(&text)
}

} // verus!

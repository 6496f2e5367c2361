//! Character sequences: the mathematical model of text, and the executable
//! helpers that split, join, trim and compare it.

use vstd::prelude::*;

verus! {

/// `String::push` of the standard library appends one character to the string
/// and leaves the characters before it as they were.
pub assume_specification[ String::push ](s: &mut String, c: char)
    ensures
        final(s)@ == old(s)@.push(c),
;

/// The characters of `s`, in order.
pub fn chars_of(s: &str) -> (v: Vec<char>)
    ensures
        v@ == s@,
{
    let mut v: Vec<char> = Vec::new();
    for c in it: s.chars()
        invariant
            v@ == it.seq().take(it.index() as int),
    {
        v.push(c);
    }
    v
}

/// The string made of the characters of `v`, in order.
pub fn string_of(v: &Vec<char>) -> (s: String)
    ensures
        s@ == v@,
{
    let mut s = String::new();
    let mut i: usize = 0;
    while i < v.len()
        invariant
            i <= v.len(),
            s@ == v@.take(i as int),
        decreases v.len() - i,
    {
        s.push(v[i]);
        i += 1;
    }
    s
}

/// Appends the characters of `s` to `out`.
pub fn push_str(out: &mut Vec<char>, s: &str)
    ensures
        final(out)@ == old(out)@ + s@,
{
    for c in it: s.chars()
        invariant
            out@ == old(out)@ + it.seq().take(it.index() as int),
    {
        out.push(c);
    }
}

/// Appends the characters of `v` to `out`.
pub fn push_chars(out: &mut Vec<char>, v: &Vec<char>)
    ensures
        final(out)@ == old(out)@ + v@,
{
    let mut i: usize = 0;
    while i < v.len()
        invariant
            i <= v.len(),
            out@ == old(out)@ + v@.take(i as int),
        decreases v.len() - i,
    {
        out.push(v[i]);
        i += 1;
    }
}

/// The views of the rows of `v`.
pub open spec fn rows(v: Seq<Vec<char>>) -> Seq<Seq<char>> {
    Seq::new(v.len(), |i: int| v[i]@)
}

/// The views of the strings of `v`.
pub open spec fn lines(v: Seq<String>) -> Seq<Seq<char>> {
    Seq::new(v.len(), |i: int| v[i]@)
}

/// Whether `a` and `b` hold the same characters.
pub fn same_chars(a: &Vec<char>, b: &Vec<char>) -> (same: bool)
    ensures
        same == (a@ == b@),
{
    if a.len() != b.len() {
        return false;
    }
    let mut i: usize = 0;
    while i < a.len()
        invariant
            i <= a.len(),
            a.len() == b.len(),
            a@.take(i as int) == b@.take(i as int),
        decreases a.len() - i,
    {
        if a[i] != b[i] {
            return false;
        }
        assert(a@.take(i + 1) == a@.take(i as int).push(a@[i as int]));
        assert(b@.take(i + 1) == b@.take(i as int).push(b@[i as int]));
        i += 1;
    }
    assert(a@.take(a.len() as int) == a@);
    assert(b@.take(b.len() as int) == b@);
    true
}

/// Whether `s` spells the text `word`.
pub fn spells(s: &Vec<char>, word: &str) -> (same: bool)
    ensures
        same == (s@ == word@),
{
    let w = chars_of(word);
    same_chars(s, &w)
}

/// Whether `s` begins with `prefix`.
pub fn starts_with(s: &Vec<char>, prefix: &Vec<char>) -> (found: bool)
    ensures
        found == prefix@.is_prefix_of(s@),
{
    if prefix.len() > s.len() {
        return false;
    }
    let mut i: usize = 0;
    while i < prefix.len()
        invariant
            i <= prefix.len() <= s.len(),
            s@.take(i as int) == prefix@.take(i as int),
        decreases prefix.len() - i,
    {
        if s[i] != prefix[i] {
            assert(s@.subrange(0, prefix.len() as int)[i as int] != prefix@[i as int]);
            return false;
        }
        assert(s@.take(i + 1) == s@.take(i as int).push(s@[i as int]));
        assert(prefix@.take(i + 1) == prefix@.take(i as int).push(prefix@[i as int]));
        i += 1;
    }
    assert(prefix@.take(prefix.len() as int) == prefix@);
    true
}

/// Whether `a` stands before `b` in the order of a dictionary: at the first
/// position at which they differ `a` has the character of the lower code,
/// or `a` ends there and `b` does not.
pub open spec fn text_below(a: Seq<char>, b: Seq<char>) -> bool
    decreases a.len(),
{
    if b.len() == 0 {
        false
    } else if a.len() == 0 {
        true
    } else if a[0] != b[0] {
        (a[0] as int) < (b[0] as int)
    } else {
        text_below(a.skip(1), b.skip(1))
    }
}

/// No text stands before itself.
pub proof fn lemma_text_order_irreflexive(a: Seq<char>)
    ensures
        !text_below(a, a),
    decreases a.len(),
{
    if a.len() > 0 {
        lemma_text_order_irreflexive(a.skip(1));
    }
}

/// A text that stands before a second stands before every text that the
/// second stands before.
pub proof fn lemma_text_order_transitive(a: Seq<char>, b: Seq<char>, c: Seq<char>)
    requires
        text_below(a, b),
        text_below(b, c),
    ensures
        text_below(a, c),
    decreases a.len(),
{
    if a.len() > 0 && a[0] == b[0] && b[0] == c[0] {
        lemma_text_order_transitive(a.skip(1), b.skip(1), c.skip(1));
    }
}

/// Of two texts that differ one stands before the other.
pub proof fn lemma_text_order_total(a: Seq<char>, b: Seq<char>)
    ensures
        text_below(a, b) || text_below(b, a) || a == b,
    decreases a.len(),
{
    if a.len() > 0 && b.len() > 0 && a[0] == b[0] {
        lemma_text_order_total(a.skip(1), b.skip(1));
        if a.skip(1) == b.skip(1) {
            assert(a == seq![a[0]] + a.skip(1));
            assert(b == seq![b[0]] + b.skip(1));
        }
    } else if a.len() == 0 && b.len() == 0 {
        assert(a == b);
    }
}

/// Whether `a` stands before `b` in the order of a dictionary.
pub fn chars_below(a: &Vec<char>, b: &Vec<char>) -> (below: bool)
    ensures
        below == text_below(a@, b@),
{
    let mut i: usize = 0;
    assert(a@.skip(0) == a@ && b@.skip(0) == b@);
    while i < a.len() && i < b.len()
        invariant
            i <= a.len(),
            i <= b.len(),
            text_below(a@, b@) == text_below(a@.skip(i as int), b@.skip(i as int)),
        decreases a.len() - i,
    {
        if a[i] != b[i] {
            return a[i] < b[i];
        }
        assert(a@.skip(i as int).skip(1) == a@.skip(i + 1));
        assert(b@.skip(i as int).skip(1) == b@.skip(i + 1));
        i += 1;
    }
    i < b.len()
}

/// The characters of `s` from position `from` up to, not including, `to`.
pub fn slice_of(s: &Vec<char>, from: usize, to: usize) -> (part: Vec<char>)
    requires
        from <= to <= s.len(),
    ensures
        part@ == s@.subrange(from as int, to as int),
{
    let mut part: Vec<char> = Vec::new();
    let mut i: usize = from;
    while i < to
        invariant
            from <= i <= to <= s.len(),
            part@ == s@.subrange(from as int, i as int),
        decreases to - i,
    {
        part.push(s[i]);
        i += 1;
    }
    part
}

/// The position of the first `sep` in `s`, or the length of `s` where it
/// holds none.
pub open spec fn first_index(s: Seq<char>, sep: char) -> int
    decreases s.len(),
{
    if s.len() == 0 || s[0] == sep {
        0
    } else {
        1 + first_index(s.skip(1), sep)
    }
}

/// `first_index` is the one position before which `s` holds no `sep` and at
/// which it holds one or ends.
pub proof fn lemma_first_index(s: Seq<char>, sep: char, k: int)
    requires
        0 <= k <= s.len(),
        forall|j: int| 0 <= j < k ==> s[j] != sep,
        k < s.len() ==> s[k] == sep,
    ensures
        first_index(s, sep) == k,
    decreases s.len(),
{
    if k > 0 {
        assert(s[0] != sep);
        lemma_first_index(s.skip(1), sep, k - 1);
    }
}

/// The pieces of `s` between the occurrences of `sep`: always at least one
/// piece, and an empty one wherever two separators touch or `s` begins or
/// ends with one.
pub open spec fn split(s: Seq<char>, sep: char) -> Seq<Seq<char>>
    decreases s.len(),
{
    let i = first_index(s, sep);
    if 0 <= i < s.len() {
        seq![s.take(i)] + split(s.skip(i + 1), sep)
    } else {
        seq![s]
    }
}

/// Whether `s` holds no `sep`.
pub open spec fn free_of(s: Seq<char>, sep: char) -> bool {
    forall|i: int| 0 <= i < s.len() ==> s[i] != sep
}

/// A text without separator is its own single piece.
pub proof fn lemma_split_whole(s: Seq<char>, sep: char)
    requires
        free_of(s, sep),
    ensures
        split(s, sep) == seq![s],
{
    lemma_first_index(s, sep, s.len() as int);
}

/// The first piece of a text is what stands before its first separator, and
/// the other pieces are those of what follows it.
pub proof fn lemma_split_first(head: Seq<char>, rest: Seq<char>, sep: char)
    requires
        free_of(head, sep),
    ensures
        split(head.push(sep) + rest, sep) == seq![head] + split(rest, sep),
{
    let whole = head.push(sep) + rest;
    lemma_first_index(whole, sep, head.len() as int);
    assert(whole.take(head.len() as int) == head);
    assert(whole.skip(head.len() as int + 1) == rest);
}

/// Before the first `sep` stands none, and the position lies in `s` or at
/// its end.
pub proof fn lemma_first_index_bounds(s: Seq<char>, sep: char)
    ensures
        0 <= first_index(s, sep) <= s.len(),
        forall|j: int| 0 <= j < first_index(s, sep) ==> s[j] != sep,
        first_index(s, sep) < s.len() ==> s[first_index(s, sep)] == sep,
    decreases s.len(),
{
    if s.len() > 0 && s[0] != sep {
        let rest = s.skip(1);
        lemma_first_index_bounds(rest, sep);
        assert forall|j: int| 0 <= j < first_index(s, sep) implies s[j] != sep by {
            if j > 0 {
                assert(s[j] == rest[j - 1]);
            }
        }
    }
}

/// The pieces of two texts with a separator between them are the pieces of
/// the first and then those of the second.
pub proof fn lemma_split_concat(a: Seq<char>, b: Seq<char>, sep: char)
    ensures
        split(a.push(sep) + b, sep) == split(a, sep) + split(b, sep),
    decreases a.len(),
{
    lemma_first_index_bounds(a, sep);
    let at = first_index(a, sep);
    if at < a.len() {
        let head = a.take(at);
        let rest = a.skip(at + 1);
        assert(a == head.push(sep) + rest);
        assert(a.push(sep) + b == head.push(sep) + (rest.push(sep) + b));
        assert(free_of(head, sep));
        lemma_split_first(head, rest.push(sep) + b, sep);
        lemma_split_concat(rest, b, sep);
        assert(seq![head] + (split(rest, sep) + split(b, sep)) == (seq![head] + split(rest, sep))
            + split(b, sep));
    } else {
        lemma_split_whole(a, sep);
        lemma_split_first(a, b, sep);
    }
}

/// A text has at least one piece, and no piece holds a separator.
pub proof fn lemma_split_pieces(s: Seq<char>, sep: char)
    ensures
        split(s, sep).len() >= 1,
        forall|i: int| 0 <= i < split(s, sep).len() ==> free_of(#[trigger] split(s, sep)[i], sep),
    decreases s.len(),
{
    lemma_first_index_bounds(s, sep);
    let at = first_index(s, sep);
    if at < s.len() {
        lemma_split_pieces(s.skip(at + 1), sep);
        let rest = split(s.skip(at + 1), sep);
        assert forall|i: int| 0 <= i < split(s, sep).len() implies free_of(
            #[trigger] split(s, sep)[i],
            sep,
        ) by {
            if i > 0 {
                assert(split(s, sep)[i] == rest[i - 1]);
            }
        }
    }
}

/// A joined text begins with its first piece and a separator, where it has
/// more pieces than one.
pub proof fn lemma_join_first(parts: Seq<Seq<char>>, sep: char)
    requires
        parts.len() >= 2,
    ensures
        join(parts, sep) == parts[0].push(sep) + join(parts.drop_first(), sep),
    decreases parts.len(),
{
    let front = parts.drop_last();
    let rest = parts.drop_first();
    let last = parts.last();
    assert(join(parts, sep) == join(front, sep).push(sep) + last);
    if parts.len() > 2 {
        lemma_join_first(front, sep);
        let middle = join(front.drop_first(), sep);
        assert(front[0] == parts[0]);
        assert(front.drop_first() == rest.drop_last());
        assert(rest.last() == last);
        assert(join(rest, sep) == middle.push(sep) + last);
        assert((parts[0].push(sep) + middle).push(sep) + last == parts[0].push(sep) + (middle.push(
            sep,
        ) + last));
    } else {
        assert(front.len() == 1 && front[0] == parts[0]);
        assert(rest.len() == 1 && rest[0] == last);
    }
}

/// Splitting undoes joining, for one piece or more that hold no separator.
pub proof fn lemma_split_join(parts: Seq<Seq<char>>, sep: char)
    requires
        parts.len() >= 1,
        forall|i: int| 0 <= i < parts.len() ==> free_of(#[trigger] parts[i], sep),
    ensures
        split(join(parts, sep), sep) == parts,
    decreases parts.len(),
{
    if parts.len() == 1 {
        lemma_split_whole(parts[0], sep);
        assert(parts == seq![parts[0]]);
    } else {
        let rest = parts.drop_first();
        assert forall|i: int| 0 <= i < rest.len() implies free_of(#[trigger] rest[i], sep) by {
            assert(rest[i] == parts[i + 1]);
        }
        lemma_split_join(rest, sep);
        lemma_join_first(parts, sep);
        lemma_split_first(parts[0], join(rest, sep), sep);
        assert(seq![parts[0]] + rest == parts);
    }
}

/// The pieces of `parts` in order, with one `sep` between neighbours.
pub open spec fn join(parts: Seq<Seq<char>>, sep: char) -> Seq<char>
    decreases parts.len(),
{
    if parts.len() == 0 {
        Seq::empty()
    } else if parts.len() == 1 {
        parts[0]
    } else {
        join(parts.drop_last(), sep).push(sep) + parts.last()
    }
}

/// Splits `s` at every `sep`.
pub fn split_chars(s: &Vec<char>, sep: char) -> (parts: Vec<Vec<char>>)
    ensures
        rows(parts@) == split(s@, sep),
{
    let mut parts: Vec<Vec<char>> = Vec::new();
    let mut piece: Vec<char> = Vec::new();
    let mut start: usize = 0;
    let mut i: usize = 0;
    proof {
        assert(s@.skip(0) == s@);
        assert(rows(parts@) + split(s@, sep) == split(s@, sep));
    }
    while i < s.len()
        invariant
            start <= i <= s.len(),
            piece@ == s@.subrange(start as int, i as int),
            forall|j: int| start <= j < i ==> s@[j] != sep,
            split(s@, sep) == rows(parts@) + split(s@.skip(start as int), sep),
        decreases s.len() - i,
    {
        let c = s[i];
        if c == sep {
            proof {
                let rest = s@.skip(start as int);
                lemma_first_index(rest, sep, i - start);
                assert(rest.take(i - start) == piece@);
                assert(rest.skip(i - start + 1) == s@.skip(i + 1));
                assert(rows(parts@.push(piece)) == rows(parts@).push(piece@));
            }
            parts.push(piece);
            piece = Vec::new();
            start = i + 1;
        } else {
            piece.push(c);
        }
        i += 1;
    }
    proof {
        let rest = s@.skip(start as int);
        lemma_first_index(rest, sep, rest.len() as int);
        assert(rest == piece@);
        assert(rows(parts@.push(piece)) == rows(parts@).push(piece@));
    }
    parts.push(piece);
    parts
}

/// Joins `parts` with one `sep` between neighbours.
pub fn join_chars(parts: &Vec<Vec<char>>, sep: char) -> (joined: Vec<char>)
    ensures
        joined@ == join(rows(parts@), sep),
{
    let mut joined: Vec<char> = Vec::new();
    let mut i: usize = 0;
    while i < parts.len()
        invariant
            i <= parts.len(),
            joined@ == join(rows(parts@).take(i as int), sep),
        decreases parts.len() - i,
    {
        proof {
            let upto = rows(parts@).take(i + 1);
            assert(upto.drop_last() == rows(parts@).take(i as int));
            assert(upto.last() == parts@[i as int]@);
        }
        if i > 0 {
            joined.push(sep);
        }
        push_chars(&mut joined, &parts[i]);
        i += 1;
    }
    assert(rows(parts@).take(parts.len() as int) == rows(parts@));
    joined
}

/// The characters that count as white space: those of the Unicode property
/// `White_Space`.
pub open spec fn is_space(c: char) -> bool {
    let n = c as u32;
    ||| 0x09 <= n <= 0x0d
    ||| n == 0x20
    ||| n == 0x85
    ||| n == 0xa0
    ||| n == 0x1680
    ||| 0x2000 <= n <= 0x200a
    ||| n == 0x2028
    ||| n == 0x2029
    ||| n == 0x202f
    ||| n == 0x205f
    ||| n == 0x3000
}

/// The number of white-space characters at the start of `s`.
pub open spec fn leading_spaces(s: Seq<char>) -> nat
    decreases s.len(),
{
    if s.len() > 0 && is_space(s[0]) {
        1 + leading_spaces(s.skip(1))
    } else {
        0
    }
}

/// The number of white-space characters at the end of `s`.
pub open spec fn trailing_spaces(s: Seq<char>) -> nat
    decreases s.len(),
{
    if s.len() > 0 && is_space(s.last()) {
        1 + trailing_spaces(s.drop_last())
    } else {
        0
    }
}

/// `s` without the white space at its start and at its end.
pub open spec fn trim(s: Seq<char>) -> Seq<char> {
    let from = leading_spaces(s);
    let rest = s.skip(from as int);
    rest.take(rest.len() - trailing_spaces(rest))
}

/// The white space at the start of `s` ends at the first character that is
/// none.
pub proof fn lemma_leading_spaces(s: Seq<char>, k: int)
    requires
        0 <= k <= s.len(),
        forall|j: int| 0 <= j < k ==> is_space(s[j]),
        k < s.len() ==> !is_space(s[k]),
    ensures
        leading_spaces(s) == k,
    decreases s.len(),
{
    if k > 0 {
        assert(is_space(s[0]));
        lemma_leading_spaces(s.skip(1), k - 1);
    }
}

/// The white space at the end of `s` begins behind the last character
/// that is none.
pub proof fn lemma_trailing_spaces(s: Seq<char>, k: int)
    requires
        0 <= k <= s.len(),
        forall|j: int| s.len() - k <= j < s.len() ==> is_space(s[j]),
        k < s.len() ==> !is_space(s[s.len() - k - 1]),
    ensures
        trailing_spaces(s) == k,
    decreases s.len(),
{
    if k > 0 {
        assert(is_space(s.last()));
        lemma_trailing_spaces(s.drop_last(), k - 1);
    }
}

/// Whether `c` is white space.
pub fn is_whitespace(c: char) -> (space: bool)
    ensures
        space == is_space(c),
{
    let n: u32 = c as u32;
    (0x09 <= n && n <= 0x0d) || n == 0x20 || n == 0x85 || n == 0xa0 || n == 0x1680 || (0x2000
        <= n && n <= 0x200a) || n == 0x2028 || n == 0x2029 || n == 0x202f || n == 0x205f || n
        == 0x3000
}

/// `s` without the white space at its start and at its end.
pub fn trim_chars(s: &Vec<char>) -> (trimmed: Vec<char>)
    ensures
        trimmed@ == trim(s@),
{
    let mut from: usize = 0;
    while from < s.len() && is_whitespace(s[from])
        invariant
            from <= s.len(),
            forall|j: int| 0 <= j < from ==> is_space(s@[j]),
        decreases s.len() - from,
    {
        from += 1;
    }
    let mut to: usize = s.len();
    while to > from && is_whitespace(s[to - 1])
        invariant
            from <= to <= s.len(),
            forall|j: int| to <= j < s.len() ==> is_space(s@[j]),
        decreases to,
    {
        to -= 1;
    }
    proof {
        lemma_leading_spaces(s@, from as int);
        let rest = s@.skip(from as int);
        lemma_trailing_spaces(rest, s.len() - to);
        assert(rest.take(rest.len() - (s.len() - to)) == s@.subrange(from as int, to as int));
    }
    slice_of(s, from, to)
}

} // verus!

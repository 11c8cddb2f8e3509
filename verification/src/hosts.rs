//! The host-file convention of blocklist sources: one entry per line, the
//! blocked name being the second word of the line.

use vstd::prelude::*;
use crate::text::{
    chars_of, end_without_dots, is_ascii_text, is_space, is_whitespace, lemma_ascii_lowercase,
    lemma_without_trailing_dots, lowercase, string_of, to_lowercase, without_trailing_dots,
};

verus! {

/// The first position at or after `from` that holds no whitespace, or the
/// length of the line where only whitespace follows.
pub open spec fn skip_spaces(line: Seq<char>, from: int) -> int
    decreases line.len() - from,
{
    if 0 <= from < line.len() && is_space(line[from]) {
        skip_spaces(line, from + 1)
    } else {
        from
    }
}

/// The first position at or after `from` that holds whitespace, or the
/// length of the line where none follows.
pub open spec fn skip_word(line: Seq<char>, from: int) -> int
    decreases line.len() - from,
{
    if 0 <= from < line.len() && !is_space(line[from]) {
        skip_word(line, from + 1)
    } else {
        from
    }
}

/// Skipping whitespace stops at the first character that is none: all that
/// was skipped is whitespace, and what follows, if anything, is not.
pub proof fn lemma_skip_spaces(line: Seq<char>, from: int)
    requires
        0 <= from <= line.len(),
    ensures
        from <= skip_spaces(line, from) <= line.len(),
        forall|k: int| from <= k < skip_spaces(line, from) ==> is_space(#[trigger] line[k]),
        skip_spaces(line, from) < line.len() ==> !is_space(line[skip_spaces(line, from)]),
    decreases line.len() - from,
{
    if from < line.len() && is_space(line[from]) {
        lemma_skip_spaces(line, from + 1);
    }
}

/// Skipping a word stops at the first whitespace: nothing that was skipped
/// is whitespace, and what follows, if anything, is.
pub proof fn lemma_skip_word(line: Seq<char>, from: int)
    requires
        0 <= from <= line.len(),
    ensures
        from <= skip_word(line, from) <= line.len(),
        forall|k: int| from <= k < skip_word(line, from) ==> !is_space(#[trigger] line[k]),
        skip_word(line, from) < line.len() ==> is_space(line[skip_word(line, from)]),
    decreases line.len() - from,
{
    if from < line.len() && !is_space(line[from]) {
        lemma_skip_word(line, from + 1);
    }
}

/// The second of the words that whitespace separates on a line, if it has two.
pub open spec fn second_word(line: Seq<char>) -> Option<Seq<char>> {
    let first = skip_spaces(line, 0);
    let gap = skip_word(line, first);
    let start = skip_spaces(line, gap);
    if start < line.len() {
        Some(line.subrange(start, skip_word(line, start)))
    } else {
        None
    }
}

/// The second word of a line is a word: it is not empty and holds no whitespace.
pub proof fn second_word_is_a_word(line: Seq<char>)
    ensures
        match second_word(line) {
            Some(word) => word.len() > 0 && forall|k: int|
                0 <= k < word.len() ==> !is_space(#[trigger] word[k]),
            None => true,
        },
{
    lemma_skip_spaces(line, 0);
    let first = skip_spaces(line, 0);
    lemma_skip_word(line, first);
    let gap = skip_word(line, first);
    lemma_skip_spaces(line, gap);
    let start = skip_spaces(line, gap);
    if start < line.len() {
        lemma_skip_word(line, start);
        let end = skip_word(line, start);
        let word = line.subrange(start, end);
        assert forall|k: int| 0 <= k < word.len() implies !is_space(#[trigger] word[k]) by {
            assert(word[k] == line[start + k]);
        }
    }
}

/// Whether a name stands for the local host: `localhost` itself and every
/// name under it.
pub open spec fn is_local_name(name: Seq<char>) -> bool {
    name == "localhost"@ || "localhost."@.is_prefix_of(name)
}

/// The name that a line gives: its second word, unless that is a local name.
pub open spec fn hosts_line_name(line: Seq<char>) -> Option<Seq<char>> {
    match second_word(line) {
        Some(name) => if is_local_name(name) {
            None
        } else {
            Some(name)
        },
        None => None,
    }
}

/// Whether a line holds nothing but whitespace, or starts a comment with `#`
/// as its first character after leading whitespace.
pub open spec fn is_blank_or_comment(line: Seq<char>) -> bool {
    let first = skip_spaces(line, 0);
    first >= line.len() || line[first] == '#'
}

/// The entry that a line of a source adds to the blocked names: none for a
/// blank line or a comment, else the name it gives in the form in which
/// names are looked up, without the root separator at its end and in
/// lowercase.
pub open spec fn line_entry(line: Seq<char>) -> Option<Seq<char>> {
    if is_blank_or_comment(line) {
        None
    } else {
        match hosts_line_name(line) {
            Some(name) => Some(lowercase(without_trailing_dots(name))),
            None => None,
        }
    }
}

/// The entry of a line of ASCII characters is in the form in which names are
/// looked up: it does not end in a dot, and it is its own lowercase form.
pub proof fn entry_is_normalized(line: Seq<char>)
    requires
        is_ascii_text(line),
    ensures
        match line_entry(line) {
            Some(entry) => {
                &&& entry.len() > 0 ==> entry.last() != '.'
                &&& lowercase(entry) == entry
                &&& is_ascii_text(entry)
            },
            None => true,
        },
{
    if line_entry(line) is Some {
        let name = hosts_line_name(line)->Some_0;
        let bare = without_trailing_dots(name);
        lemma_without_trailing_dots(name);
        lemma_skip_spaces(line, 0);
        let first = skip_spaces(line, 0);
        lemma_skip_word(line, first);
        let gap = skip_word(line, first);
        lemma_skip_spaces(line, gap);
        let start = skip_spaces(line, gap);
        lemma_skip_word(line, start);
        assert(name == line.subrange(start, skip_word(line, start)));
        assert(is_ascii_text(bare)) by {
            assert forall|i: int| 0 <= i < bare.len() implies (#[trigger] bare[i]) as u32
                <= 0x7f by {
                assert(bare[i] == name[i]);
                assert(name[i] == line[start + i]);
            }
        }
        lemma_ascii_lowercase(bare);
    }
}

/// The first position at or after `from` that holds a line feed, or the
/// length of the text where none follows.
pub open spec fn line_end(text: Seq<char>, from: int) -> int
    decreases text.len() - from,
{
    if 0 <= from < text.len() && text[from] != '\n' {
        line_end(text, from + 1)
    } else {
        from
    }
}

/// The lines of a text from position `from` on: the stretches between line feeds.
pub open spec fn lines_from(text: Seq<char>, from: int) -> Seq<Seq<char>>
    decreases text.len() - from,
{
    let end = line_end(text, from);
    if 0 <= from <= end < text.len() {
        seq![text.subrange(from, end)] + lines_from(text, end + 1)
    } else {
        seq![text.subrange(from, text.len() as int)]
    }
}

/// The lines of a text.
pub open spec fn lines(text: Seq<char>) -> Seq<Seq<char>> {
    lines_from(text, 0)
}

/// The entries of a sequence of lines.
pub open spec fn entries_of(lines: Seq<Seq<char>>) -> Set<Seq<char>> {
    Set::new(
        |name: Seq<char>|
            exists|i: int| 0 <= i < lines.len() && #[trigger] line_entry(lines[i]) == Some(name),
    )
}

/// The blocked names that a source text gives: the entries of its lines.
pub open spec fn source_names(text: Seq<char>) -> Set<Seq<char>> {
    entries_of(lines(text))
}

/// One more line adds its entry, if it has one, and nothing else.
pub proof fn lemma_entries_push(lines: Seq<Seq<char>>, line: Seq<char>)
    ensures
        entries_of(lines.push(line)) == match line_entry(line) {
            Some(name) => entries_of(lines).insert(name),
            None => entries_of(lines),
        },
{
    let more = lines.push(line);
    let expected = match line_entry(line) {
        Some(name) => entries_of(lines).insert(name),
        None => entries_of(lines),
    };
    assert forall|name: Seq<char>| entries_of(more).contains(name) implies expected.contains(
        name,
    ) by {
        let i = choose|i: int| 0 <= i < more.len() && #[trigger] line_entry(more[i]) == Some(name);
        if i < lines.len() {
            assert(line_entry(lines[i]) == Some(name));
        }
    }
    assert forall|name: Seq<char>| expected.contains(name) implies entries_of(more).contains(
        name,
    ) by {
        if entries_of(lines).contains(name) {
            let i = choose|i: int|
                0 <= i < lines.len() && #[trigger] line_entry(lines[i]) == Some(name);
            assert(line_entry(more[i]) == Some(name));
        } else {
            assert(line_entry(more[lines.len() as int]) == Some(name));
        }
    }
    assert(entries_of(more) =~= expected);
}

/// Where the whitespace that starts at `from` ends, within the line that
/// runs from `start` up to `end`.
pub(crate) fn skip_spaces_in(chars: &Vec<char>, start: usize, end: usize, from: usize) -> (at: usize)
    requires
        start <= from <= end <= chars.len(),
    ensures
        from <= at <= end,
        at - start == skip_spaces(chars@.subrange(start as int, end as int), from - start),
{
    let ghost line = chars@.subrange(start as int, end as int);
    let mut at: usize = from;
    while at < end && is_whitespace(chars[at])
        invariant
            start <= from <= at <= end <= chars.len(),
            line == chars@.subrange(start as int, end as int),
            skip_spaces(line, from - start) == skip_spaces(line, at - start),
        decreases end - at,
    {
        assert(line[at - start] == chars@[at as int]);
        at += 1;
    }
    assert(at < end ==> line[at - start] == chars@[at as int]);
    at
}

/// Where the word that starts at `from` ends, within the line that runs
/// from `start` up to `end`.
pub(crate) fn skip_word_in(chars: &Vec<char>, start: usize, end: usize, from: usize) -> (at: usize)
    requires
        start <= from <= end <= chars.len(),
    ensures
        from <= at <= end,
        at - start == skip_word(chars@.subrange(start as int, end as int), from - start),
{
    let ghost line = chars@.subrange(start as int, end as int);
    let mut at: usize = from;
    while at < end && !is_whitespace(chars[at])
        invariant
            start <= from <= at <= end <= chars.len(),
            line == chars@.subrange(start as int, end as int),
            skip_word(line, from - start) == skip_word(line, at - start),
        decreases end - at,
    {
        assert(line[at - start] == chars@[at as int]);
        at += 1;
    }
    assert(at < end ==> line[at - start] == chars@[at as int]);
    at
}

/// Whether the stretch of `chars` from `start` up to `end` begins with `prefix`.
pub(crate) fn has_prefix(chars: &Vec<char>, start: usize, end: usize, prefix: &Vec<char>) -> (found: bool)
    requires
        start <= end <= chars.len(),
    ensures
        found == prefix@.is_prefix_of(chars@.subrange(start as int, end as int)),
{
    let ghost word = chars@.subrange(start as int, end as int);
    if prefix.len() > end - start {
        return false;
    }
    let mut i: usize = 0;
    while i < prefix.len()
        invariant
            start <= end <= chars.len(),
            prefix.len() <= end - start,
            word == chars@.subrange(start as int, end as int),
            0 <= i <= prefix.len(),
            forall|k: int| 0 <= k < i ==> prefix@[k] == word[k],
        decreases prefix.len() - i,
    {
        if prefix[i] != chars[start + i] {
            assert(word.subrange(0, prefix@.len() as int)[i as int] != prefix@[i as int]);
            return false;
        }
        i += 1;
    }
    assert(prefix@ =~= word.subrange(0, prefix@.len() as int));
    true
}

/// Whether the stretch of `chars` from `start` up to `end` is a local name.
pub(crate) fn is_local_name_in(chars: &Vec<char>, start: usize, end: usize) -> (local: bool)
    requires
        start <= end <= chars.len(),
    ensures
        local == is_local_name(chars@.subrange(start as int, end as int)),
{
    let ghost word = chars@.subrange(start as int, end as int);
    let host = chars_of("localhost");
    let under = chars_of("localhost.");
    let exact = host.len() == end - start && has_prefix(chars, start, end, &host);
    proof {
        if host.len() == end - start {
            assert(word.subrange(0, word.len() as int) =~= word);
        }
    }
    exact || has_prefix(chars, start, end, &under)
}

/// The name that the line from `start` up to `end` gives, as the bounds of
/// the name within `chars`.
pub(crate) fn hosts_line_name_in(chars: &Vec<char>, start: usize, end: usize) -> (bounds: Option<
    (usize, usize),
>)
    requires
        start <= end <= chars.len(),
    ensures
        match bounds {
            Some((from, to)) => start <= from <= to <= end && hosts_line_name(
                chars@.subrange(start as int, end as int),
            ) == Some(chars@.subrange(from as int, to as int)),
            None => hosts_line_name(chars@.subrange(start as int, end as int)) is None,
        },
{
    let ghost line = chars@.subrange(start as int, end as int);
    let first = skip_spaces_in(chars, start, end, start);
    let gap = skip_word_in(chars, start, end, first);
    let from = skip_spaces_in(chars, start, end, gap);
    if from >= end {
        return None;
    }
    let to = skip_word_in(chars, start, end, from);
    assert(line.subrange(from - start, to - start) =~= chars@.subrange(from as int, to as int));
    if is_local_name_in(chars, from, to) {
        None
    } else {
        Some((from, to))
    }
}

/// The entry of the line from `start` up to `end`.
pub(crate) fn line_entry_in(chars: &Vec<char>, start: usize, end: usize) -> (entry: Option<String>)
    requires
        start <= end <= chars.len(),
    ensures
        match entry {
            Some(name) => line_entry(chars@.subrange(start as int, end as int)) == Some(name@),
            None => line_entry(chars@.subrange(start as int, end as int)) is None,
        },
{
    let ghost line = chars@.subrange(start as int, end as int);
    let first = skip_spaces_in(chars, start, end, start);
    if first >= end {
        return None;
    }
    assert(line[first - start] == chars@[first as int]);
    if chars[first] == '#' {
        return None;
    }
    match hosts_line_name_in(chars, start, end) {
        Some((from, to)) => {
            let name = string_of(chars, from, end_without_dots(chars, from, to));
            Some(to_lowercase(name.as_str()))
        },
        None => None,
    }
}

/// Where the line that starts at `from` ends.
pub(crate) fn line_end_in(chars: &Vec<char>, from: usize) -> (at: usize)
    requires
        from <= chars.len(),
    ensures
        from <= at <= chars.len(),
        at == line_end(chars@, from as int),
{
    let mut at: usize = from;
    while at < chars.len() && chars[at] != '\n'
        invariant
            from <= at <= chars.len(),
            line_end(chars@, from as int) == line_end(chars@, at as int),
        decreases chars.len() - at,
    {
        at += 1;
    }
    at
}

} // verus!

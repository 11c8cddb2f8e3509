//! Characters and strings: the few operations of the standard library that
//! the rest of the crate builds on.

use vstd::prelude::*;

verus! {

/// What `str::to_lowercase` makes of a text.
pub uninterp spec fn unicode_lowercase(text: Seq<char>) -> Seq<char>;

/// Whether a text holds ASCII characters only.
pub open spec fn is_ascii_text(text: Seq<char>) -> bool {
    forall|i: int| 0 <= i < text.len() ==> (#[trigger] text[i]) as u32 <= 0x7f
}

/// The lowercase form of an ASCII character: the capital letters `A` to `Z`
/// become `a` to `z`, every other character stays as it is.
pub open spec fn ascii_lower(c: char) -> char {
    if 'A' <= c <= 'Z' {
        ((c as u8) + 32) as u8 as char
    } else {
        c
    }
}

/// A text with every character in its ASCII lowercase form.
pub open spec fn ascii_lowercase(text: Seq<char>) -> Seq<char> {
    Seq::new(text.len(), |i: int| ascii_lower(text[i]))
}

/// The lowercase form of a text, in which domain names are compared. For a
/// text of ASCII characters it is the text with its capital letters turned
/// into small ones; for any other text it is what `str::to_lowercase`
/// makes of it.
pub open spec fn lowercase(text: Seq<char>) -> Seq<char> {
    if is_ascii_text(text) {
        ascii_lowercase(text)
    } else {
        unicode_lowercase(text)
    }
}

/// On a text of ASCII characters the lowercase form is again such a text,
/// of the same length, and is its own lowercase form.
pub proof fn lemma_ascii_lowercase(text: Seq<char>)
    requires
        is_ascii_text(text),
    ensures
        lowercase(text) == ascii_lowercase(text),
        lowercase(text).len() == text.len(),
        is_ascii_text(lowercase(text)),
        lowercase(lowercase(text)) == lowercase(text),
        forall|i: int| 0 <= i < text.len() ==> ((#[trigger] lowercase(text)[i]) == '.' <==> text[i] == '.'),
{
    let lower = ascii_lowercase(text);
    assert forall|i: int| 0 <= i < lower.len() implies (#[trigger] lower[i]) as u32 <= 0x7f by {
        assert(text[i] as u32 <= 0x7f);
    }
    assert(ascii_lowercase(lower) =~= lower);
}

/// Whether a character is whitespace, which separates words: whether it is
/// one of the characters with the Unicode property `White_Space`.
pub open spec fn is_space(c: char) -> bool {
    let code = c as u32;
    ||| 0x09 <= code <= 0x0d
    ||| code == 0x20
    ||| code == 0x85
    ||| code == 0xa0
    ||| code == 0x1680
    ||| 0x2000 <= code <= 0x200a
    ||| code == 0x2028
    ||| code == 0x2029
    ||| code == 0x202f
    ||| code == 0x205f
    ||| code == 0x3000
}

/// `str::to_lowercase`: the result is the lowercase form of the argument.
/// Beside the name for what the function returns this claims one fact of
/// it: on a text of ASCII characters alone it turns `A` to `Z` into `a` to
/// `z` and changes nothing else.
#[verifier::external_body]
pub(crate) fn to_lowercase(text: &str) -> (lower: String)
    ensures
        lower@ == unicode_lowercase(text@),
        lower@ == lowercase(text@),
{
    text.to_lowercase()
}

/// Whether a character is whitespace. The characters are those that
/// `char::is_whitespace` of the standard library takes for whitespace.
pub(crate) fn is_whitespace(c: char) -> (space: bool)
    ensures
        space == is_space(c),
{
    let code = c as u32;
    (0x09 <= code && code <= 0x0d) || code == 0x20 || code == 0x85 || code == 0xa0 || code
        == 0x1680 || (0x2000 <= code && code <= 0x200a) || code == 0x2028 || code == 0x2029
        || code == 0x202f || code == 0x205f || code == 0x3000
}

/// `String::push`: the character is appended at the end.
#[verifier::external_body]
pub(crate) fn push_char(text: &mut String, c: char)
    ensures
        final(text)@ == old(text)@.push(c),
{
    text.push(c)
}

/// The characters of a text, in order.
pub fn chars_of(text: &str) -> (chars: Vec<char>)
    ensures
        chars@ == text@,
{
    let mut chars: Vec<char> = Vec::new();
    for c in it: text.chars()
        invariant
            it.seq() == text@,
            chars@ == it.seq().take(it.index()),
    {
        chars.push(c);
    }
    chars
}

/// The text made of the characters of `chars` from `from` up to `to`.
pub(crate) fn string_of(chars: &Vec<char>, from: usize, to: usize) -> (text: String)
    requires
        from <= to <= chars.len(),
    ensures
        text@ == chars@.subrange(from as int, to as int),
{
    let mut text = String::new();
    let mut i: usize = from;
    while i < to
        invariant
            from <= i <= to <= chars.len(),
            text@ == chars@.subrange(from as int, i as int),
        decreases to - i,
    {
        push_char(&mut text, chars[i]);
        i += 1;
    }
    text
}

/// A text without the dots at its end.
pub open spec fn without_trailing_dots(text: Seq<char>) -> Seq<char>
    decreases text.len(),
{
    if text.len() > 0 && text.last() == '.' {
        without_trailing_dots(text.drop_last())
    } else {
        text
    }
}

/// What is left of a text without the dots at its end does not end in a
/// dot, and starts the text.
pub proof fn lemma_without_trailing_dots(text: Seq<char>)
    ensures
        without_trailing_dots(text).len() > 0 ==> without_trailing_dots(text).last() != '.',
        without_trailing_dots(text).is_prefix_of(text),
        without_trailing_dots(without_trailing_dots(text)) == without_trailing_dots(text),
    decreases text.len(),
{
    if text.len() > 0 && text.last() == '.' {
        lemma_without_trailing_dots(text.drop_last());
        let rest = without_trailing_dots(text.drop_last());
        assert(rest =~= text.subrange(0, rest.len() as int)) by {
            assert(rest =~= text.drop_last().subrange(0, rest.len() as int));
        }
    } else {
        assert(text =~= text.subrange(0, text.len() as int));
    }
}

/// Where the stretch of `chars` from `from` up to `to` ends once the dots
/// at its end are left off.
pub(crate) fn end_without_dots(chars: &Vec<char>, from: usize, to: usize) -> (end: usize)
    requires
        from <= to <= chars.len(),
    ensures
        from <= end <= to,
        chars@.subrange(from as int, end as int) == without_trailing_dots(
            chars@.subrange(from as int, to as int),
        ),
{
    let mut end: usize = to;
    while end > from && chars[end - 1] == '.'
        invariant
            from <= end <= to <= chars.len(),
            without_trailing_dots(chars@.subrange(from as int, end as int))
                == without_trailing_dots(chars@.subrange(from as int, to as int)),
        decreases end,
    {
        assert(chars@.subrange(from as int, end as int).drop_last() =~= chars@.subrange(
            from as int,
            end - 1,
        ));
        end -= 1;
    }
    end
}

/// Removes every dot that ends the text: the root separator that closes a
/// fully qualified domain name.
pub fn strip_trailing_dots(text: &str) -> (stripped: String)
    ensures
        stripped@ == without_trailing_dots(text@),
{
    let chars = chars_of(text);
    assert(chars@.subrange(0, chars@.len() as int) =~= text@);
    let end = end_without_dots(&chars, 0, chars.len());
    string_of(&chars, 0, end)
}

} // verus!

//! Patterns that block every name they match: regular expressions, compiled
//! and matched by the `regex` crate.

use vstd::prelude::*;

verus! {

/// `regex::Regex`, a compiled regular expression; nothing is known of what
/// is inside.
#[verifier::external_type_specification]
#[verifier::external_body]
pub struct ExRegex(regex::Regex);

/// `regex::Error`, the reason why a text did not compile; nothing is known
/// of what is inside.
#[verifier::external_type_specification]
#[verifier::external_body]
pub struct ExRegexError(regex::Error);

/// Whether the regular expression written as `pattern` matches somewhere in
/// `text`, as `Regex::is_match` decides it for the compiled expression.
pub uninterp spec fn pattern_matches(pattern: Seq<char>, text: Seq<char>) -> bool;

/// Whether `Regex::new` compiles the text on a machine whose addresses have
/// `word_bits` bits. It refuses a text that is no regular expression, and
/// one whose compiled form is larger than a limit in bytes; the parts of
/// that form are larger where addresses are.
pub uninterp spec fn pattern_compiles(source: Seq<char>, word_bits: nat) -> bool;

/// A compiled pattern. Its fields are set where the pattern is compiled and
/// nowhere else but in a copy, so `matcher` is always the expression that
/// `Regex::new` made of `source`.
#[derive(Debug)]
pub struct Pattern {
    source: String,
    matcher: regex::Regex,
}

/// Why a pattern was refused.
#[derive(Clone, Copy, Debug, PartialEq, Eq)]
pub enum PatternError {
    /// The text is no regular expression, or one too large to compile.
    Invalid,
}

impl View for Pattern {
    type V = Seq<char>;

    /// The text of the pattern.
    closed spec fn view(&self) -> Seq<char> {
        self.source@
    }
}

/// `Regex::new`: where it compiles the text, the pattern keeps the text
/// beside the compiled expression. Whether it does depends on the text and
/// on the size of an address on the machine, and on nothing else.
#[verifier::external_body]
fn compile(source: &str) -> (compiled: Result<Pattern, regex::Error>)
    ensures
        compiled is Ok <==> pattern_compiles(source@, usize::BITS as nat),
        compiled matches Ok(pattern) ==> pattern@ == source@,
{
    regex::Regex::new(source).map(|matcher| Pattern { source: source.to_string(), matcher })
}

/// `Regex::is_match`: whether the pattern matches somewhere in the text.
#[verifier::external_body]
fn matches(pattern: &Pattern, text: &str) -> (found: bool)
    ensures
        found == pattern_matches(pattern@, text@),
{
    pattern.matcher.is_match(text)
}

/// `Regex::clone`: the copy is the same expression.
#[verifier::external_body]
fn copy_of(matcher: &regex::Regex) -> (copy: regex::Regex)
    ensures
        copy == *matcher,
{
    matcher.clone()
}

impl Clone for Pattern {
    /// A copy of the pattern, for the same text.
    fn clone(&self) -> (copy: Pattern)
        ensures
            copy@ == self@,
    {
        Pattern { source: self.source.clone(), matcher: copy_of(&self.matcher) }
    }
}

impl Pattern {
    /// Compiles a pattern. A text that the `regex` crate compiles gives the
    /// pattern that stands for it; any other text is refused as invalid.
    pub fn new(source: &str) -> (compiled: Result<Pattern, PatternError>)
        ensures
            compiled is Ok <==> pattern_compiles(source@, usize::BITS as nat),
            compiled matches Ok(pattern) ==> pattern@ == source@,
            compiled matches Err(error) ==> error == PatternError::Invalid,
    {
        Self::from_compiled(compile(source))
    }

    /// Whether the pattern matches somewhere in `text`.
    pub fn is_match(&self, text: &str) -> (found: bool)
        ensures
            found == pattern_matches(self@, text@),
    {
        matches(self, text)
    }

    /// What the caller gets of an attempt to compile: the pattern itself
    /// where the text compiled, and `Invalid` where the `regex` crate gave a
    /// reason why it did not.
    pub fn from_compiled(compiled: Result<Pattern, regex::Error>) -> (outcome: Result<
        Pattern,
        PatternError,
    >)
        ensures
            match compiled {
                Ok(pattern) => outcome == Ok::<Pattern, PatternError>(pattern),
                Err(_) => outcome == Err::<Pattern, PatternError>(PatternError::Invalid),
            },
    {
        match compiled {
            Ok(pattern) => Ok(pattern),
            Err(_) => Err(PatternError::Invalid),
        }
    }
}

} // verus!

//! The class of word characters, as the pattern engine of the `regex` crate
//! defines it.

use crate::text::{is_white_space, white_space};
use regex::Regex;
use vstd::prelude::*;

verus! {

/// The pattern of a word: one word character or more.
pub const WORD_PATTERN: &'static str = "\\w+";

/// `regex::Regex`, a compiled pattern. Nothing of its inside is known
/// here.
#[verifier::external_type_specification]
#[verifier::external_body]
pub struct ExRegex(Regex);

/// `regex::Error`, the reason why a pattern was refused. Nothing of its
/// inside is known here.
#[verifier::external_type_specification]
#[verifier::external_body]
pub struct ExRegexError(regex::Error);

/// Whether a compiled pattern matches somewhere in `haystack`: what
/// `Regex::is_match` returns.
pub uninterp spec fn matches_of(re: Regex, haystack: Seq<char>) -> bool;

/// Whether the pattern `pattern`, as `Regex::new` compiles it, matches
/// somewhere in `haystack`.
pub uninterp spec fn pattern_matches(pattern: Seq<char>, haystack: Seq<char>) -> bool;

/// Whether `Regex::new` accepts the pattern `pattern`.
pub uninterp spec fn compiles(pattern: Seq<char>) -> bool;

/// `Regex::new`, which compiles a pattern or refuses it. Which of the two
/// it does depends on the pattern text alone, and a pattern compiled this
/// way matches by its text alone, so that two compilations of one pattern
/// give the same answers.
#[verifier::external_body]
fn compile(pattern: &str) -> (compiled: Result<Regex, regex::Error>)
    ensures
        compiled is Ok <==> compiles(pattern@),
        compiled matches Ok(re) ==> forall|haystack: Seq<char>| #[trigger]
            matches_of(re, haystack) == pattern_matches(pattern@, haystack),
{
    Regex::new(pattern)
}

/// `Regex::is_match` on the haystack that holds `c` and nothing else. The
/// answer depends on the compiled pattern and on `c` alone.
#[verifier::external_body]
fn matches_char(re: &Regex, c: char) -> (b: bool)
    ensures
        b == matches_of(*re, seq![c]),
{
    re.is_match(c.encode_utf8(&mut [0u8; 4]))
}

/// Whether `re` matches as the pattern `pattern` does when `Regex::new`
/// compiles it.
pub open spec fn answers_as(re: Regex, pattern: Seq<char>) -> bool {
    forall|haystack: Seq<char>| #[trigger]
        matches_of(re, haystack) == pattern_matches(pattern, haystack)
}

/// Whether `c` is a word character: one that the word pattern matches.
/// White space never is, whatever the pattern engine answers.
pub open spec fn word_char(c: char) -> bool {
    !white_space(c) && pattern_matches(WORD_PATTERN@, seq![c])
}

/// Why no word class could be had.
#[derive(Clone, Copy, Debug, PartialEq, Eq, Structural)]
pub enum PatternError {
    /// The pattern engine refused the word pattern.
    Rejected,
}

/// The class of word characters, ready to be asked. Compiling the word
/// pattern is costly: compile once and ask often.
pub struct WordClass {
    re: Regex,
}

impl WordClass {
    #[verifier::type_invariant]
    spec fn holds_word_pattern(self) -> bool {
        answers_as(self.re, WORD_PATTERN@)
    }

    /// The word class by what the pattern engine made of the word pattern:
    /// none where the engine refused it.
    pub fn from_compiled(compiled: Result<Regex, regex::Error>) -> (class: Result<
        WordClass,
        PatternError,
    >)
        requires
            compiled matches Ok(re) ==> answers_as(re, WORD_PATTERN@),
        ensures
            class is Ok <==> compiled is Ok,
            class is Err ==> class == Err::<WordClass, PatternError>(PatternError::Rejected),
    {
        match compiled {
            Ok(re) => Ok(WordClass { re }),
            Err(_) => Err(PatternError::Rejected),
        }
    }

    /// Compiles the word pattern. There is a word class exactly where the
    /// pattern engine accepts the word pattern; where it does not, the
    /// error says so.
    pub fn new() -> (class: Result<WordClass, PatternError>)
        ensures
            class is Ok <==> compiles(WORD_PATTERN@),
            class is Err ==> class == Err::<WordClass, PatternError>(PatternError::Rejected),
    {
        WordClass::from_compiled(compile(WORD_PATTERN))
    }

    /// Whether `c` is a word character.
    pub fn contains(&self, c: char) -> (b: bool)
        ensures
            b == word_char(c),
    {
        proof {
            use_type_invariant(self);
        }
        !is_white_space(c) && matches_char(&self.re, c)
    }
}

} // verus!

//! The trusted boundary around the nucleo matching engine: declarations of its
//! opaque types, names for what its calls return, and the wrappers that make
//! the calls.  Everything else in the crate is verified against the contracts
//! stated here.

use vstd::prelude::*;
use nucleo::{Config, Matcher, Utf32String};
use nucleo::pattern::Pattern;

verus! {

#[verifier::external_type_specification]
#[verifier::external_body]
pub struct ExUtf32String(Utf32String);

#[verifier::external_type_specification]
#[verifier::external_body]
pub struct ExMatcher(Matcher);

#[verifier::external_type_specification]
#[verifier::external_body]
pub struct ExPattern(Pattern);

/// The characters a `Utf32String` holds, in order.
pub uninterp spec fn utf32_chars(s: Utf32String) -> Seq<char>;

/// What `Utf32String::from` stores for a given source text: ASCII text is kept
/// character for character, other text goes through nucleo's segmentation.
pub uninterp spec fn segmented(s: Seq<char>) -> Seq<char>;

/// The score `Pattern::score` returns for one item, as a function of the
/// matcher's path-bonus configuration, the pattern mode, the query the pattern
/// was compiled from, and the item's characters.  `None` means no match.
pub uninterp spec fn score_of(
    match_paths: bool,
    literal: bool,
    query: Seq<char>,
    item: Seq<char>,
) -> Option<u32>;

/// What `Pattern::indices` returns for one item: the aggregate score (`None`
/// means no match) and the raw matched character positions it appends, in the
/// order they are appended (neither sorted nor deduplicated).
pub uninterp spec fn match_offsets(
    match_paths: bool,
    literal: bool,
    query: Seq<char>,
    item: Seq<char>,
) -> (Option<u32>, Seq<u32>);

/// Relies on `From<&str> for Utf32String`: ASCII text is stored byte for byte,
/// so its characters are kept as they are; any other text is stored as the
/// segmented character sequence that `segmented` names.  Segmentation yields
/// at most one character per source character, so the stored text is never
/// longer than its source.
#[verifier::external_body]
pub(crate) fn utf32_of(s: &str) -> (r: Utf32String)
    ensures
        utf32_chars(r) == segmented(s@),
        utf32_chars(r).len() <= s@.len(),
        vstd::string::is_ascii(s) ==> utf32_chars(r) == s@,
{
    Utf32String::from(s)
}

/// Relies on `Matcher::new` with `Config::DEFAULT`: a scoring engine without
/// path-specific bonuses.  The matcher is scratch memory plus configuration;
/// no contract speaks of its value.
#[verifier::external_body]
pub(crate) fn matcher_default() -> Matcher {
    Matcher::new(Config::DEFAULT)
}

/// Relies on `Matcher::new` with `Config::DEFAULT.match_paths()`: a scoring
/// engine with bonuses appropriate for matching file paths.
#[verifier::external_body]
pub(crate) fn matcher_for_paths() -> Matcher {
    Matcher::new(Config::DEFAULT.match_paths())
}

/// Relies on `Pattern::default`: a pattern with no atoms, the state before any
/// query has been compiled.
#[verifier::external_body]
pub(crate) fn pattern_empty() -> Pattern {
    Pattern::default()
}

} // verus!

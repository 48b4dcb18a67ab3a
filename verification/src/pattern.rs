//! Sets of regular expressions, compiled and matched by the `regex` crate.
//!
//! What a pattern means is that crate's business: the contracts here name
//! its answers and prove nothing about them.

use crate::error::ScanError;
use vstd::prelude::*;

verus! {

/// `regex::RegexSet`, a compiled set of patterns. Nothing is known of what
/// is inside.
#[verifier::external_type_specification]
#[verifier::external_body]
pub struct ExRegexSet(regex::RegexSet);

/// `regex::Error`, the reason why patterns do not compile. Nothing is known
/// of what is inside.
#[verifier::external_type_specification]
#[verifier::external_body]
pub struct ExRegexError(regex::Error);

/// Whether `regex::RegexSet::new` accepts these patterns: each of them is a
/// regular expression, and the set is within the crate's size limits.
pub uninterp spec fn set_compiles(patterns: Seq<Seq<char>>) -> bool;

/// The patterns that a compiled set was made from, in their order.
pub uninterp spec fn set_patterns(set: regex::RegexSet) -> Seq<Seq<char>>;

/// Whether at least one of these patterns matches somewhere in `text`, as
/// `regex::RegexSet::matches` finds it.
pub uninterp spec fn set_matches(patterns: Seq<Seq<char>>, text: Seq<char>) -> bool;

/// Calls `regex::RegexSet::new`. Trusted: it succeeds exactly on the
/// pattern lists that `set_compiles` names, and the set it returns holds
/// the patterns it was given.
#[verifier::external_body]
fn new_set(patterns: &Vec<String>) -> (built: Result<regex::RegexSet, regex::Error>)
    ensures
        built is Ok <==> set_compiles(patterns.deep_view()),
        built matches Ok(set) ==> set_patterns(set) == patterns.deep_view(),
{
    regex::RegexSet::new(patterns)
}

/// A compiled set of patterns. Only `PatternSet::compile` makes one, so
/// the set inside always comes from `regex::RegexSet::new`.
pub struct PatternSet {
    set: regex::RegexSet,
}

/// Calls `regex::RegexSet::matches` and asks the result whether any pattern
/// matched. Trusted: the answer is the one that `set_matches` names for the
/// set's patterns and the text.
#[verifier::external_body]
fn any_matched(set: &PatternSet, text: &str) -> (yes: bool)
    ensures
        yes == set_matches(set_patterns(set.set), text@),
{
    set.set.matches(text).matched_any()
}

impl PatternSet {
    /// The patterns of the set.
    pub closed spec fn patterns(&self) -> Seq<Seq<char>> {
        set_patterns(self.set)
    }

    /// Compiles the patterns into one set. Fails when they do not compile.
    pub fn compile(patterns: &Vec<String>) -> (compiled: Result<PatternSet, ScanError>)
        ensures
            compiled is Ok <==> set_compiles(patterns.deep_view()),
            compiled matches Ok(set) ==> set.patterns() == patterns.deep_view(),
            compiled matches Err(e) ==> e == ScanError::MalformedPattern,
    {
        match new_set(patterns) {
            Ok(set) => Ok(PatternSet { set }),
            Err(_) => Err(ScanError::MalformedPattern),
        }
    }

    /// Whether any pattern of the set matches in `text`.
    pub fn is_match(&self, text: &str) -> (yes: bool)
        ensures
            yes == set_matches(self.patterns(), text@),
    {
        any_matched(self, text)
    }
}

/// The test that a text passes when any of the patterns matches in it.
pub open spec fn matched_by(patterns: Seq<Seq<char>>) -> spec_fn(Seq<char>) -> bool {
    |text: Seq<char>| set_matches(patterns, text)
}

/// Whether any of the patterns matches in any of the texts.
pub open spec fn any_match(patterns: Seq<Seq<char>>, texts: Seq<Seq<char>>) -> bool {
    exists|i: int| 0 <= i < texts.len() && set_matches(patterns, #[trigger] texts[i])
}

impl PatternSet {
    /// Whether any pattern of the set matches in any of the texts.
    pub fn matches_any(&self, texts: &Vec<String>) -> (yes: bool)
        ensures
            yes == any_match(self.patterns(), texts.deep_view()),
    {
        let mut i: usize = 0;
        while i < texts.len()
            invariant
                i <= texts.len(),
                forall|k: int|
                    0 <= k < i ==> !set_matches(self.patterns(), #[trigger] texts.deep_view()[k]),
            decreases texts.len() - i,
        {
            if self.is_match(texts[i].as_str()) {
                assert(set_matches(self.patterns(), texts.deep_view()[i as int]));
                return true;
            }
            i += 1;
        }
        false
    }
}

} // verus!

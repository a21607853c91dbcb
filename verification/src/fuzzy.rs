//! The live `/` filter's fuzzy test, backed by `fuzzy_matcher`'s skim matcher.
use vstd::prelude::*;
use crate::text::lower_char;
use fuzzy_matcher::FuzzyMatcher;
use fuzzy_matcher::skim::SkimMatcherV2;

verus! {

/// The pattern holds an ASCII uppercase letter (skim's "smart case" switch).
pub open spec fn has_ascii_upper(p: Seq<char>) -> bool {
    exists|i: int| 0 <= i < p.len() && 'A' <= #[trigger] p[i] && p[i] <= 'Z'
}

/// Two characters match: exactly when case-sensitive, else ignoring ASCII case.
pub open spec fn char_match(a: char, b: char, case_sensitive: bool) -> bool {
    if case_sensitive {
        a == b
    } else {
        lower_char(a) == lower_char(b)
    }
}

/// `pattern` occurs in `choice` as a (not necessarily contiguous) subsequence,
/// matched greedily from the left.
pub open spec fn subseq_match(choice: Seq<char>, pattern: Seq<char>, case_sensitive: bool) -> bool
    decreases choice.len(),
{
    if pattern.len() == 0 {
        true
    } else if choice.len() == 0 {
        false
    } else if char_match(choice[0], pattern[0], case_sensitive) {
        subseq_match(choice.drop_first(), pattern.drop_first(), case_sensitive)
    } else {
        subseq_match(choice.drop_first(), pattern, case_sensitive)
    }
}

/// Whether skim accepts `choice` for `pattern`: an empty pattern always
/// matches, otherwise the pattern must be a subsequence of the choice, case
/// sensitive only when the pattern holds an ASCII uppercase letter.
pub open spec fn fuzzy_accepts(choice: Seq<char>, pattern: Seq<char>) -> bool {
    subseq_match(choice, pattern, has_ascii_upper(pattern))
}

/// `SkimMatcherV2::default().fuzzy_match(choice, pattern).is_some()`. Its
/// source returns `Some` for an empty pattern, and otherwise exactly when its
/// `cheap_matches` pre-pass finds every pattern character in order (with the
/// default smart case and no element limit the scoring pass that follows always
/// yields a score); this contract states that pre-pass.
#[verifier::external_body]
pub(crate) fn fuzzy_match(choice: &str, pattern: &str) -> (r: bool)
    ensures
        r == fuzzy_accepts(choice@, pattern@),
{
    SkimMatcherV2::default().fuzzy_match(choice, pattern).is_some()
}

} // verus!

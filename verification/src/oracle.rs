//! The external fuzzy-scoring oracle.
//!
//! The engine treats string-to-pattern similarity as a black box: the
//! oracle either rejects a candidate or awards it a score, higher being
//! a better match. Its result is a function of the candidate and the
//! pattern alone, so it is given a name, `fuzzy_score`, that the rest of
//! the contracts speak of.

use vstd::prelude::*;
use fuzzy_matcher::skim::SkimMatcherV2;

verus! {

pub uninterp spec fn fuzzy_score(candidate: Seq<char>, pattern: Seq<char>) -> Option<i64>;

/// Relies on fuzzy_matcher's `SkimMatcherV2::fuzzy` under the default
/// configuration, queried without match positions: the score it returns
/// depends on the candidate and the pattern strings alone.
#[verifier::external_body]
pub(crate) fn oracle_score(candidate: &str, pattern: &Vec<char>) -> (r: Option<i64>)
    ensures
        r == fuzzy_score(candidate@, pattern@),
{
    let pat: String = pattern.iter().collect();
    let matcher = SkimMatcherV2::default();
    matcher.fuzzy(candidate, &pat, false).map(|(score, _positions)| score)
}

} // verus!

//! Ranking of matched lines by descending score.

use vstd::prelude::*;

use rayon::slice::ParallelSliceMut;

verus! {

/// One matched candidate: the line text, its match score, and the character
/// positions at which the query matched, strictly increasing and all inside
/// the text.
pub type FuzzyMatchedLineInfo = (String, i64, Vec<usize>);

/// Scores never increase from the first element to the last.
pub open spec fn sorted_by_score_desc(s: Seq<FuzzyMatchedLineInfo>) -> bool {
    forall|i: int, j: int| 0 <= i <= j < s.len() ==> s[i].1 >= s[j].1
}

/// Relies on rayon's `ParallelSliceMut::par_sort_unstable_by`: it sorts the
/// slice in place by the given comparator (here: by score, descending) and
/// keeps exactly the same elements; equal scores may come out in any order.
#[verifier::external_body]
fn par_sort_by_score_desc(v: &mut Vec<FuzzyMatchedLineInfo>)
    ensures
        final(v)@.to_multiset() == old(v)@.to_multiset(),
        sorted_by_score_desc(final(v)@),
{
    v.par_sort_unstable_by(|a, b| b.1.cmp(&a.1));
}

/// Reorders the matcher's output by descending score.
///
/// Every element of the result is an element of the input and vice versa
/// (as multisets: nothing is added, dropped, or altered), and the result is
/// non-increasing in score.  The order among equal scores is unspecified.
pub fn fuzzy_filter_and_rank(matches: Vec<FuzzyMatchedLineInfo>) -> (ranked: Vec<
    FuzzyMatchedLineInfo,
>)
    ensures
        ranked@.to_multiset() == matches@.to_multiset(),
        sorted_by_score_desc(ranked@),
{
    let mut ranked = matches;
    par_sort_by_score_desc(&mut ranked);
    ranked
}

} // verus!

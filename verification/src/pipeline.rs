//! The filter pipeline: rank the matcher's output, keep the top of the list,
//! and make it display-ready.

use vstd::prelude::*;

use crate::rank::fuzzy_filter_and_rank;
use crate::rank::sorted_by_score_desc;
use crate::rank::FuzzyMatchedLineInfo;
use crate::truncate::indices_valid;
use crate::truncate::line_output;
use crate::truncate::lines_views;
use crate::truncate::truncate_long_matched_lines;
use crate::truncate::truncated_map_of;
use crate::truncmap::LinesTruncatedMap;

verus! {

/// Supported fuzzy match algorithm.  The matcher itself is an external
/// collaborator; this selects which variant it runs.
#[derive(Clone, Copy, Debug, PartialEq, Eq, Structural)]
pub enum Algo {
    Skim,
    Fzy,
}

/// The display window budget used when the caller gives none.
pub const DEFAULT_WINWIDTH: usize = 62;

/// The display-ready form of the top of the ranked list.
pub struct TopItems {
    /// How many lines matched in total, before the list was cut to the top.
    pub total: usize,
    /// The (possibly truncated) top lines, best score first.
    pub lines: Vec<String>,
    /// For each line, the matched positions inside its text.
    pub indices: Vec<Vec<usize>>,
    /// Reverse lookup from each truncated line to the original it came from.
    pub truncated_map: LinesTruncatedMap,
}

/// `ranked` is `input` reordered by descending score: same lines, none
/// added, dropped, or altered.
pub open spec fn ranked_ok(
    input: Seq<FuzzyMatchedLineInfo>,
    ranked: Seq<FuzzyMatchedLineInfo>,
) -> bool {
    &&& ranked.to_multiset() == input.to_multiset()
    &&& sorted_by_score_desc(ranked)
}

/// `items` presents exactly the lines of `top`, in order, each truncated for
/// the window, with the reverse mapping those truncations record.
pub open spec fn top_items_ok(
    top: Seq<FuzzyMatchedLineInfo>,
    total: int,
    winwidth: usize,
    items: TopItems,
) -> bool {
    &&& items.total == total
    &&& items.lines@.len() == top.len()
    &&& items.indices@.len() == top.len()
    &&& forall|i: int|
        0 <= i < top.len() ==> #[trigger] items.lines@[i]@ == line_output(
            top[i].0@,
            top[i].2@,
            winwidth,
            0,
        ).0 && items.indices@[i]@ == line_output(top[i].0@, top[i].2@, winwidth, 0).1
    &&& items.truncated_map.wf()
    &&& items.truncated_map@ == truncated_map_of(lines_views(top), winwidth, 0)
}

/// Truncates the given top of the ranked list for the window and splits it
/// into the lines and their matched positions, dropping the scores.
pub fn prepare_top_items<T>(top_list: Vec<(String, T, Vec<usize>)>, winwidth: usize) -> (r: (
    Vec<String>,
    Vec<Vec<usize>>,
    LinesTruncatedMap,
))
    requires
        forall|i: int| 0 <= i < top_list@.len() ==> indices_valid(top_list@[i].0@, top_list@[i].2@),
    ensures
        r.0@.len() == top_list@.len(),
        r.1@.len() == top_list@.len(),
        forall|i: int|
            0 <= i < top_list@.len() ==> #[trigger] r.0@[i]@ == line_output(
                top_list@[i].0@,
                top_list@[i].2@,
                winwidth,
                0,
            ).0 && r.1@[i]@ == line_output(top_list@[i].0@, top_list@[i].2@, winwidth, 0).1,
        r.2.wf(),
        r.2@ == truncated_map_of(lines_views(top_list@), winwidth, 0),
{
    let ghost orig = top_list@;
    let (truncated_lines, truncated_map) = truncate_long_matched_lines(
        top_list,
        winwidth,
        None,
    );
    let mut rest = truncated_lines;
    let ghost tr = rest@;
    let total_lines: usize = rest.len();
    let mut lines: Vec<String> = Vec::new();
    let mut indices: Vec<Vec<usize>> = Vec::new();
    let mut k: usize = 0;
    proof {
        assert(rest@ =~= tr.subrange(0, tr.len() as int));
    }
    while rest.len() > 0
        invariant
            tr.len() == total_lines,
            tr.len() == orig.len(),
            k + rest@.len() == tr.len(),
            rest@ == tr.subrange(k as int, tr.len() as int),
            lines@.len() == k,
            indices@.len() == k,
            forall|i: int| 0 <= i < k ==> #[trigger] lines@[i]@ == tr[i].0@ && indices@[i]@
                == tr[i].2@,
        decreases rest@.len(),
    {
        let l = rest.remove(0);
        proof {
            assert(l == tr[k as int]);
            assert(rest@ =~= tr.subrange(k + 1, tr.len() as int));
        }
        let (text, _score, idxs) = l;
        lines.push(text);
        indices.push(idxs);
        k = k + 1;
    }
    (lines, indices, truncated_map)
}

/// What one run of the filter hands the presenter.
pub enum FilterOutput {
    /// Every ranked line, best score first, when no top size was asked for.
    All(Vec<FuzzyMatchedLineInfo>),
    /// Only the top of the list, truncated for the display window.
    Top(TopItems),
}

/// Ranks the matcher's output and shapes it for the presenter: the whole
/// ranked list, or — when a top size is given — that many best lines,
/// truncated to the display window (the default window when none is given),
/// together with the reverse mapping from truncated to original text.
pub fn run(matches: Vec<FuzzyMatchedLineInfo>, number: Option<usize>, winwidth: Option<usize>)
    -> (out: FilterOutput)
    requires
        forall|i: int| 0 <= i < matches@.len() ==> indices_valid(matches@[i].0@, matches@[i].2@),
    ensures
        match out {
            FilterOutput::All(ranked) => number is None && ranked_ok(matches@, ranked@),
            FilterOutput::Top(items) => number is Some && exists|ranked: Seq<
                FuzzyMatchedLineInfo,
            >|
                #[trigger] ranked_ok(matches@, ranked) && top_items_ok(
                    ranked.take(vstd::math::min(number->0 as int, ranked.len() as int)),
                    matches@.len() as int,
                    (if winwidth is Some { winwidth->0 } else { DEFAULT_WINWIDTH }),
                    items,
                ),
        },
{
    let ranked = fuzzy_filter_and_rank(matches);
    proof {
        broadcast use vstd::seq_lib::group_to_multiset_ensures;

        assert forall|i: int| 0 <= i < ranked@.len() implies indices_valid(
            ranked@[i].0@,
            ranked@[i].2@,
        ) by {
            assert(ranked@.contains(ranked@[i]));
            assert(matches@.to_multiset().count(ranked@[i]) > 0);
            assert(matches@.contains(ranked@[i]));
            let j = choose|j: int| 0 <= j < matches@.len() && matches@[j] == ranked@[i];
            assert(indices_valid(matches@[j].0@, matches@[j].2@));
        }
    }
    match number {
        Some(number) => {
            let ghost ranked_view = ranked@;
            let total = ranked.len();
            let mut top = ranked;
            top.truncate(number);
            proof {
                assert(top@ =~= ranked_view.take(
                    vstd::math::min(number as int, ranked_view.len() as int),
                ));
            }
            let w = match winwidth {
                Some(w) => w,
                None => DEFAULT_WINWIDTH,
            };
            let (lines, indices, truncated_map) = prepare_top_items(top, w);
            let items = TopItems { total, lines, indices, truncated_map };
            proof {
                broadcast use vstd::seq_lib::group_to_multiset_ensures;

                assert(ranked_view.to_multiset().len() == ranked_view.len());
                assert(matches@.to_multiset().len() == matches@.len());
                assert(ranked_view.len() == matches@.len());
                assert(ranked_ok(matches@, ranked_view) && top_items_ok(
                    ranked_view.take(
                        vstd::math::min(number as int, ranked_view.len() as int),
                    ),
                    matches@.len() as int,
                    w,
                    items,
                ));
            }
            FilterOutput::Top(items)
        },
        None => FilterOutput::All(ranked),
    }
}

} // verus!

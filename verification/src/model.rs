//! The mathematical model of ranking and highlighting: which candidates are
//! kept, how scored candidates are ordered, how results are truncated, and how
//! raw match offsets are cleaned up for highlighting.

use vstd::prelude::*;
use crate::engine::{score_of, match_offsets};

verus! {

/// The ranking order on scored candidates: higher score first, ties broken by
/// ascending external index.
pub open spec fn rank_le(a: (usize, u32), b: (usize, u32)) -> bool {
    a.1 > b.1 || (a.1 == b.1 && a.0 <= b.0)
}

/// A 1-based external index that lands inside the corpus; 0 underflows the
/// 1-based range and is as out of range as an index past the end.
pub open spec fn in_corpus(ext: usize, corpus: Seq<Seq<char>>) -> bool {
    1 <= ext && ext - 1 < corpus.len()
}

/// A candidate survives filtering when its 1-based external index lands inside
/// the corpus and the item there matches the query.
pub open spec fn keeps(
    match_paths: bool,
    literal: bool,
    corpus: Seq<Seq<char>>,
    query: Seq<char>,
    ext: usize,
) -> bool {
    &&& in_corpus(ext, corpus)
    &&& score_of(match_paths, literal, query, corpus[ext - 1]).is_some()
}

/// The score of a matching item, 0 where there is no match (only ever read
/// behind a `keeps` guard).
pub open spec fn score_val(
    match_paths: bool,
    literal: bool,
    query: Seq<char>,
    item: Seq<char>,
) -> u32 {
    match score_of(match_paths, literal, query, item) {
        Some(s) => s,
        None => 0,
    }
}

/// The surviving candidates paired with their scores, in candidate order.
/// Duplicate candidate indices stay duplicated.
pub open spec fn scored_pairs(
    match_paths: bool,
    literal: bool,
    corpus: Seq<Seq<char>>,
    query: Seq<char>,
    idxs: Seq<usize>,
) -> Seq<(usize, u32)>
    decreases idxs.len(),
{
    if idxs.len() == 0 {
        Seq::empty()
    } else {
        let prefix = scored_pairs(match_paths, literal, corpus, query, idxs.drop_last());
        let ext = idxs.last();
        if keeps(match_paths, literal, corpus, query, ext) {
            prefix.push((ext, score_val(match_paths, literal, query, corpus[ext - 1])))
        } else {
            prefix
        }
    }
}

/// Insertion of one scored candidate into a ranking, before the first entry it
/// ranks no worse than.
pub open spec fn insert_ranked(x: (usize, u32), s: Seq<(usize, u32)>) -> Seq<(usize, u32)>
    decreases s.len(),
{
    if s.len() == 0 {
        seq![x]
    } else if rank_le(x, s[0]) {
        seq![x] + s
    } else {
        seq![s[0]] + insert_ranked(x, s.drop_first())
    }
}

/// Insertion sort of scored candidates under the ranking order.
pub open spec fn rank_sort(s: Seq<(usize, u32)>) -> Seq<(usize, u32)>
    decreases s.len(),
{
    if s.len() == 0 {
        Seq::empty()
    } else {
        insert_ranked(s.last(), rank_sort(s.drop_last()))
    }
}

/// Insertion of one offset into an ascending sequence, before the first entry
/// it is no greater than.
pub open spec fn insert_asc(x: u32, s: Seq<u32>) -> Seq<u32>
    decreases s.len(),
{
    if s.len() == 0 {
        seq![x]
    } else if x <= s[0] {
        seq![x] + s
    } else {
        seq![s[0]] + insert_asc(x, s.drop_first())
    }
}

/// Insertion sort of offsets into ascending order.
pub open spec fn asc_sort(s: Seq<u32>) -> Seq<u32>
    decreases s.len(),
{
    if s.len() == 0 {
        Seq::empty()
    } else {
        insert_asc(s.last(), asc_sort(s.drop_last()))
    }
}

/// Removal of adjacent duplicates; on a sorted sequence this removes all
/// duplicates.
pub open spec fn dedup_adjacent(s: Seq<u32>) -> Seq<u32>
    decreases s.len(),
{
    if s.len() == 0 {
        Seq::empty()
    } else {
        let prefix = dedup_adjacent(s.drop_last());
        if prefix.len() > 0 && prefix.last() == s.last() {
            prefix
        } else {
            prefix.push(s.last())
        }
    }
}

/// Raw match offsets cleaned up for highlighting: sorted ascending, then
/// deduplicated.
pub open spec fn clean_offsets(raw: Seq<u32>) -> Seq<u32> {
    dedup_adjacent(asc_sort(raw))
}

/// The full ranking of a candidate set against a non-empty query: surviving
/// candidates sorted by descending score with ascending-index tie-break.
pub open spec fn ranked(
    match_paths: bool,
    literal: bool,
    corpus: Seq<Seq<char>>,
    idxs: Seq<usize>,
    query: Seq<char>,
) -> Seq<usize> {
    rank_sort(scored_pairs(match_paths, literal, corpus, query, idxs)).map_values(
        |p: (usize, u32)| p.0,
    )
}

/// What a ranking call returns: the candidates unchanged for an empty query,
/// otherwise the full ranking truncated to the limit, if one is given.
pub open spec fn rank_spec(
    match_paths: bool,
    literal: bool,
    corpus: Seq<Seq<char>>,
    idxs: Seq<usize>,
    query: Seq<char>,
    limit: Option<usize>,
) -> Seq<usize> {
    if query.len() == 0 {
        idxs
    } else {
        let full = ranked(match_paths, literal, corpus, idxs, query);
        match limit {
            Some(k) => if k < full.len() {
                full.take(k as int)
            } else {
                full
            },
            None => full,
        }
    }
}

/// What a highlight call returns: absent for an index outside the 1-based
/// corpus range (0 included), an empty but present list for an empty query,
/// absent for a non-matching item, and otherwise the cleaned-up match offsets.
pub open spec fn highlight_spec(
    match_paths: bool,
    literal: bool,
    corpus: Seq<Seq<char>>,
    ext: usize,
    query: Seq<char>,
) -> Option<Seq<u32>> {
    if !in_corpus(ext, corpus) {
        None
    } else if query.len() == 0 {
        Some(Seq::empty())
    } else if match_offsets(match_paths, literal, query, corpus[ext - 1]).0.is_some() {
        Some(clean_offsets(match_offsets(match_paths, literal, query, corpus[ext - 1]).1))
    } else {
        None
    }
}

} // verus!

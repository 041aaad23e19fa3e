//! The laws of the matching core, stated over the model and proved once:
//! determinism, empty-query behaviour, range filtering, tie-break stability,
//! limit truncation, and the shape of highlight offsets.

use vstd::prelude::*;
use crate::model::{
    clean_offsets, highlight_spec, in_corpus, keeps, rank_spec, rank_sort, ranked, scored_pairs,
};
use crate::sorting::{
    lemma_asc_sort_sorted, lemma_dedup_strict, lemma_rank_sort_all, lemma_rank_sort_sorted,
};

verus! {

/// Determinism: a ranking result is a function of the corpus, the mode and
/// options, the candidate set, the query and the limit alone, so two calls on
/// equal inputs return equal results.
pub proof fn lemma_rank_deterministic(
    match_paths: bool,
    literal: bool,
    corpus: Seq<Seq<char>>,
    idxs: Seq<usize>,
    query: Seq<char>,
    limit: Option<usize>,
    r1: Seq<usize>,
    r2: Seq<usize>,
)
    requires
        r1 == rank_spec(match_paths, literal, corpus, idxs, query, limit),
        r2 == rank_spec(match_paths, literal, corpus, idxs, query, limit),
    ensures
        r1 == r2,
{
}

/// Determinism: a highlight result is a function of the corpus, the mode and
/// options, the item index and the query alone, so two calls on equal inputs
/// return equal results.
pub proof fn lemma_highlight_deterministic(
    match_paths: bool,
    literal: bool,
    corpus: Seq<Seq<char>>,
    ext: usize,
    query: Seq<char>,
    r1: Option<Seq<u32>>,
    r2: Option<Seq<u32>>,
)
    requires
        r1 == highlight_spec(match_paths, literal, corpus, ext, query),
        r2 == highlight_spec(match_paths, literal, corpus, ext, query),
    ensures
        r1 == r2,
{
}

/// Empty-query pass-through: ranking with an empty query returns the
/// candidates unchanged, order and duplicates included, whatever the limit.
pub proof fn lemma_empty_query_passthrough(
    match_paths: bool,
    literal: bool,
    corpus: Seq<Seq<char>>,
    idxs: Seq<usize>,
    limit: Option<usize>,
)
    ensures
        rank_spec(match_paths, literal, corpus, idxs, Seq::empty(), limit) == idxs,
{
}

/// Empty-query highlight: for a 1-based index that lands inside the corpus,
/// highlighting with an empty query returns an empty but present offset list.
pub proof fn lemma_empty_query_highlight(
    match_paths: bool,
    literal: bool,
    corpus: Seq<Seq<char>>,
    ext: usize,
)
    requires
        in_corpus(ext, corpus),
    ensures
        highlight_spec(match_paths, literal, corpus, ext, Seq::empty()) == Some(
            Seq::<u32>::empty(),
        ),
{
}

/// An empty candidate set yields an empty result, whatever the query and the
/// limit.
pub proof fn lemma_empty_candidates(
    match_paths: bool,
    literal: bool,
    corpus: Seq<Seq<char>>,
    query: Seq<char>,
    limit: Option<usize>,
)
    ensures
        rank_spec(match_paths, literal, corpus, Seq::empty(), query, limit) == Seq::<
            usize,
        >::empty(),
{
    if query.len() > 0 {
        assert(ranked(match_paths, literal, corpus, Seq::empty(), query) =~= Seq::<
            usize,
        >::empty());
        assert(rank_spec(match_paths, literal, corpus, Seq::empty(), query, limit) =~= Seq::<
            usize,
        >::empty());
    }
}

/// Every entry of the scored candidate list came from a kept candidate.
pub proof fn lemma_scored_pairs_keep(
    match_paths: bool,
    literal: bool,
    corpus: Seq<Seq<char>>,
    query: Seq<char>,
    idxs: Seq<usize>,
)
    ensures
        forall|i: int|
            0 <= i < scored_pairs(match_paths, literal, corpus, query, idxs).len() ==> keeps(
                match_paths,
                literal,
                corpus,
                query,
                #[trigger] scored_pairs(match_paths, literal, corpus, query, idxs)[i].0,
            ),
    decreases idxs.len(),
{
    if idxs.len() != 0 {
        lemma_scored_pairs_keep(match_paths, literal, corpus, query, idxs.drop_last());
        let prefix = scored_pairs(match_paths, literal, corpus, query, idxs.drop_last());
        let whole = scored_pairs(match_paths, literal, corpus, query, idxs);
        assert forall|i: int| 0 <= i < whole.len() implies keeps(
            match_paths,
            literal,
            corpus,
            query,
            whole[i].0,
        ) by {
            if i < prefix.len() {
                assert(whole[i] == prefix[i]);
            } else {
                assert(whole[i].0 == idxs.last());
            }
        }
    }
}

/// Out-of-range filtering: with a non-empty query, every returned index is a
/// 1-based position inside the corpus; 0 and indices past the corpus never
/// appear.
pub proof fn lemma_rank_in_range(
    match_paths: bool,
    literal: bool,
    corpus: Seq<Seq<char>>,
    idxs: Seq<usize>,
    query: Seq<char>,
    limit: Option<usize>,
)
    requires
        query.len() > 0,
    ensures
        forall|i: int|
            0 <= i < rank_spec(match_paths, literal, corpus, idxs, query, limit).len() ==> 1 <= (
            #[trigger] rank_spec(match_paths, literal, corpus, idxs, query, limit)[i]) && rank_spec(
                match_paths,
                literal,
                corpus,
                idxs,
                query,
                limit,
            )[i] <= corpus.len(),
{
    let pairs = scored_pairs(match_paths, literal, corpus, query, idxs);
    let in_range = |e: (usize, u32)| 1 <= e.0 && e.0 <= corpus.len();
    lemma_scored_pairs_keep(match_paths, literal, corpus, query, idxs);
    assert(forall|i: int| 0 <= i < pairs.len() ==> in_range(#[trigger] pairs[i]));
    lemma_rank_sort_all(pairs, in_range);
    let full = ranked(match_paths, literal, corpus, idxs, query);
    assert forall|i: int| 0 <= i < full.len() implies 1 <= #[trigger] full[i] && full[i]
        <= corpus.len() by {
        assert(full[i] == rank_sort(pairs)[i].0);
        assert(in_range(rank_sort(pairs)[i]));
    }
}

/// Tie-break stability: in a ranking, two entries with equal scores stand in
/// ascending original-index order.
pub proof fn lemma_tie_break_stable(s: Seq<(usize, u32)>, i: int, j: int)
    requires
        0 <= i <= j < rank_sort(s).len(),
        rank_sort(s)[i].1 == rank_sort(s)[j].1,
    ensures
        rank_sort(s)[i].0 <= rank_sort(s)[j].0,
{
    lemma_rank_sort_sorted(s);
    assert(crate::model::rank_le(rank_sort(s)[i], rank_sort(s)[j]));
}

/// Limit truncation: with a non-empty query, a limited ranking holds at most
/// `k` entries and is a prefix of the unlimited ranking.
pub proof fn lemma_limit_truncation(
    match_paths: bool,
    literal: bool,
    corpus: Seq<Seq<char>>,
    idxs: Seq<usize>,
    query: Seq<char>,
    k: usize,
)
    requires
        query.len() > 0,
    ensures
        rank_spec(match_paths, literal, corpus, idxs, query, Some(k)).len() <= k as int,
        rank_spec(match_paths, literal, corpus, idxs, query, Some(k)).is_prefix_of(
            rank_spec(match_paths, literal, corpus, idxs, query, None),
        ),
{
    let full = ranked(match_paths, literal, corpus, idxs, query);
    if (k as int) < full.len() {
        assert(full.take(k as int) =~= full.subrange(0, k as int));
    } else {
        assert(full =~= full.subrange(0, full.len() as int));
    }
}

/// Offset order and dedup: a present highlight result is strictly ascending,
/// so it is sorted and holds no value twice.
pub proof fn lemma_offsets_strictly_ascending(
    match_paths: bool,
    literal: bool,
    corpus: Seq<Seq<char>>,
    ext: usize,
    query: Seq<char>,
    v: Seq<u32>,
)
    requires
        highlight_spec(match_paths, literal, corpus, ext, query) == Some(v),
    ensures
        forall|a: int, b: int| 0 <= a < b < v.len() ==> v[a] < v[b],
{
    if in_corpus(ext, corpus) && query.len() > 0 {
        let raw = crate::engine::match_offsets(match_paths, literal, query, corpus[ext - 1]).1;
        if crate::engine::match_offsets(
            match_paths,
            literal,
            query,
            corpus[ext - 1],
        ).0.is_some() {
            assert(v == clean_offsets(raw));
            lemma_asc_sort_sorted(raw);
            lemma_dedup_strict(crate::model::asc_sort(raw));
        }
    }
}

} // verus!

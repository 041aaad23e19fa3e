//! The matching session: a fixed corpus, the session's pattern mode, and the
//! reusable scratch state (pattern, matcher, offset buffer), with the ranking
//! and highlighting operations.

use vstd::prelude::*;
use nucleo::{Matcher, Utf32String};
use nucleo::pattern::{AtomKind, CaseMatching, Normalization, Pattern};
use crate::engine::{
    match_offsets, matcher_default, matcher_for_paths, pattern_empty, score_of, segmented,
    utf32_chars, utf32_of,
};
use crate::model::{highlight_spec, in_corpus, rank_spec, ranked, scored_pairs};
use crate::sorting::{
    dedup_sorted, lemma_asc_sort_all, lemma_asc_sort_sorted, lemma_dedup_all, lemma_dedup_strict,
    sort_offsets, sort_pairs,
};

verus! {

/// The corpus store: the searchable items in the scoring engine's
/// representation, fixed when the session is built.
pub struct Corpus {
    entries: Vec<Utf32String>,
}

impl Corpus {
    /// The characters of each item, in corpus order.
    pub closed spec fn chars(&self) -> Seq<Seq<char>> {
        self.entries@.map_values(|s: Utf32String| utf32_chars(s))
    }

    /// Every item fits the scoring engine's 32-bit character index space (the
    /// engine checks this bound with a runtime assertion; the invariant keeps
    /// verified calls away from it).
    #[verifier::type_invariant]
    spec fn wf(&self) -> bool {
        forall|i: int|
            0 <= i < self.entries@.len() ==> utf32_chars(#[trigger] self.entries@[i]).len()
                <= u32::MAX as nat
    }
}

/// One fuzzy-search session: the corpus, the mode fixed at construction, and
/// scratch state reused across calls.  The `pattern` field is always the
/// compilation of the `query` field under the session's mode and policies;
/// every function that recompiles the pattern updates `query` in step, and the
/// trusted scoring wrappers state their results in terms of `query`.
pub struct Tachyon {
    /// The items to match against.
    items: Corpus,
    /// The fuzzy matcher engine, reused as working memory across calls.
    matcher: Matcher,
    /// The compiled form of `query`.
    pattern: Pattern,
    /// Whether the matcher was built with path-matching bonuses.
    match_paths: bool,
    /// Whether queries are compiled literally (no syntax characters).
    literal: bool,
    /// The text `pattern` was last compiled from.
    query: String,
    /// Scratch buffer for raw match offsets, cleared before each use.
    indices_buf: Vec<u32>,
}

/// The view of an optional offset list.
pub open spec fn offsets_view(r: Option<Vec<u32>>) -> Option<Seq<u32>> {
    match r {
        Some(v) => Some(v@),
        None => None,
    }
}

impl Tachyon {
    /// The characters of each corpus item, in corpus order.
    pub closed spec fn corpus(&self) -> Seq<Seq<char>> {
        self.items.chars()
    }

    /// Whether the session scores with path-matching bonuses.
    pub closed spec fn path_mode(&self) -> bool {
        self.match_paths
    }

    /// Whether the session compiles queries literally.
    pub closed spec fn literal_mode(&self) -> bool {
        self.literal
    }

    /// The query the session's pattern currently stands for.
    pub closed spec fn current_query(&self) -> Seq<char> {
        self.query@
    }

    /// Relies on `Pattern::score`: for a fixed pattern, haystack and matcher
    /// configuration the result is a deterministic function of those inputs,
    /// the matcher serving only as working memory.  `score_of` names that
    /// function on the session's configuration, its current query and one
    /// stored item; beyond the matcher's scratch memory, nothing changes.  The
    /// item must fit the engine's 32-bit character index space: on a longer
    /// haystack the engine asserts and aborts.
    #[verifier::external_body]
    fn score_at(&mut self, idx: usize) -> (r: Option<u32>)
        requires
            idx < old(self).corpus().len(),
            old(self).corpus()[idx as int].len() <= u32::MAX as nat,
        ensures
            r == score_of(
                old(self).path_mode(),
                old(self).literal_mode(),
                old(self).current_query(),
                old(self).corpus()[idx as int],
            ),
            final(self).items == old(self).items,
            final(self).match_paths == old(self).match_paths,
            final(self).literal == old(self).literal,
            final(self).query == old(self).query,
            final(self).indices_buf == old(self).indices_buf,
    {
        let hay = self.items.entries[idx].slice(..);
        self.pattern.score(hay, &mut self.matcher)
    }

    /// Relies on `Pattern::indices`: it returns the same deterministic
    /// success and aggregate score as scoring, and for a match it appends the
    /// matched character positions of each pattern atom to the buffer, neither
    /// sorted nor deduplicated, every appended position lying inside the
    /// haystack.  `match_offsets` names the returned score and the appended
    /// positions on the session's configuration, its current query and one
    /// stored item.  On a failed match the buffer may hold positions appended
    /// for earlier atoms; nothing is claimed of it then.  The item must fit
    /// the engine's 32-bit character index space: on a longer haystack the
    /// engine asserts and aborts.
    #[verifier::external_body]
    fn offsets_at(&mut self, idx: usize) -> (r: Option<u32>)
        requires
            idx < old(self).corpus().len(),
            old(self).corpus()[idx as int].len() <= u32::MAX as nat,
        ensures
            r == match_offsets(
                old(self).path_mode(),
                old(self).literal_mode(),
                old(self).current_query(),
                old(self).corpus()[idx as int],
            ).0,
            r.is_some() ==> final(self).indices_buf@ == old(self).indices_buf@ + match_offsets(
                old(self).path_mode(),
                old(self).literal_mode(),
                old(self).current_query(),
                old(self).corpus()[idx as int],
            ).1,
            r.is_some() ==> forall|k: int|
                0 <= k < match_offsets(
                    old(self).path_mode(),
                    old(self).literal_mode(),
                    old(self).current_query(),
                    old(self).corpus()[idx as int],
                ).1.len() ==> (match_offsets(
                    old(self).path_mode(),
                    old(self).literal_mode(),
                    old(self).current_query(),
                    old(self).corpus()[idx as int],
                ).1[k] as nat) < old(self).corpus()[idx as int].len(),
            final(self).items == old(self).items,
            final(self).match_paths == old(self).match_paths,
            final(self).literal == old(self).literal,
            final(self).query == old(self).query,
    {
        let hay = self.items.entries[idx].slice(..);
        self.pattern.indices(hay, &mut self.matcher, &mut self.indices_buf)
    }

    /// Relies on `Pattern::new` with smart case matching, smart normalization
    /// and fuzzy atoms: replaces the session's pattern with a fresh literal
    /// compilation of `q` (no special treatment of syntax characters); no
    /// other field is touched.
    #[verifier::external_body]
    fn compile_fresh(&mut self, q: &str)
        ensures
            final(self).items == old(self).items,
            final(self).match_paths == old(self).match_paths,
            final(self).literal == old(self).literal,
            final(self).query == old(self).query,
            final(self).indices_buf == old(self).indices_buf,
    {
        self.pattern = Pattern::new(q, CaseMatching::Smart, Normalization::Smart, AtomKind::Fuzzy);
    }

    /// Relies on `Pattern::reparse` with smart case matching and smart
    /// normalization: reparses the session's pattern in place from `q`,
    /// honouring the syntax characters, equivalent to `Pattern::parse` afresh
    /// while reusing allocations; no other field is touched.
    #[verifier::external_body]
    fn compile_in_place(&mut self, q: &str)
        ensures
            final(self).items == old(self).items,
            final(self).match_paths == old(self).match_paths,
            final(self).literal == old(self).literal,
            final(self).query == old(self).query,
            final(self).indices_buf == old(self).indices_buf,
    {
        self.pattern.reparse(q, CaseMatching::Smart, Normalization::Smart);
    }

    /// The number of items in the corpus.
    fn corpus_len(&self) -> (n: usize)
        ensures
            n == self.corpus().len(),
    {
        self.items.entries.len()
    }

    /// Creates a session over `items`.  `match_paths` selects path-aware
    /// scoring bonuses; `literal` fixes the pattern mode for the session's
    /// whole life.  The scoring engine indexes characters with 32 bits, so no
    /// item may hold more than `u32::MAX` characters.
    pub fn new(items: Vec<String>, match_paths: bool, literal: bool) -> (t: Tachyon)
        requires
            forall|k: int| 0 <= k < items@.len() ==> (#[trigger] items@[k]@).len() <= u32::MAX as nat,
        ensures
            t.corpus() == items@.map_values(|s: String| segmented(s@)),
            t.path_mode() == match_paths,
            t.literal_mode() == literal,
            t.current_query() == Seq::<char>::empty(),
    {
        let mut store: Vec<Utf32String> = Vec::new();
        let mut i: usize = 0;
        while i < items.len()
            invariant
                i <= items@.len(),
                store@.len() == i,
                forall|k: int|
                    0 <= k < i ==> utf32_chars(#[trigger] store@[k]) == segmented(items@[k]@),
                forall|k: int|
                    0 <= k < i ==> utf32_chars(#[trigger] store@[k]).len() <= items@[k]@.len(),
            decreases items@.len() - i,
        {
            store.push(utf32_of(items[i].as_str()));
            i += 1;
        }
        let corpus_store = Corpus { entries: store };
        let matcher = if match_paths {
            matcher_for_paths()
        } else {
            matcher_default()
        };
        let t = Tachyon {
            items: corpus_store,
            matcher,
            pattern: pattern_empty(),
            match_paths,
            literal,
            query: String::new(),
            indices_buf: Vec::new(),
        };
        proof {
            assert(t.corpus() =~= items@.map_values(|s: String| segmented(s@)));
        }
        t
    }

    /// Recompiles the session's pattern from `q`: afresh in literal mode, in
    /// place in parsed mode.
    fn set_query(&mut self, q: String)
        ensures
            final(self).current_query() == q@,
            final(self).corpus() == old(self).corpus(),
            final(self).path_mode() == old(self).path_mode(),
            final(self).literal_mode() == old(self).literal_mode(),
            final(self).indices_buf == old(self).indices_buf,
    {
        if self.literal {
            self.compile_fresh(q.as_str());
        } else {
            self.compile_in_place(q.as_str());
        }
        self.query = q;
    }

    /// Ranks the 1-based candidate indices `idxs` against `query`: an empty
    /// query passes the candidates through unchanged; otherwise out-of-range
    /// candidates and non-matching items are dropped, the rest are sorted by
    /// descending score with ascending-index tie-break, and the result is
    /// truncated to `limit` entries if a limit is given.
    pub fn match_idx(&mut self, idxs: Vec<usize>, query: String, limit: Option<usize>) -> (out: Vec<
        usize,
    >)
        ensures
            out@ == rank_spec(
                old(self).path_mode(),
                old(self).literal_mode(),
                old(self).corpus(),
                idxs@,
                query@,
                limit,
            ),
            final(self).corpus() == old(self).corpus(),
            final(self).path_mode() == old(self).path_mode(),
            final(self).literal_mode() == old(self).literal_mode(),
            query@.len() == 0 ==> *final(self) == *old(self),
    {
        let ghost mp = self.path_mode();
        let ghost lit = self.literal_mode();
        let ghost corpus = self.corpus();
        let ghost q = query@;
        if query.as_str().is_empty() {
            return idxs;
        }
        self.set_query(query);
        let mut scored: Vec<(usize, u32)> = Vec::new();
        let mut i: usize = 0;
        while i < idxs.len()
            invariant
                i <= idxs@.len(),
                scored@ == scored_pairs(mp, lit, corpus, q, idxs@.take(i as int)),
                self.corpus() == corpus,
                self.path_mode() == mp,
                self.literal_mode() == lit,
                self.current_query() == q,
            decreases idxs@.len() - i,
        {
            let ext = idxs[i];
            if ext >= 1 && ext - 1 < self.corpus_len() {
                proof {
                    use_type_invariant(&self.items);
                }
                let sc = self.score_at(ext - 1);
                match sc {
                    Some(s) => scored.push((ext, s)),
                    None => {},
                }
            }
            proof {
                assert(idxs@.take(i + 1).drop_last() =~= idxs@.take(i as int));
            }
            i += 1;
        }
        proof {
            assert(idxs@.take(idxs@.len() as int) =~= idxs@);
        }
        let ranked_pairs = sort_pairs(scored);
        let mut out: Vec<usize> = Vec::new();
        let mut j: usize = 0;
        while j < ranked_pairs.len()
            invariant
                j <= ranked_pairs@.len(),
                out@.len() == j,
                forall|k: int| 0 <= k < j ==> out@[k] == ranked_pairs@[k].0,
            decreases ranked_pairs@.len() - j,
        {
            let p = ranked_pairs[j];
            out.push(p.0);
            j += 1;
        }
        proof {
            assert(out@ =~= ranked(mp, lit, corpus, idxs@, q));
        }
        if let Some(lim) = limit {
            out.truncate(lim);
            proof {
                let full = ranked(mp, lit, corpus, idxs@, q);
                if lim < full.len() {
                    assert(out@ == full.take(lim as int));
                }
            }
        }
        out
    }

    /// Reports the matched character offsets of `query` within the item at the
    /// 1-based index `lua_idx`: absent for an index outside the 1-based corpus
    /// range (0 included) or for a non-matching item, an empty but present
    /// list for an empty query, and otherwise the offsets sorted ascending
    /// without duplicates, each inside the item's character bounds.  On the
    /// paths that compile no pattern the session is left as it was.
    pub fn match_indices(&mut self, lua_idx: usize, query: String) -> (r: Option<Vec<u32>>)
        ensures
            offsets_view(r) == highlight_spec(
                old(self).path_mode(),
                old(self).literal_mode(),
                old(self).corpus(),
                lua_idx,
                query@,
            ),
            final(self).corpus() == old(self).corpus(),
            final(self).path_mode() == old(self).path_mode(),
            final(self).literal_mode() == old(self).literal_mode(),
            !in_corpus(lua_idx, old(self).corpus()) || query@.len() == 0 ==> *final(self) == *old(
                self,
            ),
            r matches Some(v) ==> forall|a: int, b: int| 0 <= a < b < v@.len() ==> v@[a] < v@[b],
            r matches Some(v) ==> forall|a: int|
                0 <= a < v@.len() ==> (v@[a] as nat) < old(self).corpus()[lua_idx - 1].len(),
    {
        let ghost mp = self.path_mode();
        let ghost lit = self.literal_mode();
        let ghost corpus = self.corpus();
        let ghost q = query@;
        if lua_idx < 1 {
            return None;
        }
        let idx = lua_idx - 1;
        if idx >= self.corpus_len() {
            return None;
        }
        if query.as_str().is_empty() {
            return Some(Vec::new());
        }
        proof {
            use_type_invariant(&self.items);
        }
        self.set_query(query);
        self.indices_buf.clear();
        let sc = self.offsets_at(idx);
        let ghost raw = match_offsets(mp, lit, q, corpus[idx as int]).1;
        if sc.is_none() {
            return None;
        }
        proof {
            assert(self.indices_buf@ =~= raw);
        }
        let sorted_buf = sort_offsets(&self.indices_buf);
        let out = dedup_sorted(&sorted_buf);
        proof {
            lemma_asc_sort_sorted(raw);
            lemma_dedup_strict(crate::model::asc_sort(raw));
            let in_item = |o: u32| (o as nat) < corpus[lua_idx - 1].len();
            assert(forall|k: int| 0 <= k < raw.len() ==> in_item(#[trigger] raw[k]));
            lemma_asc_sort_all(raw, in_item);
            lemma_dedup_all(crate::model::asc_sort(raw), in_item);
        }
        Some(out)
    }
}

} // verus!

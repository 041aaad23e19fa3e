//! Executable insertion sorts for scored candidates and for match offsets,
//! proved equal to the model's sort functions, together with the ordering and
//! membership facts about those functions that the contracts and laws rest
//! on.

use vstd::prelude::*;
use crate::model::{rank_le, insert_ranked, rank_sort, insert_asc, asc_sort, dedup_adjacent};

verus! {

/// Every position of a ranking is ordered against every later one.
pub open spec fn ranked_sorted(s: Seq<(usize, u32)>) -> bool {
    forall|i: int, j: int| 0 <= i <= j < s.len() ==> rank_le(s[i], s[j])
}

/// Every position of an offset sequence is no greater than every later one.
pub open spec fn asc_sorted(s: Seq<u32>) -> bool {
    forall|i: int, j: int| 0 <= i <= j < s.len() ==> s[i] <= s[j]
}

fn rank_le_exec(a: (usize, u32), b: (usize, u32)) -> (r: bool)
    ensures
        r == rank_le(a, b),
{
    a.1 > b.1 || (a.1 == b.1 && a.0 <= b.0)
}

/// Inserting before the first entry that ranks no worse is what
/// `insert_ranked` does.
proof fn lemma_insert_ranked_at(x: (usize, u32), s: Seq<(usize, u32)>, j: int)
    requires
        0 <= j <= s.len(),
        forall|k: int| 0 <= k < j ==> !rank_le(x, s[k]),
        j < s.len() ==> rank_le(x, s[j]),
    ensures
        insert_ranked(x, s) == s.insert(j, x),
    decreases j,
{
    if j == 0 {
        if s.len() == 0 {
            assert(insert_ranked(x, s) =~= s.insert(0, x));
        } else {
            assert(rank_le(x, s[0]));
            assert(insert_ranked(x, s) =~= s.insert(0, x));
        }
    } else {
        assert(!rank_le(x, s[0]));
        let rest = s.drop_first();
        assert(forall|k: int| 0 <= k < j - 1 ==> !rank_le(x, #[trigger] rest[k]));
        lemma_insert_ranked_at(x, rest, j - 1);
        assert(insert_ranked(x, s) == seq![s[0]] + rest.insert(j - 1, x));
        assert(seq![s[0]] + rest.insert(j - 1, x) =~= s.insert(j, x));
    }
}

/// Insertion keeps any property that every entry, and the inserted one, has.
pub proof fn lemma_insert_ranked_all(
    x: (usize, u32),
    s: Seq<(usize, u32)>,
    p: spec_fn((usize, u32)) -> bool,
)
    requires
        p(x),
        forall|i: int| 0 <= i < s.len() ==> p(#[trigger] s[i]),
    ensures
        forall|i: int| 0 <= i < insert_ranked(x, s).len() ==> p(#[trigger] insert_ranked(x, s)[i]),
    decreases s.len(),
{
    if s.len() != 0 && !rank_le(x, s[0]) {
        let rest = s.drop_first();
        assert(forall|i: int| 0 <= i < rest.len() ==> p(#[trigger] rest[i]));
        lemma_insert_ranked_all(x, rest, p);
        assert forall|i: int| 0 <= i < insert_ranked(x, s).len() implies p(
            #[trigger] insert_ranked(x, s)[i],
        ) by {
            if i > 0 {
                assert(insert_ranked(x, s)[i] == insert_ranked(x, rest)[i - 1]);
            }
        }
    }
}

/// Sorting keeps any property that every entry has.
pub proof fn lemma_rank_sort_all(s: Seq<(usize, u32)>, p: spec_fn((usize, u32)) -> bool)
    requires
        forall|i: int| 0 <= i < s.len() ==> p(#[trigger] s[i]),
    ensures
        forall|i: int| 0 <= i < rank_sort(s).len() ==> p(#[trigger] rank_sort(s)[i]),
    decreases s.len(),
{
    if s.len() != 0 {
        let prefix = s.drop_last();
        assert(forall|i: int| 0 <= i < prefix.len() ==> p(#[trigger] prefix[i]));
        lemma_rank_sort_all(prefix, p);
        lemma_insert_ranked_all(s.last(), rank_sort(prefix), p);
    }
}

/// Insertion keeps a ranking ordered.
pub proof fn lemma_insert_ranked_sorted(x: (usize, u32), s: Seq<(usize, u32)>)
    requires
        ranked_sorted(s),
    ensures
        ranked_sorted(insert_ranked(x, s)),
    decreases s.len(),
{
    if s.len() == 0 {
    } else if rank_le(x, s[0]) {
        assert forall|i: int, j: int|
            0 <= i <= j < insert_ranked(x, s).len() implies rank_le(
            insert_ranked(x, s)[i],
            insert_ranked(x, s)[j],
        ) by {
            if i == 0 && j > 0 {
                assert(rank_le(x, s[0]));
                assert(rank_le(s[0], s[j - 1]) || j == 1);
            }
        }
    } else {
        let rest = s.drop_first();
        assert(ranked_sorted(rest));
        lemma_insert_ranked_sorted(x, rest);
        let head_le = |e: (usize, u32)| rank_le(s[0], e);
        assert(head_le(x));
        assert(forall|i: int| 0 <= i < rest.len() ==> head_le(#[trigger] rest[i]));
        lemma_insert_ranked_all(x, rest, head_le);
        assert forall|i: int, j: int|
            0 <= i <= j < insert_ranked(x, s).len() implies rank_le(
            insert_ranked(x, s)[i],
            insert_ranked(x, s)[j],
        ) by {
            if i == 0 && j > 0 {
                assert(insert_ranked(x, s)[j] == insert_ranked(x, rest)[j - 1]);
                assert(head_le(insert_ranked(x, rest)[j - 1]));
            } else if i > 0 {
                assert(insert_ranked(x, s)[i] == insert_ranked(x, rest)[i - 1]);
                assert(insert_ranked(x, s)[j] == insert_ranked(x, rest)[j - 1]);
            }
        }
    }
}

/// The model's sort really sorts.
pub proof fn lemma_rank_sort_sorted(s: Seq<(usize, u32)>)
    ensures
        ranked_sorted(rank_sort(s)),
    decreases s.len(),
{
    if s.len() != 0 {
        lemma_rank_sort_sorted(s.drop_last());
        lemma_insert_ranked_sorted(s.last(), rank_sort(s.drop_last()));
    }
}

/// Sorts scored candidates by descending score, ties by ascending index.
pub(crate) fn sort_pairs(v: Vec<(usize, u32)>) -> (out: Vec<(usize, u32)>)
    ensures
        out@ == rank_sort(v@),
{
    let mut out: Vec<(usize, u32)> = Vec::new();
    let mut i: usize = 0;
    while i < v.len()
        invariant
            i <= v@.len(),
            out@ == rank_sort(v@.take(i as int)),
        decreases v@.len() - i,
    {
        let x = v[i];
        let mut j: usize = 0;
        while j < out.len() && !rank_le_exec(x, out[j])
            invariant
                j <= out@.len(),
                forall|k: int| 0 <= k < j ==> !rank_le(x, out@[k]),
            decreases out@.len() - j,
        {
            j += 1;
        }
        proof {
            lemma_insert_ranked_at(x, out@, j as int);
            assert(v@.take(i + 1).drop_last() =~= v@.take(i as int));
        }
        out.insert(j, x);
        i += 1;
    }
    proof {
        assert(v@.take(v@.len() as int) =~= v@);
    }
    out
}

/// Inserting before the first entry that is no smaller is what `insert_asc`
/// does.
proof fn lemma_insert_asc_at(x: u32, s: Seq<u32>, j: int)
    requires
        0 <= j <= s.len(),
        forall|k: int| 0 <= k < j ==> !(x <= s[k]),
        j < s.len() ==> x <= s[j],
    ensures
        insert_asc(x, s) == s.insert(j, x),
    decreases j,
{
    if j == 0 {
        assert(insert_asc(x, s) =~= s.insert(0, x));
    } else {
        let rest = s.drop_first();
        assert(forall|k: int| 0 <= k < j - 1 ==> !(x <= #[trigger] rest[k]));
        lemma_insert_asc_at(x, rest, j - 1);
        assert(insert_asc(x, s) == seq![s[0]] + rest.insert(j - 1, x));
        assert(seq![s[0]] + rest.insert(j - 1, x) =~= s.insert(j, x));
    }
}

/// Insertion keeps any property that every entry, and the inserted one, has.
pub proof fn lemma_insert_asc_all(x: u32, s: Seq<u32>, p: spec_fn(u32) -> bool)
    requires
        p(x),
        forall|i: int| 0 <= i < s.len() ==> p(#[trigger] s[i]),
    ensures
        forall|i: int| 0 <= i < insert_asc(x, s).len() ==> p(#[trigger] insert_asc(x, s)[i]),
    decreases s.len(),
{
    if s.len() != 0 && !(x <= s[0]) {
        let rest = s.drop_first();
        assert(forall|i: int| 0 <= i < rest.len() ==> p(#[trigger] rest[i]));
        lemma_insert_asc_all(x, rest, p);
        assert forall|i: int| 0 <= i < insert_asc(x, s).len() implies p(
            #[trigger] insert_asc(x, s)[i],
        ) by {
            if i > 0 {
                assert(insert_asc(x, s)[i] == insert_asc(x, rest)[i - 1]);
            }
        }
    }
}

/// Sorting keeps any property that every entry has.
pub proof fn lemma_asc_sort_all(s: Seq<u32>, p: spec_fn(u32) -> bool)
    requires
        forall|i: int| 0 <= i < s.len() ==> p(#[trigger] s[i]),
    ensures
        forall|i: int| 0 <= i < asc_sort(s).len() ==> p(#[trigger] asc_sort(s)[i]),
    decreases s.len(),
{
    if s.len() != 0 {
        let prefix = s.drop_last();
        assert(forall|i: int| 0 <= i < prefix.len() ==> p(#[trigger] prefix[i]));
        lemma_asc_sort_all(prefix, p);
        lemma_insert_asc_all(s.last(), asc_sort(prefix), p);
    }
}

/// Insertion keeps an offset sequence ordered.
pub proof fn lemma_insert_asc_sorted(x: u32, s: Seq<u32>)
    requires
        asc_sorted(s),
    ensures
        asc_sorted(insert_asc(x, s)),
    decreases s.len(),
{
    if s.len() == 0 {
    } else if x <= s[0] {
    } else {
        let rest = s.drop_first();
        assert(asc_sorted(rest));
        lemma_insert_asc_sorted(x, rest);
        let head_le = |e: u32| s[0] <= e;
        assert(head_le(x));
        assert(forall|i: int| 0 <= i < rest.len() ==> head_le(#[trigger] rest[i]));
        lemma_insert_asc_all(x, rest, head_le);
        assert forall|i: int, j: int|
            0 <= i <= j < insert_asc(x, s).len() implies insert_asc(x, s)[i] <= insert_asc(
            x,
            s,
        )[j] by {
            if i == 0 && j > 0 {
                assert(insert_asc(x, s)[j] == insert_asc(x, rest)[j - 1]);
                assert(head_le(insert_asc(x, rest)[j - 1]));
            } else if i > 0 {
                assert(insert_asc(x, s)[i] == insert_asc(x, rest)[i - 1]);
                assert(insert_asc(x, s)[j] == insert_asc(x, rest)[j - 1]);
            }
        }
    }
}

/// The model's offset sort really sorts.
pub proof fn lemma_asc_sort_sorted(s: Seq<u32>)
    ensures
        asc_sorted(asc_sort(s)),
    decreases s.len(),
{
    if s.len() != 0 {
        lemma_asc_sort_sorted(s.drop_last());
        lemma_insert_asc_sorted(s.last(), asc_sort(s.drop_last()));
    }
}

/// Sorts match offsets into ascending order.
pub(crate) fn sort_offsets(v: &Vec<u32>) -> (out: Vec<u32>)
    ensures
        out@ == asc_sort(v@),
{
    let mut out: Vec<u32> = Vec::new();
    let mut i: usize = 0;
    while i < v.len()
        invariant
            i <= v@.len(),
            out@ == asc_sort(v@.take(i as int)),
        decreases v@.len() - i,
    {
        let x = v[i];
        let mut j: usize = 0;
        while j < out.len() && !(x <= out[j])
            invariant
                j <= out@.len(),
                forall|k: int| 0 <= k < j ==> !(x <= out@[k]),
            decreases out@.len() - j,
        {
            j += 1;
        }
        proof {
            lemma_insert_asc_at(x, out@, j as int);
            assert(v@.take(i + 1).drop_last() =~= v@.take(i as int));
        }
        out.insert(j, x);
        i += 1;
    }
    proof {
        assert(v@.take(v@.len() as int) =~= v@);
    }
    out
}

/// Removes adjacent duplicates from an offset sequence.
pub(crate) fn dedup_sorted(v: &Vec<u32>) -> (out: Vec<u32>)
    ensures
        out@ == dedup_adjacent(v@),
{
    let mut out: Vec<u32> = Vec::new();
    let mut i: usize = 0;
    while i < v.len()
        invariant
            i <= v@.len(),
            out@ == dedup_adjacent(v@.take(i as int)),
        decreases v@.len() - i,
    {
        let x = v[i];
        proof {
            assert(v@.take(i + 1).drop_last() =~= v@.take(i as int));
        }
        if out.len() == 0 || out[out.len() - 1] != x {
            out.push(x);
        }
        i += 1;
    }
    proof {
        assert(v@.take(v@.len() as int) =~= v@);
    }
    out
}

/// A deduplicated sequence ends with the last entry of its source.
pub proof fn lemma_dedup_last(s: Seq<u32>)
    requires
        s.len() > 0,
    ensures
        dedup_adjacent(s).len() > 0,
        dedup_adjacent(s).last() == s.last(),
{
}

/// Deduplication keeps any property that every entry has.
pub proof fn lemma_dedup_all(s: Seq<u32>, p: spec_fn(u32) -> bool)
    requires
        forall|i: int| 0 <= i < s.len() ==> p(#[trigger] s[i]),
    ensures
        forall|i: int| 0 <= i < dedup_adjacent(s).len() ==> p(#[trigger] dedup_adjacent(s)[i]),
    decreases s.len(),
{
    if s.len() != 0 {
        let prefix = s.drop_last();
        assert(forall|i: int| 0 <= i < prefix.len() ==> p(#[trigger] prefix[i]));
        lemma_dedup_all(prefix, p);
        assert forall|i: int| 0 <= i < dedup_adjacent(s).len() implies p(
            #[trigger] dedup_adjacent(s)[i],
        ) by {
            if i < dedup_adjacent(prefix).len() {
                assert(dedup_adjacent(s)[i] == dedup_adjacent(prefix)[i]);
            } else {
                assert(dedup_adjacent(s)[i] == s.last());
            }
        }
    }
}

/// On a sorted sequence, adjacent deduplication leaves a strictly ascending
/// sequence.
pub proof fn lemma_dedup_strict(s: Seq<u32>)
    requires
        asc_sorted(s),
    ensures
        forall|i: int, j: int|
            0 <= i < j < dedup_adjacent(s).len() ==> dedup_adjacent(s)[i] < dedup_adjacent(s)[j],
    decreases s.len(),
{
    if s.len() != 0 {
        let prefix = s.drop_last();
        assert(asc_sorted(prefix));
        lemma_dedup_strict(prefix);
        let d = dedup_adjacent(prefix);
        if !(d.len() > 0 && d.last() == s.last()) {
            assert forall|i: int, j: int|
                0 <= i < j < dedup_adjacent(s).len() implies dedup_adjacent(s)[i]
                < dedup_adjacent(s)[j] by {
                if j == dedup_adjacent(s).len() - 1 && d.len() > 0 {
                    lemma_dedup_last(prefix);
                    assert(d[i] <= d.last()) by {
                        if i < d.len() - 1 {
                            assert(d[i] < d[d.len() - 1]);
                        }
                    }
                    assert(d.last() == prefix.last());
                    assert(prefix.last() <= s.last());
                    assert(d.last() != s.last());
                }
            }
        }
    }
}

} // verus!

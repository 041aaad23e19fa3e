//! The boundary convenience filter: plain substring containment (no fuzzy
//! scoring) over a caller-supplied list of indexed texts, with the query
//! rebuilt by concatenating fragments.

use vstd::prelude::*;

verus! {

/// `needle` occurs in `hay` starting at position `i`.
pub open spec fn contains_at(hay: Seq<char>, needle: Seq<char>, i: int) -> bool {
    &&& 0 <= i
    &&& i + needle.len() <= hay.len()
    &&& hay.subrange(i, i + needle.len()) == needle
}

/// `needle` occurs somewhere in `hay`.
pub open spec fn text_contains(hay: Seq<char>, needle: Seq<char>) -> bool {
    exists|i: int| contains_at(hay, needle, i)
}

/// Relies on `str::contains` with a `&str` pattern: true exactly when the
/// pattern occurs as a substring of the slice.
#[verifier::external_body]
fn contains_str(hay: &str, needle: &str) -> (r: bool)
    ensures
        r == text_contains(hay@, needle@),
{
    hay.contains(needle)
}

/// Relies on `String::push_str`: appends the given slice onto the end.
#[verifier::external_body]
fn append_str(s: &mut String, part: &str)
    ensures
        final(s)@ == old(s)@ + part@,
{
    s.push_str(part);
}

/// The concatenation of a sequence of texts, in order.
pub open spec fn concat_seqs(parts: Seq<Seq<char>>) -> Seq<char>
    decreases parts.len(),
{
    if parts.len() == 0 {
        Seq::empty()
    } else {
        concat_seqs(parts.drop_last()) + parts.last()
    }
}

/// Rebuilds a query from its fragments.
pub fn concat_parts(parts: &Vec<String>) -> (r: String)
    ensures
        r@ == concat_seqs(parts@.map_values(|p: String| p@)),
{
    let mut s = String::new();
    proof {
        assert(Seq::<char>::empty() + Seq::<char>::empty() =~= Seq::<char>::empty());
    }
    let mut i: usize = 0;
    while i < parts.len()
        invariant
            i <= parts@.len(),
            s@ == concat_seqs(parts@.map_values(|p: String| p@).take(i as int)),
        decreases parts@.len() - i,
    {
        proof {
            let views = parts@.map_values(|p: String| p@);
            assert(views.take(i + 1).drop_last() =~= views.take(i as int));
        }
        append_str(&mut s, parts[i].as_str());
        i += 1;
    }
    proof {
        let views = parts@.map_values(|p: String| p@);
        assert(views.take(views.len() as int) =~= views);
    }
    s
}

/// The texts of indexed pairs, by view.
pub open spec fn pairs_view(pairs: Seq<(i64, String)>) -> Seq<(i64, Seq<char>)> {
    pairs.map_values(|p: (i64, String)| (p.0, p.1@))
}

/// The indices of the pairs whose text contains `needle`, in their given
/// order.
pub open spec fn filter_spec(pairs: Seq<(i64, Seq<char>)>, needle: Seq<char>) -> Seq<i64>
    decreases pairs.len(),
{
    if pairs.len() == 0 {
        Seq::empty()
    } else {
        let prefix = filter_spec(pairs.drop_last(), needle);
        if text_contains(pairs.last().1, needle) {
            prefix.push(pairs.last().0)
        } else {
            prefix
        }
    }
}

/// Keeps, in order, the indices of the pairs whose text contains `needle`.
pub fn substring_filter(pairs: &Vec<(i64, String)>, needle: &str) -> (out: Vec<i64>)
    ensures
        out@ == filter_spec(pairs_view(pairs@), needle@),
{
    let mut out: Vec<i64> = Vec::new();
    let mut i: usize = 0;
    while i < pairs.len()
        invariant
            i <= pairs@.len(),
            out@ == filter_spec(pairs_view(pairs@).take(i as int), needle@),
        decreases pairs@.len() - i,
    {
        proof {
            assert(pairs_view(pairs@).take(i + 1).drop_last() =~= pairs_view(pairs@).take(
                i as int,
            ));
        }
        if contains_str(pairs[i].1.as_str(), needle) {
            out.push(pairs[i].0);
        }
        i += 1;
    }
    proof {
        assert(pairs_view(pairs@).take(pairs@.len() as int) =~= pairs_view(pairs@));
    }
    out
}

/// An empty needle occurs in every text, so filtering with it keeps every
/// index unchanged.
pub proof fn lemma_empty_needle_passes(pairs: Seq<(i64, Seq<char>)>)
    ensures
        filter_spec(pairs, Seq::empty()).len() == pairs.len(),
        forall|i: int|
            0 <= i < pairs.len() ==> filter_spec(pairs, Seq::empty())[i] == #[trigger] pairs[i].0,
    decreases pairs.len(),
{
    if pairs.len() != 0 {
        let prefix = pairs.drop_last();
        lemma_empty_needle_passes(prefix);
        assert(text_contains(pairs.last().1, Seq::empty())) by {
            assert(pairs.last().1.subrange(0, 0) =~= Seq::<char>::empty());
            assert(contains_at(pairs.last().1, Seq::empty(), 0));
        }
        assert forall|i: int| 0 <= i < pairs.len() implies filter_spec(pairs, Seq::empty())[i]
            == #[trigger] pairs[i].0 by {
            if i < pairs.len() - 1 {
                assert(prefix[i] == pairs[i]);
            }
        }
    }
}

} // verus!

//! Properties that hold of the search results for every query and buffer.

use vstd::prelude::*;
use crate::lines::lines_of;
use crate::matching::{has_substring, lower_of, matching, matching_folded, occurs_at};

verus! {

/// `idx` places each element of `a` in `b`, at strictly increasing positions.
pub open spec fn placed_in_order<A>(idx: Seq<int>, a: Seq<A>, b: Seq<A>) -> bool {
    &&& idx.len() == a.len()
    &&& forall|k: int| 0 <= k < idx.len() ==> 0 <= #[trigger] idx[k] < b.len() && a[k] == b[idx[k]]
    &&& forall|k1: int, k2: int| 0 <= k1 < k2 < idx.len() ==> #[trigger] idx[k1] < #[trigger] idx[k2]
}

/// `a` is `b` with some elements left out and the rest in their order.
pub open spec fn is_subsequence<A>(a: Seq<A>, b: Seq<A>) -> bool {
    exists|idx: Seq<int>| placed_in_order(idx, a, b)
}

/// Filtering leaves out elements and keeps the order of the others.
pub proof fn lemma_filter_is_subsequence<A>(s: Seq<A>, p: spec_fn(A) -> bool)
    ensures
        is_subsequence(s.filter(p), s),
    decreases s.len(),
{
    reveal(Seq::filter);
    if s.len() == 0 {
        assert(placed_in_order(Seq::<int>::empty(), s.filter(p), s));
    } else {
        let rest = s.drop_last();
        lemma_filter_is_subsequence(rest, p);
        let idx = choose|idx: Seq<int>| placed_in_order(idx, rest.filter(p), rest);
        if p(s.last()) {
            let more = idx.push(s.len() - 1);
            assert(placed_in_order(more, s.filter(p), s));
        } else {
            assert(placed_in_order(idx, s.filter(p), s));
        }
    }
}

/// A filter whose predicate holds everywhere keeps the whole sequence.
pub proof fn lemma_filter_keeps_all<A>(s: Seq<A>, p: spec_fn(A) -> bool)
    requires
        forall|x: A| #[trigger] p(x),
    ensures
        s.filter(p) == s,
    decreases s.len(),
{
    reveal(Seq::filter);
    if s.len() > 0 {
        lemma_filter_keeps_all(s.drop_last(), p);
        assert(s.drop_last().push(s.last()) =~= s);
    }
}

/// Every line that an exact search returns is a line of the buffer and
/// contains the query.
pub proof fn search_returns_matching_lines(q: Seq<char>, b: Seq<char>)
    ensures
        forall|k: int| 0 <= k < matching(q, b).len() ==> {
            &&& lines_of(b).contains(#[trigger] matching(q, b)[k])
            &&& has_substring(matching(q, b)[k], q)
        },
{
    broadcast use Seq::lemma_filter_pred;

    let pred = |l: Seq<char>| has_substring(l, q);
    lemma_filter_is_subsequence(lines_of(b), pred);
    let idx = choose|idx: Seq<int>| placed_in_order(idx, matching(q, b), lines_of(b));
    assert forall|k: int| 0 <= k < matching(q, b).len() implies lines_of(b).contains(
        #[trigger] matching(q, b)[k],
    ) by {
        assert(lines_of(b)[idx[k]] == matching(q, b)[k]);
    }
}

/// An exact search keeps the buffer's line order and adds no line.
pub proof fn search_keeps_line_order(q: Seq<char>, b: Seq<char>)
    ensures
        is_subsequence(matching(q, b), lines_of(b)),
{
    lemma_filter_is_subsequence(lines_of(b), |l: Seq<char>| has_substring(l, q));
}

/// Every line that a case-insensitive search returns is a line of the buffer
/// that contains the query once both are lowercased, and the buffer's line
/// order is kept.
pub proof fn folded_search_returns_matching_lines(q: Seq<char>, b: Seq<char>)
    ensures
        is_subsequence(matching_folded(q, b), lines_of(b)),
        forall|k: int| 0 <= k < matching_folded(q, b).len() ==> {
            &&& lines_of(b).contains(#[trigger] matching_folded(q, b)[k])
            &&& has_substring(lower_of(matching_folded(q, b)[k]), lower_of(q))
        },
{
    broadcast use Seq::lemma_filter_pred;

    let pred = |l: Seq<char>| has_substring(lower_of(l), lower_of(q));
    lemma_filter_is_subsequence(lines_of(b), pred);
    let idx = choose|idx: Seq<int>| placed_in_order(idx, matching_folded(q, b), lines_of(b));
    assert forall|k: int| 0 <= k < matching_folded(q, b).len() implies lines_of(b).contains(
        #[trigger] matching_folded(q, b)[k],
    ) by {
        assert(lines_of(b)[idx[k]] == matching_folded(q, b)[k]);
    }
}

/// The empty query matches every line: an exact search for it returns all
/// lines of the buffer, in order.
pub proof fn empty_query_matches_every_line(b: Seq<char>)
    ensures
        matching(Seq::empty(), b) == lines_of(b),
{
    let q = Seq::<char>::empty();
    let pred = |l: Seq<char>| has_substring(l, q);
    assert forall|l: Seq<char>| #[trigger] pred(l) by {
        assert(l.subrange(0, 0) =~= q);
        assert(occurs_at(l, q, 0));
    }
    lemma_filter_keeps_all(lines_of(b), pred);
}

} // verus!

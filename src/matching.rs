//! Selecting the lines of a buffer that contain a query.

use vstd::prelude::*;
use crate::laws::lemma_filter_keeps_all;
use crate::lines::{chars_of, lines_of, split_lines, views};

verus! {

/// `needle` stands in `hay` starting at index `i`.
pub open spec fn occurs_at(hay: Seq<char>, needle: Seq<char>, i: int) -> bool {
    0 <= i && i + needle.len() <= hay.len() && hay.subrange(i, i + needle.len()) == needle
}

/// `needle` is a contiguous part of `hay`; the empty text is part of every text.
pub open spec fn has_substring(hay: Seq<char>, needle: Seq<char>) -> bool {
    exists|i: int| occurs_at(hay, needle, i)
}

/// The lines among `ls` that contain `q` exactly, in their order.
pub open spec fn select_exact(q: Seq<char>, ls: Seq<Seq<char>>) -> Seq<Seq<char>> {
    ls.filter(|l: Seq<char>| has_substring(l, q))
}

/// The lines of `s` that contain `q`, comparing characters exactly.
pub open spec fn matching(q: Seq<char>, s: Seq<char>) -> Seq<Seq<char>> {
    select_exact(q, lines_of(s))
}

/// The lowercase form of a text under the full Unicode mapping, as
/// `str::to_lowercase` computes it.
pub uninterp spec fn lower_of(s: Seq<char>) -> Seq<char>;

/// The lines among `ls` that contain `q` once both are lowercased, in their order.
pub open spec fn select_folded(q: Seq<char>, ls: Seq<Seq<char>>) -> Seq<Seq<char>> {
    ls.filter(|l: Seq<char>| has_substring(lower_of(l), lower_of(q)))
}

/// The lines of `s` that contain `q` when case is ignored.
pub open spec fn matching_folded(q: Seq<char>, s: Seq<char>) -> Seq<Seq<char>> {
    select_folded(q, lines_of(s))
}

/// Relies on str::to_lowercase: the lowercase form depends on the characters
/// of the input alone, and the empty string stays empty.
#[verifier::external_body]
fn lowercase(s: &str) -> (r: String)
    ensures
        r@ == lower_of(s@),
        s@.len() == 0 ==> r@.len() == 0,
{
    s.to_lowercase()
}

/// Scans every start position of `hay` for `needle`.
fn occurs(hay: &Vec<char>, needle: &Vec<char>) -> (r: bool)
    ensures
        r == has_substring(hay@, needle@),
{
    let nl = needle.len();
    if nl > hay.len() {
        assert forall|j: int| !occurs_at(hay@, needle@, j) by {}
        return false;
    }
    if nl == 0 {
        assert(hay@.subrange(0, 0) =~= needle@);
        assert(occurs_at(hay@, needle@, 0));
        return true;
    }
    let hl: usize = hay.len();
    let last = hl - nl;
    let mut i: usize = 0;
    while i <= last
        invariant
            last + nl == hay@.len(),
            hl == hay@.len(),
            nl == needle@.len(),
            nl > 0,
            forall|j: int| 0 <= j < i ==> !occurs_at(hay@, needle@, j),
        decreases last + 1 - i,
    {
        let mut k: usize = 0;
        while k < nl && hay[i + k] == needle[k]
            invariant
                i <= last,
                hl == hay@.len(),
                last + nl == hay@.len(),
                nl == needle@.len(),
                k <= nl,
                forall|m: int| 0 <= m < k ==> hay@[i + m] == needle@[m],
            decreases nl - k,
        {
            k = k + 1;
        }
        if k == nl {
            assert(hay@.subrange(i as int, i + nl) =~= needle@);
            assert(occurs_at(hay@, needle@, i as int));
            return true;
        }
        assert(hay@.subrange(i as int, i + nl)[k as int] == hay@[i + k]);
        i = i + 1;
    }
    false
}

/// Whether `query` stands anywhere in `line`, character for character.
pub fn contains_text(line: &str, query: &str) -> (r: bool)
    ensures
        r == has_substring(line@, query@),
{
    let lc = chars_of(line);
    let qc = chars_of(query);
    occurs(&lc, &qc)
}

/// The lines of `contents` that contain `query`, case-sensitively, in order.
pub fn search<'a>(query: &str, contents: &'a str) -> (r: Vec<&'a str>)
    ensures
        views(r@) == matching(query@, contents@),
{
    let all = split_lines(contents);
    let qc = chars_of(query);
    let mut out: Vec<&'a str> = Vec::new();
    let mut j: usize = 0;
    while j < all.len()
        invariant
            j <= all@.len(),
            views(all@) == lines_of(contents@),
            qc@ == query@,
            views(out@) == select_exact(query@, views(all@.subrange(0, j as int))),
        decreases all@.len() - j,
    {
        let line = all[j];
        let lc = chars_of(line);
        let hit = occurs(&lc, &qc);
        proof {
            let before = views(all@.subrange(0, j as int));
            assert(views(all@.subrange(0, j + 1)) =~= before.push(line@));
            before.lemma_filter_push(line@, |l: Seq<char>| has_substring(l, query@));
            assert(views(out@.push(line)) =~= views(out@).push(line@));
        }
        if hit {
            out.push(line);
        }
        j = j + 1;
    }
    assert(all@.subrange(0, all@.len() as int) =~= all@);
    out
}

/// The lines of `contents` that contain `query` when both are lowercased
/// (full Unicode mapping), in order.
pub fn search_case_insensitive<'a>(query: &str, contents: &'a str) -> (r: Vec<&'a str>)
    ensures
        views(r@) == matching_folded(query@, contents@),
        query@.len() == 0 ==> views(r@) == lines_of(contents@),
{
    let all = split_lines(contents);
    let folded_query = lowercase(query);
    let mut out: Vec<&'a str> = Vec::new();
    let mut j: usize = 0;
    while j < all.len()
        invariant
            j <= all@.len(),
            views(all@) == lines_of(contents@),
            folded_query@ == lower_of(query@),
            views(out@) == select_folded(query@, views(all@.subrange(0, j as int))),
        decreases all@.len() - j,
    {
        let line = all[j];
        let folded_line = lowercase(line);
        let hit = contains_text(folded_line.as_str(), folded_query.as_str());
        proof {
            let before = views(all@.subrange(0, j as int));
            assert(views(all@.subrange(0, j + 1)) =~= before.push(line@));
            before.lemma_filter_push(
                line@,
                |l: Seq<char>| has_substring(lower_of(l), lower_of(query@)),
            );
            assert(views(out@.push(line)) =~= views(out@).push(line@));
        }
        if hit {
            out.push(line);
        }
        j = j + 1;
    }
    assert(all@.subrange(0, all@.len() as int) =~= all@);
    if query.is_empty() {
        proof {
            let pred = |l: Seq<char>| has_substring(lower_of(l), lower_of(query@));
            assert forall|l: Seq<char>| #[trigger] pred(l) by {
                assert(lower_of(l).subrange(0, 0) =~= lower_of(query@));
                assert(occurs_at(lower_of(l), lower_of(query@), 0));
            }
            lemma_filter_keeps_all(lines_of(contents@), pred);
        }
    }
    out
}

} // verus!

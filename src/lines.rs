//! Cutting a text buffer into lines.

use vstd::prelude::*;
use vstd::std_specs::iter::IteratorSpec;

verus! {

/// A line ends at a line feed; a carriage return just before that line feed
/// belongs to the terminator, not to the line.
pub open spec fn strip_cr(line: Seq<char>) -> Seq<char> {
    if line.len() > 0 && line.last() == '\r' {
        line.drop_last()
    } else {
        line
    }
}

/// Index of the first line feed in `s`, or `s.len()` where there is none.
pub open spec fn first_break(s: Seq<char>) -> nat
    decreases s.len(),
{
    if s.len() == 0 {
        0
    } else if s[0] == '\n' {
        0
    } else {
        1 + first_break(s.drop_first())
    }
}

/// The lines of `s`: the text between line feeds, with `\r\n` also accepted as
/// a terminator. The final line needs no terminator (a lone `\r` at its end
/// stays part of it), and a terminator at the very end opens no further,
/// empty line.
pub open spec fn lines_of(s: Seq<char>) -> Seq<Seq<char>>
    decreases s.len(),
{
    if s.len() == 0 {
        Seq::empty()
    } else {
        let e = first_break(s) as int;
        if e >= s.len() {
            seq![s]
        } else {
            seq![strip_cr(s.subrange(0, e))] + lines_of(s.subrange(e + 1, s.len() as int))
        }
    }
}

/// The view of each line of a result, in order.
pub open spec fn views(r: Seq<&str>) -> Seq<Seq<char>> {
    r.map_values(|l: &str| l@)
}

/// Reads the characters of `s` in order.
pub(crate) fn chars_of(s: &str) -> (r: Vec<char>)
    ensures
        r@ == s@,
{
    let mut out: Vec<char> = Vec::new();
    let mut it = s.chars();
    loop
        invariant
            out@ + it.remaining() == s@,
            it.decrease() is Some,
        decreases it.decrease()->0,
    {
        match it.next() {
            Some(c) => {
                out.push(c);
            },
            None => {
                return out;
            },
        }
    }
}

/// `first_break` finds a line feed at `k` when none stands before it.
proof fn lemma_first_break(t: Seq<char>, k: int)
    requires
        0 <= k <= t.len(),
        k < t.len() ==> t[k] == '\n',
        forall|j: int| 0 <= j < k ==> t[j] != '\n',
    ensures
        first_break(t) == k,
    decreases k,
{
    if k > 0 {
        lemma_first_break(t.drop_first(), k - 1);
    }
}

/// Cuts `contents` into its lines, each a slice of it.
pub fn split_lines(contents: &str) -> (r: Vec<&str>)
    ensures
        views(r@) == lines_of(contents@),
{
    let cs = chars_of(contents);
    let n = cs.len();
    let mut out: Vec<&str> = Vec::new();
    let mut start: usize = 0;
    let mut i: usize = 0;
    assert(cs@.subrange(0, n as int) =~= cs@);
    assert(views(out@) + lines_of(cs@) =~= lines_of(cs@));
    while i < n
        invariant
            start <= i <= n,
            n == cs@.len(),
            cs@ == contents@,
            forall|k: int| start <= k < i ==> cs@[k] != '\n',
            lines_of(contents@) == views(out@) + lines_of(cs@.subrange(start as int, n as int)),
        decreases n - i,
    {
        if cs[i] == '\n' {
            let mut end: usize = i;
            if end > start && cs[end - 1] == '\r' {
                end = end - 1;
            }
            let line = contents.substring_char(start, end);
            let ghost t = cs@.subrange(start as int, n as int);
            proof {
                lemma_first_break(t, i - start);
                assert(line@ =~= strip_cr(t.subrange(0, i - start)));
                assert(t.subrange(i - start + 1, t.len() as int) =~= cs@.subrange(i + 1, n as int));
                assert(views(out@.push(line)) =~= views(out@) + seq![line@]);
            }
            out.push(line);
            start = i + 1;
        }
        i = i + 1;
    }
    if start < n {
        let line = contents.substring_char(start, n);
        let ghost t = cs@.subrange(start as int, n as int);
        proof {
            lemma_first_break(t, n - start);
            assert(views(out@.push(line)) =~= views(out@) + seq![line@]);
        }
        out.push(line);
    } else {
        assert(views(out@) + lines_of(cs@.subrange(start as int, n as int)) =~= views(out@));
    }
    out
}

} // verus!

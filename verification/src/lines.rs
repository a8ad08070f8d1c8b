//! Splitting text into lines, the way `str::lines` does it: a line ends at a
//! newline; a carriage return directly before the newline is dropped; a final
//! line without a newline is kept as it stands.

use crate::text::{first_where, lemma_first_where_unique, scan_eq};
use vstd::prelude::*;

verus! {

/// `l` with one trailing carriage return removed, if it ends in one.
pub open spec fn chop_cr(l: Seq<char>) -> Seq<char> {
    if l.len() > 0 && l[l.len() - 1] == '\r' {
        l.drop_last()
    } else {
        l
    }
}

/// The lines of `s`: the segments between newlines, each with a trailing
/// carriage return dropped; a last segment without a newline stays whole,
/// and a trailing newline does not open an empty final line.
pub open spec fn spec_lines(s: Seq<char>) -> Seq<Seq<char>>
    decreases s.len(),
{
    if s.len() == 0 {
        Seq::empty()
    } else {
        let i = first_where(s, |c: char| c == '\n');
        if 0 <= i < s.len() {
            seq![chop_cr(s.subrange(0, i))] + spec_lines(s.subrange(i + 1, s.len() as int))
        } else {
            seq![s]
        }
    }
}

/// The lines named by the index ranges `rs` into `s`.
pub open spec fn ranges_lines(rs: Seq<(usize, usize)>, s: Seq<char>) -> Seq<Seq<char>> {
    Seq::new(rs.len(), |k: int| s.subrange(rs[k].0 as int, rs[k].1 as int))
}

/// One step of line splitting: when the first newline of the suffix starting
/// at `start` sits at `i`, the suffix's lines are the line `[start, end)`
/// (with the carriage return dropped) followed by the lines after `i`.
proof fn lemma_lines_step(s: Seq<char>, start: int, i: int, end: int)
    requires
        0 <= start <= i < s.len(),
        forall|j: int| start <= j < i ==> s[j] != '\n',
        s[i] == '\n',
        end == if i > start && s[i - 1] == '\r' {
            i - 1
        } else {
            i
        },
    ensures
        spec_lines(s.skip(start)) == seq![s.subrange(start, end)] + spec_lines(s.skip(i + 1)),
{
    let tail = s.skip(start);
    let p = |c: char| c == '\n';
    assert forall|j: int| 0 <= j < i - start implies !p(tail[j]) by {
        assert(tail[j] == s[start + j]);
    }
    assert(tail[i - start] == s[i]);
    lemma_first_where_unique(tail, p, i - start);
    assert(tail.subrange(0, i - start) =~= s.subrange(start, i));
    assert(tail.subrange(i - start + 1, tail.len() as int) =~= s.skip(i + 1));
    if i > start && s[i - 1] == '\r' {
        assert(chop_cr(s.subrange(start, i)) =~= s.subrange(start, end));
    } else {
        assert(chop_cr(s.subrange(start, i)) =~= s.subrange(start, end));
    }
}

/// A suffix with no newline at all is a single line (or no line, if empty).
proof fn lemma_lines_last(s: Seq<char>, start: int)
    requires
        0 <= start <= s.len(),
        forall|j: int| start <= j < s.len() ==> s[j] != '\n',
    ensures
        start < s.len() ==> spec_lines(s.skip(start)) == seq![s.subrange(start, s.len() as int)],
        start == s.len() ==> spec_lines(s.skip(start)) == Seq::<Seq<char>>::empty(),
{
    let tail = s.skip(start);
    if start < s.len() {
        let p = |c: char| c == '\n';
        assert forall|j: int| 0 <= j < tail.len() implies !p(tail[j]) by {
            assert(tail[j] == s[start + j]);
        }
        lemma_first_where_unique(tail, p, tail.len() as int);
        assert(tail =~= s.subrange(start, s.len() as int));
    } else {
        assert(tail =~= Seq::<char>::empty());
    }
}

/// Splits `chars` into its line ranges: the `k`-th returned pair bounds the
/// `k`-th line of the text.
pub fn split_line_ranges(chars: &Vec<char>) -> (r: Vec<(usize, usize)>)
    ensures
        ranges_lines(r@, chars@) == spec_lines(chars@),
        forall|k: int| 0 <= k < r@.len() ==> (#[trigger] r@[k]).0 <= r@[k].1 <= chars@.len(),
{
    let ghost s = chars@;
    let n = chars.len();
    let mut r: Vec<(usize, usize)> = Vec::new();
    let mut start: usize = 0;
    proof {
        assert(s.skip(0) =~= s);
        assert(ranges_lines(r@, s) + spec_lines(s.skip(0)) =~= spec_lines(s.skip(0)));
    }
    loop
        invariant
            0 <= start <= n,
            n == s.len(),
            chars@ == s,
            start > 0 ==> s[start - 1] == '\n',
            spec_lines(s) == ranges_lines(r@, s) + spec_lines(s.skip(start as int)),
            forall|k: int| 0 <= k < r@.len() ==> (#[trigger] r@[k]).0 <= r@[k].1 <= n,
        ensures
            start <= n,
            n == s.len(),
            spec_lines(s) == ranges_lines(r@, s) + spec_lines(s.skip(start as int)),
            forall|j: int| start <= j < s.len() ==> s[j] != '\n',
            forall|k: int| 0 <= k < r@.len() ==> (#[trigger] r@[k]).0 <= r@[k].1 <= n,
        decreases n - start,
    {
        let i = scan_eq(chars, start, n, '\n');
        if i == n {
            break ;
        }
        let end = if i > start && chars[i - 1] == '\r' {
            i - 1
        } else {
            i
        };
        proof {
            lemma_lines_step(s, start as int, i as int, end as int);
            assert(ranges_lines(r@.push((start, end)), s) =~= ranges_lines(r@, s) + seq![
                s.subrange(start as int, end as int),
            ]);
            assert(ranges_lines(r@, s) + (seq![s.subrange(start as int, end as int)] + spec_lines(
                s.skip(i + 1),
            )) =~= (ranges_lines(r@, s) + seq![s.subrange(start as int, end as int)]) + spec_lines(
                s.skip(i + 1),
            ));
        }
        r.push((start, end));
        start = i + 1;
    }
    proof {
        lemma_lines_last(s, start as int);
    }
    if start < n {
        proof {
            assert(ranges_lines(r@.push((start, n)), s) =~= ranges_lines(r@, s) + seq![
                s.subrange(start as int, n as int),
            ]);
        }
        r.push((start, n));
    }
    proof {
        assert(ranges_lines(r@, s) + Seq::<Seq<char>>::empty() =~= ranges_lines(r@, s));
    }
    r
}

} // verus!

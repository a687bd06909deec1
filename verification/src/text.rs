//! Character-level text helpers: string equality, prefix tests, splitting a
//! text into newline-separated lines (both raw and as a text reader counts
//! them, with carriage returns stripped and no empty line after a final
//! newline), truncating a line to a character budget, and joining lines
//! back with newline separators.

use vstd::prelude::*;

verus! {

use vstd::string::StrSliceExecFns;
use vstd::string::StringExecFns;

/// `p` is a prefix of `s`.
pub open spec fn spec_starts_with(s: Seq<char>, p: Seq<char>) -> bool {
    p.len() <= s.len() && s.take(p.len() as int) == p
}

/// The character index of the first newline in `s`, or `s.len()` if `s`
/// contains none.
pub open spec fn first_nl(s: Seq<char>) -> nat
    decreases s.len(),
{
    if s.len() == 0 {
        0
    } else if s[0] == '\n' {
        0
    } else {
        1 + first_nl(s.drop_first())
    }
}

pub proof fn lemma_first_nl(s: Seq<char>)
    ensures
        first_nl(s) <= s.len(),
        forall|j: int| 0 <= j < first_nl(s) ==> s[j] != '\n',
        first_nl(s) < s.len() ==> s[first_nl(s) as int] == '\n',
    decreases s.len(),
{
    if s.len() == 0 {
    } else if s[0] == '\n' {
    } else {
        lemma_first_nl(s.drop_first());
        assert forall|j: int| 0 <= j < first_nl(s) implies s[j] != '\n' by {
            if j > 0 {
                assert(s.drop_first()[j - 1] == s[j]);
            }
        }
    }
}

/// If no newline occurs before position `j`, the first newline of `s` lies at
/// `j` positions past the first newline of `s` with its first `j` characters
/// removed.
pub proof fn lemma_first_nl_skip(s: Seq<char>, j: int)
    requires
        0 <= j <= s.len(),
        forall|t: int| 0 <= t < j ==> s[t] != '\n',
    ensures
        first_nl(s) == j + first_nl(s.skip(j)),
    decreases j,
{
    if j == 0 {
        assert(s.skip(0) =~= s);
    } else {
        assert(s[0] != '\n');
        assert forall|t: int| 0 <= t < j - 1 implies s.drop_first()[t] != '\n' by {
            assert(s.drop_first()[t] == s[t + 1]);
        }
        lemma_first_nl_skip(s.drop_first(), j - 1);
        assert(s.drop_first().skip(j - 1) =~= s.skip(j));
    }
}

/// The newline-separated lines of `s`: maximal newline-free segments, in
/// order. A text without a newline is a single line; each newline ends the
/// line before it.
pub open spec fn line_split(s: Seq<char>) -> Seq<Seq<char>>
    decreases s.len(),
    via line_split_decreases
{
    let i = first_nl(s) as int;
    if i >= s.len() {
        seq![s]
    } else {
        seq![s.take(i)] + line_split(s.skip(i + 1))
    }
}

#[via_fn]
proof fn line_split_decreases(s: Seq<char>) {
    lemma_first_nl(s);
}

/// `l` cut off after `n` characters; unchanged if already within `n`.
pub open spec fn truncate_chars(l: Seq<char>, n: int) -> Seq<char> {
    if l.len() <= n {
        l
    } else {
        l.take(n)
    }
}

/// `l` without a single trailing carriage return, if it carries one.
pub open spec fn strip_cr(l: Seq<char>) -> Seq<char> {
    if l.len() > 0 && l.last() == '\r' {
        l.drop_last()
    } else {
        l
    }
}

/// The lines of `s` as a text reader counts them: newline-separated
/// segments, where a carriage return directly before a newline does not
/// belong to its line, and a final newline ends the last line rather than
/// opening an empty one.
pub open spec fn text_lines(s: Seq<char>) -> Seq<Seq<char>> {
    let segs = line_split(s);
    let trimmed = Seq::new((segs.len() - 1) as nat, |j: int| strip_cr(segs[j]));
    if segs.last().len() == 0 {
        trimmed
    } else {
        trimmed.push(segs.last())
    }
}

/// The lines joined back into one text with a newline between neighbours.
pub open spec fn join_lines(ls: Seq<Seq<char>>) -> Seq<char>
    decreases ls.len(),
{
    if ls.len() == 0 {
        Seq::empty()
    } else if ls.len() == 1 {
        ls[0]
    } else {
        join_lines(ls.drop_last()) + seq!['\n'] + ls.last()
    }
}

/// No line that `line_split` yields contains a newline.
pub proof fn lemma_line_split_nl_free(s: Seq<char>)
    ensures
        forall|k: int, j: int|
            0 <= k < line_split(s).len() && 0 <= j < line_split(s)[k].len()
                ==> #[trigger] line_split(s)[k][j] != '\n',
    decreases s.len(),
{
    lemma_first_nl(s);
    let i = first_nl(s) as int;
    if i >= s.len() {
        assert forall|k: int, j: int|
            0 <= k < line_split(s).len() && 0 <= j < line_split(s)[k].len() implies #[trigger] line_split(
            s,
        )[k][j] != '\n' by {
            assert(line_split(s)[k] == s);
        }
    } else {
        lemma_line_split_nl_free(s.skip(i + 1));
        assert forall|k: int, j: int|
            0 <= k < line_split(s).len() && 0 <= j < line_split(s)[k].len() implies #[trigger] line_split(
            s,
        )[k][j] != '\n' by {
            if k == 0 {
                assert(line_split(s)[0] == s.take(i));
                assert(s.take(i)[j] == s[j]);
            } else {
                assert(line_split(s)[k] == line_split(s.skip(i + 1))[k - 1]);
            }
        }
    }
}

/// Splitting a newline-free segment, a newline, and a remainder yields the
/// segment and then the split of the remainder.
pub proof fn lemma_split_around_nl(x: Seq<char>, rest: Seq<char>)
    requires
        forall|j: int| 0 <= j < x.len() ==> x[j] != '\n',
    ensures
        line_split(x + seq!['\n'] + rest) == seq![x] + line_split(rest),
{
    let s = x + seq!['\n'] + rest;
    assert forall|t: int| 0 <= t < x.len() implies s[t] != '\n' by {
        assert(s[t] == x[t]);
    }
    lemma_first_nl_skip(s, x.len() as int);
    assert(s.skip(x.len() as int)[0] == '\n');
    assert(first_nl(s) == x.len());
    assert(s.take(x.len() as int) =~= x);
    assert(s.skip(x.len() as int + 1) =~= rest);
}

/// The back-recursive join, read from the front: with two or more lines the
/// joined text is the first line, a newline, and the join of the rest.
pub proof fn lemma_join_front(ls: Seq<Seq<char>>)
    requires
        ls.len() >= 2,
    ensures
        join_lines(ls) == ls[0] + seq!['\n'] + join_lines(ls.drop_first()),
    decreases ls.len(),
{
    if ls.len() == 2 {
        assert(ls.drop_last() =~= seq![ls[0]]);
        assert(ls.drop_first() =~= seq![ls[1]]);
        assert(ls.last() == ls[1]);
    } else {
        lemma_join_front(ls.drop_last());
        assert(ls.drop_last()[0] == ls[0]);
        assert(ls.drop_last().drop_first() =~= ls.drop_first().drop_last());
        assert(ls.drop_first().last() == ls.last());
        let mid = join_lines(ls.drop_first().drop_last());
        assert(join_lines(ls.drop_last()) == ls[0] + seq!['\n'] + mid);
        assert(join_lines(ls) == (ls[0] + seq!['\n'] + mid) + seq!['\n'] + ls.last());
        assert(ls.drop_first().len() >= 2);
        assert(join_lines(ls.drop_first()) == mid + seq!['\n'] + ls.last());
        assert((ls[0] + seq!['\n'] + mid) + seq!['\n'] + ls.last() =~= ls[0] + seq!['\n'] + (mid
            + seq!['\n'] + ls.last()));
    }
}

/// Splitting undoes joining: a non-empty sequence of newline-free lines,
/// joined with newlines, splits back into exactly those lines.
pub proof fn lemma_split_of_joined(ls: Seq<Seq<char>>)
    requires
        ls.len() >= 1,
        forall|k: int, j: int|
            0 <= k < ls.len() && 0 <= j < ls[k].len() ==> #[trigger] ls[k][j] != '\n',
    ensures
        line_split(join_lines(ls)) == ls,
    decreases ls.len(),
{
    if ls.len() == 1 {
        lemma_first_nl(ls[0]);
        if first_nl(ls[0]) < ls[0].len() {
            assert(ls[0][first_nl(ls[0]) as int] != '\n');
        }
        assert(seq![ls[0]] =~= ls);
    } else {
        lemma_join_front(ls);
        assert forall|k: int, j: int|
            0 <= k < ls.drop_first().len() && 0 <= j < ls.drop_first()[k].len() implies #[trigger] ls.drop_first()[k][j]
            != '\n' by {
            assert(ls.drop_first()[k] == ls[k + 1]);
        }
        lemma_split_of_joined(ls.drop_first());
        lemma_split_around_nl(ls[0], join_lines(ls.drop_first()));
        assert(seq![ls[0]] + ls.drop_first() =~= ls);
    }
}

/// Character-for-character string equality.
pub fn str_eq(a: &str, b: &str) -> (r: bool)
    ensures
        r == (a@ == b@),
{
    let n = a.unicode_len();
    if n != b.unicode_len() {
        return false;
    }
    let mut i: usize = 0;
    while i < n
        invariant
            i <= n,
            n == a@.len(),
            b@.len() == n,
            forall|j: int| 0 <= j < i ==> a@[j] == b@[j],
        decreases n - i,
    {
        if a.get_char(i) != b.get_char(i) {
            return false;
        }
        i += 1;
    }
    proof {
        assert(a@ =~= b@);
    }
    true
}

/// Whether `p` is a prefix of `s`, by characters.
pub fn str_starts_with(s: &str, p: &str) -> (r: bool)
    ensures
        r == spec_starts_with(s@, p@),
{
    let np = p.unicode_len();
    let ns = s.unicode_len();
    if np > ns {
        return false;
    }
    let mut i: usize = 0;
    while i < np
        invariant
            i <= np,
            np == p@.len(),
            ns == s@.len(),
            np <= ns,
            forall|j: int| 0 <= j < i ==> s@[j] == p@[j],
        decreases np - i,
    {
        if s.get_char(i) != p.get_char(i) {
            proof {
                assert(s@.take(np as int)[i as int] != p@[i as int]);
            }
            return false;
        }
        i += 1;
    }
    proof {
        assert(s@.take(np as int) =~= p@);
    }
    true
}

/// The character index of the first newline of `s`, or its length if none.
pub fn find_first_nl(s: &str) -> (i: usize)
    ensures
        i as nat == first_nl(s@),
{
    let n = s.unicode_len();
    let mut i: usize = 0;
    while i < n
        invariant
            i <= n,
            n == s@.len(),
            forall|t: int| 0 <= t < i ==> s@[t] != '\n',
        decreases n - i,
    {
        if s.get_char(i) == '\n' {
            proof {
                lemma_first_nl_skip(s@, i as int);
                assert(s@.skip(i as int)[0] == s@[i as int]);
            }
            return i;
        }
        i += 1;
    }
    proof {
        lemma_first_nl_skip(s@, n as int);
        assert(s@.skip(n as int) =~= Seq::<char>::empty());
    }
    n
}

/// The newline-separated lines of `s`, as owned strings.
pub fn split_lines(s: &str) -> (r: Vec<String>)
    ensures
        r.deep_view() == line_split(s@),
{
    let mut rest: &str = s;
    let mut out: Vec<String> = Vec::new();
    let mut done: bool = false;
    proof {
        assert(out.deep_view() =~= Seq::<Seq<char>>::empty());
    }
    while !done
        invariant
            !done ==> line_split(s@) == out.deep_view() + line_split(rest@),
            done ==> line_split(s@) == out.deep_view(),
        decreases rest@.len() + (if done { 0int } else { 1int }),
    {
        let ghost prev = out.deep_view();
        let n = rest.unicode_len();
        let i = find_first_nl(rest);
        proof {
            lemma_first_nl(rest@);
        }
        if i == n {
            out.push(rest.to_owned());
            proof {
                assert(out.deep_view() =~= prev.push(rest@));
                assert(line_split(rest@) == seq![rest@]);
                assert(prev + seq![rest@] =~= out.deep_view());
            }
            rest = rest.substring_char(n, n);
            done = true;
        } else {
            let line = rest.substring_char(0, i);
            let tail = rest.substring_char(i + 1, n);
            out.push(line.to_owned());
            proof {
                assert(line@ =~= rest@.take(i as int));
                assert(tail@ =~= rest@.skip(i as int + 1));
                assert(out.deep_view() =~= prev.push(rest@.take(i as int)));
                assert(line_split(rest@) == seq![rest@.take(i as int)] + line_split(tail@));
                assert(prev + line_split(rest@) =~= out.deep_view() + line_split(tail@));
            }
            rest = tail;
        }
    }
    out
}

/// `l` without a single trailing carriage return, if it carries one.
pub fn strip_trailing_cr(l: &str) -> (r: String)
    ensures
        r@ == strip_cr(l@),
{
    let n = l.unicode_len();
    if n > 0 && l.get_char(n - 1) == '\r' {
        let r = l.substring_char(0, n - 1);
        proof {
            assert(r@ =~= l@.drop_last());
        }
        r.to_owned()
    } else {
        l.to_owned()
    }
}

/// The lines of `s` as a text reader counts them.
pub fn read_text_lines(s: &str) -> (r: Vec<String>)
    ensures
        r.deep_view() == text_lines(s@),
{
    let segs = split_lines(s);
    let n = segs.len();
    proof {
        assert(line_split(s@).len() >= 1);
    }
    let mut out: Vec<String> = Vec::new();
    let mut j: usize = 0;
    proof {
        assert(out.deep_view() =~= Seq::<Seq<char>>::empty());
    }
    while j < n - 1
        invariant
            segs.deep_view() == line_split(s@),
            n == segs@.len(),
            n >= 1,
            j <= n - 1,
            out.deep_view().len() == j,
            forall|t: int|
                0 <= t < j ==> out.deep_view()[t] == strip_cr(line_split(s@)[t]),
        decreases n - 1 - j,
    {
        let ghost prev = out.deep_view();
        let line: &String = &segs[j];
        out.push(strip_trailing_cr(line.as_str()));
        proof {
            assert(out.deep_view() =~= prev.push(strip_cr(line_split(s@)[j as int])));
        }
        j += 1;
    }
    let last: &String = &segs[n - 1];
    if !last.as_str().is_empty() {
        let ghost prev = out.deep_view();
        out.push(last.clone());
        proof {
            assert(out.deep_view() =~= prev.push(line_split(s@).last()));
        }
    }
    proof {
        let segs_s = line_split(s@);
        let trimmed = Seq::new((segs_s.len() - 1) as nat, |t: int| strip_cr(segs_s[t]));
        if segs_s.last().len() == 0 {
            assert(out.deep_view() =~= trimmed);
        } else {
            assert(out.deep_view() =~= trimmed.push(segs_s.last()));
        }
    }
    out
}

/// `l` cut off after `n` characters.
pub fn truncate_to_chars(l: &str, n: usize) -> (r: &str)
    ensures
        r@ == truncate_chars(l@, n as int),
{
    let len = l.unicode_len();
    if len <= n {
        l
    } else {
        let r = l.substring_char(0, n);
        proof {
            assert(r@ =~= l@.take(n as int));
        }
        r
    }
}

/// The lines joined into one string with a newline between neighbours.
pub fn join_with_newlines(lines: &Vec<String>) -> (r: String)
    ensures
        r@ == join_lines(lines.deep_view()),
{
    let mut out = String::new();
    let mut i: usize = 0;
    proof {
        assert(lines.deep_view().take(0) =~= Seq::<Seq<char>>::empty());
    }
    while i < lines.len()
        invariant
            i <= lines@.len(),
            out@ == join_lines(lines.deep_view().take(i as int)),
        decreases lines@.len() - i,
    {
        let ghost dv = lines.deep_view();
        if i > 0 {
            out.append("\n");
            proof {
                reveal_strlit("\n");
                assert(("\n")@ =~= seq!['\n']);
            }
        }
        out.append(lines[i].as_str());
        proof {
            let next = dv.take(i as int + 1);
            assert(next.last() == dv[i as int]);
            if i == 0 {
                assert(next.len() == 1);
                assert(out@ == next[0]);
            } else {
                assert(next.drop_last() =~= dv.take(i as int));
                assert(out@ == join_lines(next.drop_last()) + seq!['\n'] + next.last());
            }
        }
        i += 1;
    }
    proof {
        assert(lines.deep_view().take(lines@.len() as int) =~= lines.deep_view());
    }
    out
}

} // verus!

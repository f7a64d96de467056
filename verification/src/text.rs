//! Character-level helpers: conversion between strings and character vectors,
//! line and field splitting, joining and substring search.

use vstd::prelude::*;
use vstd::std_specs::iter::IteratorSpec;

verus! {

/// What ends a scan over characters.
#[derive(Clone, Copy, PartialEq, Eq, Structural, Debug)]
pub enum Stop {
    /// The scan ends at a line feed.
    LineFeed,
    /// The scan ends at a separator.
    Space,
    /// The scan ends at anything but a separator.
    NonSpace,
}

/// The characters that separate fields: space, tab, line feed, carriage
/// return, vertical tab and form feed.
pub open spec fn is_space(c: char) -> bool {
    c == ' ' || c == '\t' || c == '\n' || c == '\r' || c == '\x0b' || c == '\x0c'
}

/// Whether a scan of the given kind ends at `c`.
pub open spec fn stops_at(stop: Stop, c: char) -> bool {
    match stop {
        Stop::LineFeed => c == '\n',
        Stop::Space => is_space(c),
        Stop::NonSpace => !is_space(c),
    }
}

/// The first index at or after `from` whose character ends the scan, or the
/// length of `s` where there is none.
pub open spec fn scan_end(s: Seq<char>, from: int, stop: Stop) -> int
    decreases s.len() - from,
{
    if from < 0 || from >= s.len() {
        s.len() as int
    } else if stops_at(stop, s[from]) {
        from
    } else {
        scan_end(s, from + 1, stop)
    }
}

/// A scan ends between its start and the end of the text, on a character
/// that ends it, and passes over none that would.
pub proof fn lemma_scan_end(s: Seq<char>, from: int, stop: Stop)
    requires
        0 <= from <= s.len(),
    ensures
        from <= scan_end(s, from, stop) <= s.len(),
        scan_end(s, from, stop) < s.len() ==> stops_at(stop, s[scan_end(s, from, stop)]),
        forall|i: int| from <= i < scan_end(s, from, stop) ==> !stops_at(stop, #[trigger] s[i]),
    decreases s.len() - from,
{
    if from < s.len() && !stops_at(stop, s[from]) {
        lemma_scan_end(s, from + 1, stop);
    }
}

/// Tells whether `c` separates fields.
pub fn is_space_char(c: char) -> (b: bool)
    ensures
        b == is_space(c),
{
    c == ' ' || c == '\t' || c == '\n' || c == '\r' || c == '\x0b' || c == '\x0c'
}

/// Scans `s` from `from` and returns where the scan ends.
pub fn scan(s: &Vec<char>, from: usize, stop: Stop) -> (end: usize)
    requires
        from <= s@.len(),
    ensures
        end == scan_end(s@, from as int, stop),
        from <= end <= s@.len(),
{
    let n: usize = s.len();
    let mut i: usize = from;
    proof {
        lemma_scan_end(s@, from as int, stop);
    }
    while i < n
        invariant
            from <= i <= n,
            n == s@.len(),
            scan_end(s@, from as int, stop) == scan_end(s@, i as int, stop),
        decreases n - i,
    {
        let c: char = s[i];
        let done: bool = match stop {
            Stop::LineFeed => c == '\n',
            Stop::Space => is_space_char(c),
            Stop::NonSpace => !is_space_char(c),
        };
        if done {
            return i;
        }
        i = i + 1;
    }
    i
}

/// The characters of `s`, in order.
pub fn to_chars(s: &str) -> (v: Vec<char>)
    ensures
        v@ == s@,
{
    broadcast use vstd::string::group_string_axioms;

    let mut v: Vec<char> = Vec::new();
    let mut it = s.chars();
    assert(it.remaining() == s@);
    loop
        invariant
            v@ + it.remaining() == s@,
            it.obeys_prophetic_iter_laws(),
        ensures
            v@ == s@,
        decreases s@.len() - v@.len(),
    {
        let ghost before = it.remaining();
        match it.next() {
            Some(c) => {
                v.push(c);
                assert(v@ + it.remaining() =~= s@);
            },
            None => {
                assert(before.len() == 0);
                assert(v@ =~= s@);
                break;
            },
        }
    }
    v
}

/// `String::push` of the standard library appends the character to the end
/// of the string and changes nothing else of it.
pub assume_specification[ String::push ](s: &mut String, c: char)
    ensures
        final(s)@ == old(s)@.push(c),
;

/// The string that holds the characters of `v`, in order.
pub fn to_text(v: &Vec<char>) -> (s: String)
    ensures
        s@ == v@,
{
    let n: usize = v.len();
    let mut s: String = String::new();
    let mut i: usize = 0;
    while i < n
        invariant
            i <= n,
            n == v@.len(),
            s@ == v@.subrange(0, i as int),
        decreases n - i,
    {
        s.push(v[i]);
        i = i + 1;
        assert(s@ =~= v@.subrange(0, i as int));
    }
    assert(v@.subrange(0, n as int) =~= v@);
    s
}

/// The part of `v` between `from` and `to`, as a vector of its own.
pub fn slice_chars(v: &Vec<char>, from: usize, to: usize) -> (out: Vec<char>)
    requires
        from <= to <= v@.len(),
    ensures
        out@ == v@.subrange(from as int, to as int),
{
    let mut out: Vec<char> = Vec::new();
    let mut i: usize = from;
    while i < to
        invariant
            from <= i <= to <= v@.len(),
            out@ == v@.subrange(from as int, i as int),
        decreases to - i,
    {
        out.push(v[i]);
        i = i + 1;
        assert(out@ =~= v@.subrange(from as int, i as int));
    }
    out
}

/// The views of the rows of a table of characters.
pub open spec fn rows(v: Seq<Vec<char>>) -> Seq<Seq<char>> {
    Seq::new(v.len(), |i: int| v[i]@)
}

/// `line` without one trailing carriage return.
pub open spec fn strip_cr(line: Seq<char>) -> Seq<char> {
    if line.len() > 0 && line.last() == '\r' {
        line.drop_last()
    } else {
        line
    }
}

/// The lines of `s` that start at or after `from`: each runs to the next
/// line feed or to the end of the text, and loses the line feed and one
/// carriage return before it. A line feed at the very end starts no line.
pub open spec fn lines_from(s: Seq<char>, from: int) -> Seq<Seq<char>>
    decreases s.len() - from,
{
    let end = scan_end(s, from, Stop::LineFeed);
    if 0 <= from < s.len() && from <= end < s.len() {
        seq![strip_cr(s.subrange(from, end))] + lines_from(s, end + 1)
    } else if 0 <= from < s.len() {
        seq![strip_cr(s.subrange(from, s.len() as int))]
    } else {
        Seq::empty()
    }
}

/// The lines of `s`.
pub open spec fn lines_of(s: Seq<char>) -> Seq<Seq<char>> {
    lines_from(s, 0)
}

/// Splits `s` into its lines.
pub fn split_lines(s: &Vec<char>) -> (out: Vec<Vec<char>>)
    ensures
        rows(out@) == lines_of(s@),
{
    let n: usize = s.len();
    let mut out: Vec<Vec<char>> = Vec::new();
    let mut pos: usize = 0;
    assert(rows(out@) + lines_from(s@, 0) =~= lines_of(s@));
    loop
        invariant_except_break
            rows(out@) + lines_from(s@, pos as int) == lines_of(s@),
        invariant
            pos <= n,
            n == s@.len(),
        ensures
            rows(out@) == lines_of(s@),
        decreases n - pos,
    {
        if pos >= n {
            proof {
                assert(lines_from(s@, pos as int) =~= Seq::<Seq<char>>::empty());
                assert(rows(out@) + Seq::<Seq<char>>::empty() =~= rows(out@));
            }
            break;
        }
        let end: usize = scan(s, pos, Stop::LineFeed);
        let stop: usize = if end > pos && s[end - 1] == '\r' {
            end - 1
        } else {
            end
        };
        let line: Vec<char> = slice_chars(s, pos, stop);
        proof {
            assert(line@ =~= strip_cr(s@.subrange(pos as int, end as int)));
            assert(rows(out@.push(line)) =~= rows(out@).push(line@));
            if end < n {
                assert(rows(out@).push(line@) + lines_from(s@, end + 1) =~= rows(out@)
                    + lines_from(s@, pos as int));
            } else {
                assert(rows(out@).push(line@) =~= rows(out@) + lines_from(s@, pos as int));
            }
        }
        out.push(line);
        if end >= n {
            break;
        }
        pos = end + 1;
    }
    out
}

/// The fields of `s` that start at or after `from`: the maximal runs of
/// characters that are no separators.
pub open spec fn fields_from(s: Seq<char>, from: int) -> Seq<Seq<char>>
    decreases s.len() - from,
{
    let start = scan_end(s, from, Stop::NonSpace);
    let end = scan_end(s, start, Stop::Space);
    if 0 <= from <= start < end <= s.len() {
        seq![s.subrange(start, end)] + fields_from(s, end)
    } else {
        Seq::empty()
    }
}

/// The fields of a line.
pub open spec fn fields_of(s: Seq<char>) -> Seq<Seq<char>> {
    fields_from(s, 0)
}

/// Splits a line into its fields.
pub fn split_fields(s: &Vec<char>) -> (out: Vec<Vec<char>>)
    ensures
        rows(out@) == fields_of(s@),
{
    let n: usize = s.len();
    let mut out: Vec<Vec<char>> = Vec::new();
    let mut pos: usize = 0;
    assert(rows(out@) + fields_from(s@, 0) =~= fields_of(s@));
    loop
        invariant
            pos <= n,
            n == s@.len(),
            rows(out@) + fields_from(s@, pos as int) == fields_of(s@),
        ensures
            rows(out@) == fields_of(s@),
        decreases n - pos,
    {
        let start: usize = scan(s, pos, Stop::NonSpace);
        if start >= n {
            proof {
                assert(fields_from(s@, pos as int) =~= Seq::<Seq<char>>::empty());
                assert(rows(out@) + Seq::<Seq<char>>::empty() =~= rows(out@));
            }
            break;
        }
        let end: usize = scan(s, start, Stop::Space);
        proof {
            lemma_scan_end(s@, start as int, Stop::NonSpace);
            lemma_scan_end(s@, pos as int, Stop::NonSpace);
            lemma_scan_end(s@, start as int, Stop::Space);
            assert(!is_space(s@[start as int]));
            assert(end > start);
        }
        let field: Vec<char> = slice_chars(s, start, end);
        proof {
            assert(rows(out@.push(field)) =~= rows(out@).push(field@));
            assert(rows(out@).push(field@) + fields_from(s@, end as int) =~= rows(out@)
                + fields_from(s@, pos as int));
        }
        out.push(field);
        pos = end;
    }
    out
}

/// The rows from `from` on, with one space between each two.
pub open spec fn join_spaced(fields: Seq<Seq<char>>, from: int) -> Seq<char>
    decreases fields.len() - from,
{
    if from < 0 || from >= fields.len() {
        Seq::empty()
    } else if from + 1 == fields.len() {
        fields[from]
    } else {
        fields[from] + seq![' '] + join_spaced(fields, from + 1)
    }
}

/// Joins the rows from `from` on with single spaces.
pub fn join_fields(fields: &Vec<Vec<char>>, from: usize) -> (out: Vec<char>)
    ensures
        out@ == join_spaced(rows(fields@), from as int),
{
    let n: usize = fields.len();
    let mut out: Vec<char> = Vec::new();
    let mut i: usize = from;
    if from >= n {
        return out;
    }
    assert(out@ + join_spaced(rows(fields@), from as int) =~= join_spaced(
        rows(fields@),
        from as int,
    ));
    while i < n
        invariant
            from <= i <= n,
            from < n,
            n == fields@.len(),
            i < n ==> out@ + join_spaced(rows(fields@), i as int) == join_spaced(
                rows(fields@),
                from as int,
            ),
            i == n ==> out@ == join_spaced(rows(fields@), from as int),
        decreases n - i,
    {
        let ghost before = out@;
        let row: &Vec<char> = &fields[i];
        let m: usize = row.len();
        let mut j: usize = 0;
        while j < m
            invariant
                j <= m,
                m == row@.len(),
                out@ == before + row@.subrange(0, j as int),
            decreases m - j,
        {
            out.push(row[j]);
            j = j + 1;
            assert(out@ =~= before + row@.subrange(0, j as int));
        }
        assert(row@.subrange(0, m as int) =~= row@);
        assert(rows(fields@)[i as int] == row@);
        if i + 1 < n {
            out.push(' ');
            assert(out@ + join_spaced(rows(fields@), i + 1) =~= before + join_spaced(
                rows(fields@),
                i as int,
            ));
        } else {
            assert(out@ =~= before + join_spaced(rows(fields@), i as int));
        }
        i = i + 1;
    }
    out
}

/// Whether `pattern` stands in `line` at index `at`.
pub open spec fn occurs_at(line: Seq<char>, pattern: Seq<char>, at: int) -> bool {
    0 <= at && at + pattern.len() <= line.len() && line.subrange(at, at + pattern.len())
        == pattern
}

/// Whether `pattern` stands somewhere in `line`.
pub open spec fn occurs_in(line: Seq<char>, pattern: Seq<char>) -> bool {
    exists|at: int| occurs_at(line, pattern, at)
}

/// Tells whether `pattern` stands in `line` at index `at`.
pub fn matches_at(line: &Vec<char>, pattern: &Vec<char>, at: usize) -> (b: bool)
    requires
        at + pattern@.len() <= line@.len(),
    ensures
        b == occurs_at(line@, pattern@, at as int),
{
    let n: usize = line.len();
    let m: usize = pattern.len();
    let mut j: usize = 0;
    while j < m
        invariant
            j <= m,
            m == pattern@.len(),
            n == line@.len(),
            at + m <= n,
            line@.subrange(at as int, at + j) == pattern@.subrange(0, j as int),
        decreases m - j,
    {
        if line[at + j] != pattern[j] {
            proof {
                if occurs_at(line@, pattern@, at as int) {
                    assert(line@.subrange(at as int, at + m)[j as int] == pattern@[j as int]);
                }
            }
            return false;
        }
        j = j + 1;
        assert(line@.subrange(at as int, at + j) =~= pattern@.subrange(0, j as int));
    }
    assert(pattern@.subrange(0, m as int) =~= pattern@);
    true
}

/// Tells whether `pattern` stands somewhere in `line`. The empty pattern
/// stands in every line.
pub fn contains_text(line: &Vec<char>, pattern: &Vec<char>) -> (b: bool)
    ensures
        b == occurs_in(line@, pattern@),
{
    let n: usize = line.len();
    let m: usize = pattern.len();
    if m > n {
        return false;
    }
    let last: usize = n - m;
    let mut at: usize = 0;
    loop
        invariant
            at <= last,
            last == n - m,
            n == line@.len(),
            m == pattern@.len(),
            forall|k: int| 0 <= k < at ==> !occurs_at(line@, pattern@, k),
        decreases last - at,
    {
        if matches_at(line, pattern, at) {
            return true;
        }
        if at == last {
            return false;
        }
        at = at + 1;
    }
}

} // verus!

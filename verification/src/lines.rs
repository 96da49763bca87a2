//! Texts as lines.

use vstd::prelude::*;

use crate::order::chars_of;
#[allow(unused_imports)]
use crate::text::text_views;

verus! {

/// The position of the first line feed at or behind position `i`, or the end.
pub open spec fn line_end(s: Seq<char>, i: int) -> int
    decreases s.len() - i,
{
    if i < 0 || i >= s.len() || s[i] == '\n' {
        i
    } else {
        line_end(s, i + 1)
    }
}

/// A terminated line without the carriage return of its terminator.
pub open spec fn without_return(s: Seq<char>) -> Seq<char> {
    if s.len() > 0 && s.last() == '\r' {
        s.drop_last()
    } else {
        s
    }
}

pub proof fn lemma_line_end(s: Seq<char>, i: int)
    requires
        0 <= i <= s.len(),
    ensures
        i <= line_end(s, i) <= s.len(),
        line_end(s, i) < s.len() ==> s[line_end(s, i)] == '\n',
        forall|j: int| i <= j < line_end(s, i) ==> s[j] != '\n',
    decreases s.len() - i,
{
    if i < s.len() && s[i] != '\n' {
        lemma_line_end(s, i + 1);
    }
}

/// The lines of a text from position `i` on: split behind line feeds, without line feeds and
/// without a carriage return right before one. An empty rest is no line.
pub open spec fn lines_from(s: Seq<char>, i: int) -> Seq<Seq<char>>
    decreases s.len() - i,
{
    if i < 0 || i >= s.len() {
        Seq::empty()
    } else {
        let end = line_end(s, i);
        if i <= end < s.len() {
            seq![without_return(s.subrange(i, end))] + lines_from(s, end + 1)
        } else {
            seq![s.skip(i)]
        }
    }
}

/// The lines of a text.
pub open spec fn lines_of(s: Seq<char>) -> Seq<Seq<char>> {
    lines_from(s, 0)
}

fn copy_range(chars: &Vec<char>, from: usize, to: usize) -> (r: String)
    requires
        from <= to <= chars.len(),
    ensures
        r@ == chars@.subrange(from as int, to as int),
{
    let mut out: String = String::new();
    let mut i: usize = from;
    while i < to
        invariant
            from <= i <= to <= chars.len(),
            out@ == chars@.subrange(from as int, i as int),
        decreases to - i,
    {
        out.push(chars[i]);
        assert(chars@.subrange(from as int, i + 1) =~= chars@.subrange(from as int, i as int).push(
            chars@[i as int],
        ));
        i += 1;
    }
    out
}

/// Splits a text into lines.
pub fn lines(s: &str) -> (r: Vec<String>)
    ensures
        text_views(r@) == lines_of(s@),
{
    let chars: Vec<char> = chars_of(s);
    let mut out: Vec<String> = Vec::new();
    let mut start: usize = 0;
    assert(text_views(out@) =~= Seq::empty());
    assert(lines_of(s@) =~= text_views(out@) + lines_from(s@, 0));
    while start < chars.len()
        invariant
            start <= chars.len(),
            chars@ == s@,
            lines_of(s@) == text_views(out@) + lines_from(s@, start as int),
        decreases chars.len() - start,
    {
        let mut end: usize = start;
        while end < chars.len() && chars[end] != '\n'
            invariant
                start <= end <= chars.len(),
                chars@ == s@,
                line_end(s@, start as int) == line_end(s@, end as int),
            decreases chars.len() - end,
        {
            end += 1;
        }
        proof {
            lemma_line_end(s@, start as int);
        }
        let ghost before = out@;
        if end < chars.len() {
            let stop: usize = if end > start && chars[end - 1] == '\r' { end - 1 } else { end };
            let line: String = copy_range(&chars, start, stop);
            proof {
                let whole = s@.subrange(start as int, end as int);
                if end > start {
                    assert(whole.last() == s@[end - 1]);
                }
                assert(line@ =~= without_return(whole));
            }
            out.push(line);
            proof {
                assert(text_views(out@) =~= text_views(before).push(line@));
                assert(lines_of(s@) =~= text_views(out@) + lines_from(s@, end + 1));
            }
            start = end + 1;
        } else {
            let line: String = copy_range(&chars, start, end);
            assert(line@ =~= s@.skip(start as int));
            out.push(line);
            proof {
                assert(text_views(out@) =~= text_views(before).push(line@));
                assert(lines_of(s@) =~= text_views(out@) + lines_from(s@, end as int));
            }
            start = end;
        }
    }
    assert(lines_from(s@, start as int) =~= Seq::empty());
    assert(lines_of(s@) =~= text_views(out@));
    out
}

} // verus!

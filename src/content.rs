use vstd::prelude::*;
use crate::position::{before, Position};
use crate::text::{lines_of, push_char, split_lines};

verus! {

/// The characters of `line`, which is line `l`, that fall in `[start, end)`.
pub open spec fn line_part(line: Seq<char>, l: int, start: Position, end: Position) -> Seq<char> {
    if l < start.line || l > end.line {
        Seq::empty()
    } else {
        let lo: int = if l == start.line {
            if start.column < line.len() { start.column as int } else { line.len() as int }
        } else {
            0
        };
        let hi: int = if l == end.line {
            if end.column < line.len() { end.column as int } else { line.len() as int }
        } else {
            line.len() as int
        };
        if lo < hi {
            line.subrange(lo, hi)
        } else {
            Seq::empty()
        }
    }
}

/// The characters of `lines[0..n]` that fall in `[start, end)`, in reading order.
pub open spec fn content_upto(lines: Seq<Seq<char>>, n: int, start: Position, end: Position) -> Seq<char>
    decreases n,
{
    if n <= 0 {
        Seq::empty()
    } else {
        content_upto(lines, n - 1, start, end) + line_part(lines[n - 1], n - 1, start, end)
    }
}

/// The characters of `text` in `[start, end)`; none where `start` is not before `end`.
pub open spec fn content(text: Seq<char>, start: Position, end: Position) -> Option<Seq<char>> {
    if before(start, end) {
        let lines = lines_of(text);
        Some(content_upto(lines, lines.len() as int, start, end))
    } else {
        None
    }
}

/// The text between two positions of `text`, end excluded, line breaks left out.
pub fn get_content(text: &str, start: Position, end: Position) -> (r: Option<String>)
    ensures
        r matches Some(s) ==> content(text@, start, end) == Some(s@),
        r is None <==> content(text@, start, end) is None,
{
    if !(start.line < end.line || (start.line == end.line && start.column < end.column)) {
        return None;
    }
    let ghost ls = lines_of(text@);
    let lines = split_lines(text);
    let mut r = String::new();
    let mut li: usize = 0;
    while li < lines.len()
        invariant
            li <= lines@.len(),
            lines@.len() == ls.len(),
            ls == lines_of(text@),
            forall|i: int| 0 <= i < lines@.len() ==> (#[trigger] lines@[i])@ == ls[i],
            r@ == content_upto(ls, li as int, start, end),
            before(start, end),
        decreases lines.len() - li,
    {
        let line = &lines[li];
        let ghost prev = r@;
        if start.line <= li && li <= end.line {
            let lo: usize = if li == start.line {
                if start.column < line.len() { start.column } else { line.len() }
            } else {
                0
            };
            let hi: usize = if li == end.line {
                if end.column < line.len() { end.column } else { line.len() }
            } else {
                line.len()
            };
            let mut j: usize = lo;
            while j < hi
                invariant
                    lo <= hi <= line@.len(),
                    lo <= j <= hi,
                    r@ == prev + line@.subrange(lo as int, j as int),
                decreases hi - j,
            {
                push_char(&mut r, line[j]);
                j += 1;
                assert(r@ =~= prev + line@.subrange(lo as int, j as int));
            }
            assert(r@ =~= prev + line_part(ls[li as int], li as int, start, end));
        } else {
            assert(r@ =~= prev + line_part(ls[li as int], li as int, start, end));
        }
        li += 1;
    }
    Some(r)
}

} // verus!

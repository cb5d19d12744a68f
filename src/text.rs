use vstd::prelude::*;

verus! {

/// A line as it stands before its `\n`: a trailing `\r` belongs to the line ending.
pub open spec fn strip_cr(line: Seq<char>) -> Seq<char> {
    if line.len() > 0 && line.last() == '\r' {
        line.drop_last()
    } else {
        line
    }
}

/// Scans `s` from the left: the lines closed by a `\n` so far, and the open line.
pub open spec fn lines_acc(s: Seq<char>) -> (Seq<Seq<char>>, Seq<char>)
    decreases s.len(),
{
    if s.len() == 0 {
        (Seq::empty(), Seq::empty())
    } else {
        let (closed, open) = lines_acc(s.drop_last());
        if s.last() == '\n' {
            (closed.push(strip_cr(open)), Seq::empty())
        } else {
            (closed, open.push(s.last()))
        }
    }
}

/// The lines of `s`, split at `\n` or `\r\n`; a final line ending adds no empty line.
pub open spec fn lines_of(s: Seq<char>) -> Seq<Seq<char>> {
    let (closed, open) = lines_acc(s);
    if open.len() == 0 {
        closed
    } else {
        closed.push(open)
    }
}

/// Relies on str::chars: the characters of a string, in order.
#[verifier::external_body]
pub(crate) fn chars_of(s: &str) -> (r: Vec<char>)
    ensures
        r@ == s@,
{
    s.chars().collect()
}

/// Relies on String::push: appends one character.
#[verifier::external_body]
pub(crate) fn push_char(s: &mut String, c: char)
    ensures
        final(s)@ == old(s)@.push(c),
{
    s.push(c)
}

/// A string that holds the characters of `chars`.
pub fn string_of(chars: &[char]) -> (r: String)
    ensures
        r@ == chars@,
{
    let mut r = String::new();
    let mut i: usize = 0;
    while i < chars.len()
        invariant
            i <= chars@.len(),
            r@ == chars@.subrange(0, i as int),
        decreases chars.len() - i,
    {
        push_char(&mut r, chars[i]);
        i += 1;
        assert(r@ =~= chars@.subrange(0, i as int));
    }
    assert(r@ =~= chars@);
    r
}

fn strip_cr_exec(line: Vec<char>) -> (r: Vec<char>)
    ensures
        r@ == strip_cr(line@),
{
    let mut line = line;
    if line.len() > 0 && line[line.len() - 1] == '\r' {
        line.pop();
    }
    line
}

/// Splits `text` into its lines, as characters.
pub fn split_lines(text: &str) -> (r: Vec<Vec<char>>)
    ensures
        r@.len() == lines_of(text@).len(),
        forall|i: int| 0 <= i < r@.len() ==> (#[trigger] r@[i])@ == lines_of(text@)[i],
{
    let chars = chars_of(text);
    let mut closed: Vec<Vec<char>> = Vec::new();
    let mut open: Vec<char> = Vec::new();
    let mut i: usize = 0;
    while i < chars.len()
        invariant
            i <= chars@.len(),
            chars@ == text@,
            closed@.len() == lines_acc(chars@.subrange(0, i as int)).0.len(),
            forall|k: int| 0 <= k < closed@.len() ==>
                (#[trigger] closed@[k])@ == lines_acc(chars@.subrange(0, i as int)).0[k],
            open@ == lines_acc(chars@.subrange(0, i as int)).1,
        decreases chars.len() - i,
    {
        let c = chars[i];
        proof {
            assert(chars@.subrange(0, i + 1).drop_last() =~= chars@.subrange(0, i as int));
        }
        if c == '\n' {
            let line = strip_cr_exec(open);
            closed.push(line);
            open = Vec::new();
        } else {
            open.push(c);
        }
        i += 1;
    }
    assert(chars@.subrange(0, i as int) =~= text@);
    if open.len() > 0 {
        closed.push(open);
    }
    closed
}

} // verus!

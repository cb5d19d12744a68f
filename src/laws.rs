use vstd::prelude::*;
use crate::content::{content, content_upto, line_part};
use crate::engine::{
    char_positions, may_reject, must_accept, no_full, positions_upto, selected, single_token, threads, tokenize_post,
    Token, TokenOptionCondition, TokenOptionResult, TokenizeError,
};
use crate::position::{before, Position};
use crate::text::{lines_acc, lines_of, strip_cr};

verus! {

proof fn lemma_lines_acc_bounded(s: Seq<char>)
    ensures
        lines_acc(s).0.len() + lines_acc(s).1.len() <= s.len(),
        forall|i: int| 0 <= i < lines_acc(s).0.len() ==> #[trigger] lines_acc(s).0[i].len() <= s.len(),
    decreases s.len(),
{
    if s.len() > 0 {
        lemma_lines_acc_bounded(s.drop_last());
        let (closed, open) = lines_acc(s.drop_last());
        if s.last() == '\n' {
            assert(strip_cr(open).len() <= open.len());
            assert forall|i: int| 0 <= i < lines_acc(s).0.len() implies #[trigger] lines_acc(s).0[i].len() <= s.len() by {
                if i < closed.len() {
                    assert(lines_acc(s).0[i] == closed[i]);
                }
            }
        }
    }
}

/// Every line of a text is no longer than the text, and there are no more lines than characters.
pub proof fn lemma_lines_bounded(s: Seq<char>)
    ensures
        lines_of(s).len() <= s.len(),
        forall|i: int| 0 <= i < lines_of(s).len() ==> #[trigger] lines_of(s)[i].len() <= s.len(),
{
    lemma_lines_acc_bounded(s);
    let (closed, open) = lines_acc(s);
    if open.len() > 0 {
        assert forall|i: int| 0 <= i < lines_of(s).len() implies #[trigger] lines_of(s)[i].len() <= s.len() by {
            if i < closed.len() {
                assert(lines_of(s)[i] == closed[i]);
            }
        }
    }
}

/// The character positions of the first `n` lines lie in those lines, in strictly
/// increasing reading order.
pub proof fn lemma_positions_increasing(lines: Seq<Seq<char>>, n: int)
    requires
        0 <= n <= lines.len(),
    ensures
        forall|k: int| 0 <= k < positions_upto(lines, n).len() ==> {
            let p = #[trigger] positions_upto(lines, n)[k];
            0 <= p.0 < n && 0 <= p.1 < lines[p.0].len()
        },
        forall|k: int| 0 <= k < positions_upto(lines, n).len() - 1 ==> {
            let p = #[trigger] positions_upto(lines, n)[k];
            let q = positions_upto(lines, n)[k + 1];
            p.0 < q.0 || (p.0 == q.0 && p.1 < q.1)
        },
    decreases n,
{
    if n > 0 {
        lemma_positions_increasing(lines, n - 1);
        let a = positions_upto(lines, n - 1);
        let b = Seq::new(lines[n - 1].len(), |j: int| (n - 1, j));
        assert(positions_upto(lines, n) == a + b);
        assert forall|k: int| 0 <= k < positions_upto(lines, n).len() implies {
            let p = #[trigger] positions_upto(lines, n)[k];
            0 <= p.0 < n && 0 <= p.1 < lines[p.0].len()
        } by {
            if k < a.len() {
                assert(positions_upto(lines, n)[k] == a[k]);
            } else {
                assert(positions_upto(lines, n)[k] == b[k - a.len()]);
            }
        }
        assert forall|k: int| 0 <= k < positions_upto(lines, n).len() - 1 implies {
            let p = #[trigger] positions_upto(lines, n)[k];
            let q = positions_upto(lines, n)[k + 1];
            p.0 < q.0 || (p.0 == q.0 && p.1 < q.1)
        } by {
            if k + 1 < a.len() {
                assert(positions_upto(lines, n)[k] == a[k]);
                assert(positions_upto(lines, n)[k + 1] == a[k + 1]);
            } else if k + 1 == a.len() {
                assert(positions_upto(lines, n)[k] == a[k]);
                assert(positions_upto(lines, n)[k + 1] == b[0]);
            } else {
                assert(positions_upto(lines, n)[k] == b[k - a.len()]);
                assert(positions_upto(lines, n)[k + 1] == b[k + 1 - a.len()]);
            }
        }
    }
}

/// With one rule, whose predicate accepts every character and which makes tokens from
/// nothing, tokenizing never fails: it makes one token for each character outside the
/// line breaks, each one character long and spanning one column, in strictly increasing
/// order of their start positions.
pub proof fn lemma_catch_all_rule<K, P, FF, FM, FC, FN>(
    input: Seq<char>,
    options: Seq<(TokenOptionCondition<P>, TokenOptionResult<FF, FM, FC, FN>)>,
    file_name: Seq<char>,
    r: Result<Vec<Token<K>>, TokenizeError>,
) where
    P: Fn(char) -> bool,
    FF: Fn(char, Position, String, String) -> (Token<K>, usize),
    FM: Fn(String) -> (K, String),
    FC: Fn(char) -> K,
    FN: Fn() -> K,

    requires
        tokenize_post(input, options, file_name, r),
        input.len() <= usize::MAX,
        options.len() == 1,
        options[0].0 matches TokenOptionCondition::Fn(p) && forall|c: char, b: bool|
            call_ensures(p, (c,), b) ==> b,
        options[0].1 is Min,
    ensures
        r is Ok,
        r->Ok_0@.len() == char_positions(lines_of(input)).len(),
        forall|k: int|
            0 <= k < r->Ok_0@.len() ==> {
                let loc = (#[trigger] r->Ok_0@[k]).location;
                &&& r->Ok_0@[k].value@.len() == 1
                &&& loc.length == 1
                &&& loc.end == (Position { line: loc.start.line, column: (loc.start.column + 1) as usize })
            },
        forall|k: int|
            0 <= k < r->Ok_0@.len() - 1 ==> before(
                (#[trigger] r->Ok_0@[k]).location.start,
                r->Ok_0@[k + 1].location.start,
            ),
{
    if let Err(TokenizeError::UnmatchedCharacter { character, position }) = r {
        assert(may_reject(options[0].0, character));
    }
    assert(no_full(options));
    let lines = lines_of(input);
    let tokens = r->Ok_0@;
    let ps = char_positions(lines);
    let metas = choose|metas: Seq<Seq<char>>| threads(options, lines, file_name, tokens, metas);
    lemma_lines_bounded(input);
    lemma_positions_increasing(lines, lines.len() as int);
    assert forall|k: int| 0 <= k < tokens.len() implies {
        let loc = (#[trigger] tokens[k]).location;
        &&& tokens[k].value@.len() == 1
        &&& loc.length == 1
        &&& loc.end == (Position { line: loc.start.line, column: (loc.start.column + 1) as usize })
    } by {
        assert(single_token(options, lines, file_name, tokens[k], ps[k].0, ps[k].1, metas[k], metas[k + 1]));
        assert(ps[k].1 < lines[ps[k].0].len());
    }
    assert forall|k: int| 0 <= k < tokens.len() - 1 implies before(
        (#[trigger] tokens[k]).location.start,
        tokens[k + 1].location.start,
    ) by {
        assert(single_token(options, lines, file_name, tokens[k], ps[k].0, ps[k].1, metas[k], metas[k + 1]));
        assert(single_token(options, lines, file_name, tokens[k + 1], ps[k + 1].0, ps[k + 1].1, metas[k + 1], metas[k + 2]));
        assert(ps[k].1 < lines[ps[k].0].len());
        assert(ps[k + 1].1 < lines[ps[k + 1].0].len());
    }
}

proof fn lemma_content_upto_single(lines: Seq<Seq<char>>, n: int, l: int, c: int)
    requires
        0 <= n <= lines.len(),
        0 <= l < lines.len(),
        0 <= c < lines[l].len(),
        l < usize::MAX,
        c < usize::MAX,
    ensures
        content_upto(
            lines,
            n,
            Position { line: l as usize, column: c as usize },
            Position { line: l as usize, column: (c + 1) as usize },
        ) == (if n <= l { Seq::<char>::empty() } else { seq![lines[l][c]] }),
    decreases n,
{
    let s = Position { line: l as usize, column: c as usize };
    let e = Position { line: l as usize, column: (c + 1) as usize };
    if n > 0 {
        lemma_content_upto_single(lines, n - 1, l, c);
        if n - 1 == l {
            assert(line_part(lines[n - 1], n - 1, s, e) =~= seq![lines[l][c]]);
        } else {
            assert(line_part(lines[n - 1], n - 1, s, e) =~= Seq::<char>::empty());
        }
        assert(content_upto(lines, n, s, e) =~= content_upto(lines, n - 1, s, e) + line_part(
            lines[n - 1],
            n - 1,
            s,
            e,
        ));
    }
}

/// The text that `get_content` finds between the start and the end of a token that
/// the engine made (where no rule consumes more than its own character) is the
/// token's value.
pub proof fn lemma_content_of_token<K, P, FF, FM, FC, FN>(
    input: Seq<char>,
    options: Seq<(TokenOptionCondition<P>, TokenOptionResult<FF, FM, FC, FN>)>,
    file_name: Seq<char>,
    tokens: Vec<Token<K>>,
    k: int,
) where
    P: Fn(char) -> bool,
    FF: Fn(char, Position, String, String) -> (Token<K>, usize),
    FM: Fn(String) -> (K, String),
    FC: Fn(char) -> K,
    FN: Fn() -> K,

    requires
        tokenize_post(input, options, file_name, Ok(tokens)),
        input.len() <= usize::MAX,
        no_full(options),
        0 <= k < tokens@.len(),
    ensures
        content(input, tokens@[k].location.start, tokens@[k].location.end) == Some(
            tokens@[k].value@,
        ),
{
    let lines = lines_of(input);
    let ps = char_positions(lines);
    lemma_lines_bounded(input);
    lemma_positions_increasing(lines, lines.len() as int);
    let metas = choose|metas: Seq<Seq<char>>| threads(options, lines, file_name, tokens@, metas);
    let p = ps[k];
    assert(single_token(options, lines, file_name, tokens@[k], p.0, p.1, metas[k], metas[k + 1]));
    assert(p.1 < lines[p.0].len());
    lemma_content_upto_single(lines, lines.len() as int, p.0, p.1);
}

/// `tok` is what `f` may return, kind and metadata, when given the metadata `prev`.
pub open spec fn meta_step<K, FM: Fn(String) -> (K, String)>(f: FM, prev: Seq<char>, tok: Token<K>) -> bool {
    exists|m: String| m@ == prev && #[trigger] call_ensures(f, (m,), (tok.token_type, tok.meta))
}

/// With one rule, whose predicate accepts every character and which makes tokens from
/// the metadata, each token's kind and metadata are what the rule returned when given
/// the metadata of the token before it, or the file name for the first token.
pub proof fn lemma_meta_threading<K, P, FF, FM, FC, FN>(
    input: Seq<char>,
    options: Seq<(TokenOptionCondition<P>, TokenOptionResult<FF, FM, FC, FN>)>,
    file_name: Seq<char>,
    r: Result<Vec<Token<K>>, TokenizeError>,
) where
    P: Fn(char) -> bool,
    FF: Fn(char, Position, String, String) -> (Token<K>, usize),
    FM: Fn(String) -> (K, String),
    FC: Fn(char) -> K,
    FN: Fn() -> K,

    requires
        tokenize_post(input, options, file_name, r),
        options.len() == 1,
        options[0].0 matches TokenOptionCondition::Fn(p) && forall|c: char, b: bool|
            call_ensures(p, (c,), b) ==> b,
        options[0].1 is Meta,
    ensures
        r is Ok,
        forall|k: int|
            0 <= k < r->Ok_0@.len() ==> meta_step(
                options[0].1->Meta_0,
                if k == 0 { file_name } else { r->Ok_0@[k - 1].meta@ },
                #[trigger] r->Ok_0@[k],
            ),
{
    if let Err(TokenizeError::UnmatchedCharacter { character, position }) = r {
        assert(may_reject(options[0].0, character));
    }
    assert(no_full(options));
    let lines = lines_of(input);
    let tokens = r->Ok_0@;
    let ps = char_positions(lines);
    let metas = choose|metas: Seq<Seq<char>>| threads(options, lines, file_name, tokens, metas);
    assert forall|k: int| 0 <= k < tokens.len() implies tokens[k].meta@ == metas[k + 1] by {
        assert(single_token(options, lines, file_name, tokens[k], ps[k].0, ps[k].1, metas[k], metas[k + 1]));
    }
    assert forall|k: int| 0 <= k < tokens.len() implies meta_step(
        options[0].1->Meta_0,
        if k == 0 { file_name } else { tokens[k - 1].meta@ },
        #[trigger] tokens[k],
    ) by {
        lemma_positions_increasing(lines, lines.len() as int);
        let c = lines[ps[k].0][ps[k].1];
        assert(single_token(options, lines, file_name, tokens[k], ps[k].0, ps[k].1, metas[k], metas[k + 1]));
        let i = choose|i: int| #[trigger] selected::<K, P, FF, FM, FC, FN>(options, c, i) && match options[i].1 {
            TokenOptionResult::Min(f) => call_ensures(f, (), tokens[k].token_type) && tokens[k].meta@ == metas[k]
                && metas[k + 1] == metas[k],
            TokenOptionResult::Char(f) => call_ensures(f, (c,), tokens[k].token_type) && tokens[k].meta@
                == metas[k] && metas[k + 1] == metas[k],
            TokenOptionResult::Meta(f) => exists|m: String|
                m@ == metas[k] && #[trigger] call_ensures(f, (m,), (tokens[k].token_type, tokens[k].meta))
                    && metas[k + 1] == tokens[k].meta@,
            TokenOptionResult::Full(_) => false,
        };
        assert(i == 0);
        let f = options[0].1->Meta_0;
        let m = choose|m: String|
            m@ == metas[k] && #[trigger] call_ensures(f, (m,), (tokens[k].token_type, tokens[k].meta))
                && metas[k + 1] == tokens[k].meta@;
        if k > 0 {
            assert(tokens[k - 1].meta@ == metas[k]);
        }
        assert(m@ == (if k == 0 { file_name } else { tokens[k - 1].meta@ }));
    }
}

/// Where the first rule accepts a character whatever its predicate returns, and makes
/// tokens from nothing, the token of that character has the kind that the first rule
/// returns, whatever later rules would accept.
pub proof fn lemma_first_rule_wins<K, P, FF, FM, FC, FN>(
    input: Seq<char>,
    options: Seq<(TokenOptionCondition<P>, TokenOptionResult<FF, FM, FC, FN>)>,
    file_name: Seq<char>,
    tokens: Vec<Token<K>>,
    k: int,
) where
    P: Fn(char) -> bool,
    FF: Fn(char, Position, String, String) -> (Token<K>, usize),
    FM: Fn(String) -> (K, String),
    FC: Fn(char) -> K,
    FN: Fn() -> K,

    requires
        tokenize_post(input, options, file_name, Ok(tokens)),
        no_full(options),
        0 <= k < tokens@.len(),
        options.len() > 0,
        options[0].1 is Min,
        must_accept(
            options[0].0,
            lines_of(input)[char_positions(lines_of(input))[k].0][char_positions(
                lines_of(input),
            )[k].1],
        ),
    ensures
        call_ensures(options[0].1->Min_0, (), tokens@[k].token_type),
{
    let lines = lines_of(input);
    let ps = char_positions(lines);
    let metas = choose|metas: Seq<Seq<char>>| threads(options, lines, file_name, tokens@, metas);
    let c = lines[ps[k].0][ps[k].1];
    assert(single_token(options, lines, file_name, tokens@[k], ps[k].0, ps[k].1, metas[k], metas[k + 1]));
    let i = choose|i: int| #[trigger] selected::<K, P, FF, FM, FC, FN>(options, c, i) && match options[i].1 {
        TokenOptionResult::Min(f) => call_ensures(f, (), tokens@[k].token_type) && tokens@[k].meta@ == metas[k]
            && metas[k + 1] == metas[k],
        TokenOptionResult::Char(f) => call_ensures(f, (c,), tokens@[k].token_type) && tokens@[k].meta@
            == metas[k] && metas[k + 1] == metas[k],
        TokenOptionResult::Meta(f) => exists|m: String|
            m@ == metas[k] && #[trigger] call_ensures(f, (m,), (tokens@[k].token_type, tokens@[k].meta))
                && metas[k + 1] == tokens@[k].meta@,
        TokenOptionResult::Full(_) => false,
    };
    if i > 0 {
        assert(may_reject(options[0].0, c));
    }
}

} // verus!

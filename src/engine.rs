use vstd::prelude::*;
use crate::position::{Location, Position};
use crate::text::{lines_of, split_lines, string_of};

verus! {

/// A token: a caller-defined kind, the characters it was made of, where they stand,
/// and the metadata that was current when it was made.
#[derive(Clone, Debug)]
pub struct Token<TokenKind> {
    pub token_type: TokenKind,
    pub value: String,
    pub location: Location,
    pub meta: String,
}

/// When a rule applies: the character is one of a set, or a predicate accepts it.
pub enum TokenOptionCondition<P> {
    Chars(String),
    Fn(P),
}

/// How a rule builds its token.
/// - `Full`: from the character, its position, the whole line and the metadata; it
///   returns the token and how many characters after the current one it also consumed.
/// - `Meta`: from the metadata alone; it returns a kind and the metadata from now on.
/// - `Char`: from the character alone; it returns a kind.
/// - `Min`: from nothing; it returns a kind.
pub enum TokenOptionResult<FF, FM, FC, FN> {
    Full(FF),
    Meta(FM),
    Char(FC),
    Min(FN),
}

/// A character that no rule accepts, and where it stands.
#[derive(Clone, Copy, PartialEq, Eq, Structural, Debug)]
pub enum TokenizeError {
    UnmatchedCharacter { character: char, position: Position },
}

/// True where `valid_chars` holds `eval_char`.
pub fn is_valid_char(valid_chars: &str, eval_char: char) -> (r: bool)
    ensures
        r == valid_chars@.contains(eval_char),
{
    let chars = crate::text::chars_of(valid_chars);
    let mut i: usize = 0;
    while i < chars.len()
        invariant
            i <= chars@.len(),
            chars@ == valid_chars@,
            forall|k: int| 0 <= k < i ==> chars@[k] != eval_char,
        decreases chars.len() - i,
    {
        if chars[i] == eval_char {
            return true;
        }
        i += 1;
    }
    false
}

/// The condition may accept `c`.
pub open spec fn may_accept<P: Fn(char) -> bool>(cond: TokenOptionCondition<P>, c: char) -> bool {
    match cond {
        TokenOptionCondition::Chars(s) => s@.contains(c),
        TokenOptionCondition::Fn(p) => call_ensures(p, (c,), true),
    }
}

/// The condition may reject `c`.
pub open spec fn may_reject<P: Fn(char) -> bool>(cond: TokenOptionCondition<P>, c: char) -> bool {
    match cond {
        TokenOptionCondition::Chars(s) => !s@.contains(c),
        TokenOptionCondition::Fn(p) => call_ensures(p, (c,), false),
    }
}

/// The condition accepts `c`, whatever a predicate may return.
pub open spec fn must_accept<P: Fn(char) -> bool>(cond: TokenOptionCondition<P>, c: char) -> bool {
    match cond {
        TokenOptionCondition::Chars(s) => s@.contains(c),
        TokenOptionCondition::Fn(p) => forall|b: bool| call_ensures(p, (c,), b) ==> b,
    }
}

/// Every character of `lines` is accepted by some rule of `options`, whatever its
/// predicates return.
pub open spec fn covers<P: Fn(char) -> bool, R>(
    options: Seq<(TokenOptionCondition<P>, R)>,
    lines: Seq<Seq<char>>,
) -> bool {
    forall|l: int, j: int|
        0 <= l < lines.len() && 0 <= j < lines[l].len() ==> exists|i: int|
            0 <= i < options.len() && #[trigger] must_accept(options[i].0, #[trigger] lines[l][j])
}

/// Rule `i` is the first one to accept `c`.
pub open spec fn selected<K, P, FF, FM, FC, FN>(
    options: Seq<(TokenOptionCondition<P>, TokenOptionResult<FF, FM, FC, FN>)>,
    c: char,
    i: int,
) -> bool where
    P: Fn(char) -> bool,
    FF: Fn(char, Position, String, String) -> (Token<K>, usize),
    FM: Fn(String) -> (K, String),
    FC: Fn(char) -> K,
    FN: Fn() -> K,
 {
    &&& 0 <= i < options.len()
    &&& may_accept(options[i].0, c)
    &&& forall|j: int| 0 <= j < i ==> may_reject(#[trigger] options[j].0, c)
}

/// Every callback of every rule may be called on any argument.
pub open spec fn callable<K, P, FF, FM, FC, FN>(
    options: Seq<(TokenOptionCondition<P>, TokenOptionResult<FF, FM, FC, FN>)>,
) -> bool where
    P: Fn(char) -> bool,
    FF: Fn(char, Position, String, String) -> (Token<K>, usize),
    FM: Fn(String) -> (K, String),
    FC: Fn(char) -> K,
    FN: Fn() -> K,
 {
    forall|i: int|
        0 <= i < options.len() ==> {
            &&& (#[trigger] options[i].0 matches TokenOptionCondition::Fn(p) ==> forall|c: char|
                call_requires(p, (c,)))
            &&& (options[i].1 matches TokenOptionResult::Full(f) ==> forall|
                c: char,
                p: Position,
                l: String,
                m: String,
            | call_requires(f, (c, p, l, m)))
            &&& (options[i].1 matches TokenOptionResult::Meta(f) ==> forall|m: String|
                call_requires(f, (m,)))
            &&& (options[i].1 matches TokenOptionResult::Char(f) ==> forall|c: char|
                call_requires(f, (c,)))
            &&& (options[i].1 matches TokenOptionResult::Min(f) ==> call_requires(f, ()))
        }
}

/// No rule consumes more than its own character.
pub open spec fn no_full<P, FF, FM, FC, FN>(
    options: Seq<(TokenOptionCondition<P>, TokenOptionResult<FF, FM, FC, FN>)>,
) -> bool {
    forall|i: int| 0 <= i < options.len() ==> !(#[trigger] options[i].1 is Full)
}

/// The positions of all characters of `lines[0..n]`, in reading order.
pub open spec fn positions_upto(lines: Seq<Seq<char>>, n: int) -> Seq<(int, int)>
    decreases n,
{
    if n <= 0 {
        Seq::empty()
    } else {
        positions_upto(lines, n - 1) + Seq::new(
            lines[n - 1].len(),
            |j: int| (n - 1, j),
        )
    }
}

/// The positions of all characters of `lines`, in reading order.
pub open spec fn char_positions(lines: Seq<Seq<char>>) -> Seq<(int, int)> {
    positions_upto(lines, lines.len() as int)
}

/// `tok` is the one-character token that the rules make of the character at `(l, j)`
/// while the metadata is `meta`; the metadata is `next` after it.
pub open spec fn single_token<K, P, FF, FM, FC, FN>(
    options: Seq<(TokenOptionCondition<P>, TokenOptionResult<FF, FM, FC, FN>)>,
    lines: Seq<Seq<char>>,
    file_name: Seq<char>,
    tok: Token<K>,
    l: int,
    j: int,
    meta: Seq<char>,
    next: Seq<char>,
) -> bool where
    P: Fn(char) -> bool,
    FF: Fn(char, Position, String, String) -> (Token<K>, usize),
    FM: Fn(String) -> (K, String),
    FC: Fn(char) -> K,
    FN: Fn() -> K,
 {
    let c = lines[l][j];
    &&& tok.value@ == seq![c]
    &&& tok.location.start == (Position { line: l as usize, column: j as usize })
    &&& tok.location.end == (Position { line: l as usize, column: (j + 1) as usize })
    &&& tok.location.length == 1
    &&& tok.location.file_name@ == file_name
    &&& exists|i: int|
        #[trigger] selected::<K, P, FF, FM, FC, FN>(options, c, i) && match options[i].1 {
            TokenOptionResult::Min(f) => call_ensures(f, (), tok.token_type) && tok.meta@ == meta
                && next == meta,
            TokenOptionResult::Char(f) => call_ensures(f, (c,), tok.token_type) && tok.meta@
                == meta && next == meta,
            TokenOptionResult::Meta(f) => exists|m: String|
                m@ == meta && #[trigger] call_ensures(f, (m,), (tok.token_type, tok.meta))
                    && next == tok.meta@,
            TokenOptionResult::Full(_) => false,
        }
}

/// `tok` is a token that the rules make at the character at `(l, j)` while the metadata
/// is `meta`; the metadata is `next` after it, and the cursor moves `adv` columns on.
/// A `Full` rule is handed the character, its position, the whole line and the
/// metadata; its token is taken as it is and the cursor moves past what it consumed.
pub open spec fn made_token<K, P, FF, FM, FC, FN>(
    options: Seq<(TokenOptionCondition<P>, TokenOptionResult<FF, FM, FC, FN>)>,
    lines: Seq<Seq<char>>,
    file_name: Seq<char>,
    tok: Token<K>,
    l: int,
    j: int,
    meta: Seq<char>,
    next: Seq<char>,
    adv: int,
) -> bool where
    P: Fn(char) -> bool,
    FF: Fn(char, Position, String, String) -> (Token<K>, usize),
    FM: Fn(String) -> (K, String),
    FC: Fn(char) -> K,
    FN: Fn() -> K,
 {
    let c = lines[l][j];
    ||| single_token(options, lines, file_name, tok, l, j, meta, next) && adv == 1
    ||| exists|i: int|
        #[trigger] selected::<K, P, FF, FM, FC, FN>(options, c, i) && match options[i].1 {
            TokenOptionResult::Full(f) => next == meta && exists|line: String, m: String, n: usize|
                line@ == lines[l] && m@ == meta && adv == 1 + n && #[trigger] call_ensures(
                    f,
                    (c, Position { line: l as usize, column: j as usize }, line, m),
                    (tok, n),
                ),
            _ => false,
        }
}

/// Lines `lo` (included) to `hi` (excluded) are empty.
pub open spec fn empty_between(lines: Seq<Seq<char>>, lo: int, hi: int) -> bool {
    forall|l: int| lo <= l < hi ==> #[trigger] lines[l].len() == 0
}

/// `at[k]` is where token `k` was made, in reading order, `metas[k]` the metadata
/// before it, starting from `file_name`, and `adv[k]` how many columns the cursor moved
/// on after it. The scan starts at the first character; after each token it goes on at
/// the cursor, or at the first character of the next line that has one, once the
/// cursor has left its line; it ends when no line is left.
pub open spec fn trace<K, P, FF, FM, FC, FN>(
    options: Seq<(TokenOptionCondition<P>, TokenOptionResult<FF, FM, FC, FN>)>,
    lines: Seq<Seq<char>>,
    file_name: Seq<char>,
    tokens: Seq<Token<K>>,
    at: Seq<(int, int)>,
    metas: Seq<Seq<char>>,
    adv: Seq<int>,
) -> bool where
    P: Fn(char) -> bool,
    FF: Fn(char, Position, String, String) -> (Token<K>, usize),
    FM: Fn(String) -> (K, String),
    FC: Fn(char) -> K,
    FN: Fn() -> K,
 {
    &&& at.len() == tokens.len()
    &&& adv.len() == tokens.len()
    &&& metas.len() == tokens.len() + 1
    &&& metas[0] == file_name
    &&& forall|k: int|
        0 <= k < at.len() ==> 0 <= (#[trigger] at[k]).0 < lines.len() && 0 <= at[k].1 < lines[at[k].0].len()
    &&& forall|k: int|
        0 <= k < at.len() - 1 ==> {
            let p = #[trigger] at[k];
            let q = at[k + 1];
            &&& p.0 <= q.0
            &&& p.0 == q.0 ==> q.1 == p.1 + adv[k]
            &&& p.0 < q.0 ==> p.1 + adv[k] >= lines[p.0].len() && q.1 == 0 && empty_between(
                lines,
                p.0 + 1,
                q.0,
            )
        }
    &&& at.len() == 0 ==> empty_between(lines, 0, lines.len() as int)
    &&& at.len() > 0 ==> at[0].1 == 0 && empty_between(lines, 0, at[0].0)
    &&& at.len() > 0 ==> at.last().1 + adv.last() >= lines[at.last().0].len() && empty_between(
        lines,
        at.last().0 + 1,
        lines.len() as int,
    )
    &&& forall|k: int|
        0 <= k < tokens.len() ==> made_token(
            options,
            lines,
            file_name,
            #[trigger] tokens[k],
            at[k].0,
            at[k].1,
            metas[k],
            metas[k + 1],
            adv[k],
        )
}

/// Each token is the one-character token of the character at the same index of
/// `char_positions(lines)`, and `metas[k]` is the metadata before token `k`, starting
/// from `file_name`.
pub open spec fn threads<K, P, FF, FM, FC, FN>(
    options: Seq<(TokenOptionCondition<P>, TokenOptionResult<FF, FM, FC, FN>)>,
    lines: Seq<Seq<char>>,
    file_name: Seq<char>,
    tokens: Seq<Token<K>>,
    metas: Seq<Seq<char>>,
) -> bool where
    P: Fn(char) -> bool,
    FF: Fn(char, Position, String, String) -> (Token<K>, usize),
    FM: Fn(String) -> (K, String),
    FC: Fn(char) -> K,
    FN: Fn() -> K,
 {
    let ps = char_positions(lines);
    &&& tokens.len() == ps.len()
    &&& metas.len() == tokens.len() + 1
    &&& metas[0] == file_name
    &&& forall|k: int|
        0 <= k < tokens.len() ==> single_token(
            options,
            lines,
            file_name,
            #[trigger] tokens[k],
            ps[k].0,
            ps[k].1,
            metas[k],
            metas[k + 1],
        )
}

/// What `tokenize` guarantees of its result.
pub open spec fn tokenize_post<K, P, FF, FM, FC, FN>(
    input: Seq<char>,
    options: Seq<(TokenOptionCondition<P>, TokenOptionResult<FF, FM, FC, FN>)>,
    file_name: Seq<char>,
    r: Result<Vec<Token<K>>, TokenizeError>,
) -> bool where
    P: Fn(char) -> bool,
    FF: Fn(char, Position, String, String) -> (Token<K>, usize),
    FM: Fn(String) -> (K, String),
    FC: Fn(char) -> K,
    FN: Fn() -> K,
 {
    let lines = lines_of(input);
    &&& (r matches Err(TokenizeError::UnmatchedCharacter { character, position }) ==> {
        &&& position.line < lines.len()
        &&& position.column < lines[position.line as int].len()
        &&& lines[position.line as int][position.column as int] == character
        &&& forall|i: int| 0 <= i < options.len() ==> may_reject(#[trigger] options[i].0, character)
    })
    &&& (covers(options, lines) ==> r is Ok)
    &&& (options.len() == 0 ==> {
        &&& (r is Err <==> exists|l: int| 0 <= l < lines.len() && #[trigger] lines[l].len() > 0)
        &&& (r matches Err(TokenizeError::UnmatchedCharacter { position, .. }) ==> {
            &&& position.column == 0
            &&& forall|l: int| 0 <= l < position.line ==> #[trigger] lines[l].len() == 0
        })
    })
    &&& (r is Ok ==> exists|at: Seq<(int, int)>, metas: Seq<Seq<char>>, adv: Seq<int>|
        trace(options, lines, file_name, r->Ok_0@, at, metas, adv))
    &&& (no_full(options) && r is Ok) ==> exists|metas: Seq<Seq<char>>|
        threads(options, lines, file_name, r->Ok_0@, metas)
}

/// The index of the first rule whose condition accepts `c`, if any.
pub fn select_rule<K, P, FF, FM, FC, FN>(
    options: &Vec<(TokenOptionCondition<P>, TokenOptionResult<FF, FM, FC, FN>)>,
    c: char,
) -> (r: Option<usize>) where
    P: Fn(char) -> bool,
    FF: Fn(char, Position, String, String) -> (Token<K>, usize),
    FM: Fn(String) -> (K, String),
    FC: Fn(char) -> K,
    FN: Fn() -> K,

    requires
        callable::<K, P, FF, FM, FC, FN>(options@),
    ensures
        r matches Some(i) ==> selected::<K, P, FF, FM, FC, FN>(options@, c, i as int),
        r is None ==> forall|i: int|
            0 <= i < options@.len() ==> may_reject(#[trigger] options@[i].0, c),
{
    let mut i: usize = 0;
    while i < options.len()
        invariant
            i <= options@.len(),
            callable::<K, P, FF, FM, FC, FN>(options@),
            forall|j: int| 0 <= j < i ==> may_reject(#[trigger] options@[j].0, c),
        decreases options.len() - i,
    {
        let accepted = match &options[i].0 {
            TokenOptionCondition::Chars(s) => is_valid_char(s.as_str(), c),
            TokenOptionCondition::Fn(p) => {
                assert(options@[i as int].0 matches TokenOptionCondition::Fn(p));
                p(c)
            },
        };
        if accepted {
            return Some(i);
        }
        i += 1;
    }
    None
}

/// The token of kind `token_type` made of the single character `c` at `(line, column)`.
pub fn char_token<K>(
    token_type: K,
    c: char,
    line: usize,
    column: usize,
    file_name: &String,
    meta: String,
) -> (r: Token<K>)
    requires
        column < usize::MAX,
    ensures
        r.token_type == token_type,
        r.value@ == seq![c],
        r.location.start == (Position { line, column }),
        r.location.end == (Position { line, column: (column + 1) as usize }),
        r.location.length == 1,
        r.location.file_name@ == file_name@,
        r.meta == meta,
{
    let mut value = String::new();
    crate::text::push_char(&mut value, c);
    assert(value@ =~= seq![c]);
    Token {
        token_type,
        value,
        location: Location::single_char(line, column, file_name.clone()),
        meta,
    }
}

/// Splits `input` into tokens by the rules in `options`, tried in order for each
/// character; the first that accepts it makes the token. `file_name` is stamped into
/// every location and is the metadata before any `Meta` rule replaces it.
pub fn tokenize<K, P, FF, FM, FC, FN>(
    input: String,
    options: Vec<(TokenOptionCondition<P>, TokenOptionResult<FF, FM, FC, FN>)>,
    file_name: String,
) -> (r: Result<Vec<Token<K>>, TokenizeError>) where
    P: Fn(char) -> bool,
    FF: Fn(char, Position, String, String) -> (Token<K>, usize),
    FM: Fn(String) -> (K, String),
    FC: Fn(char) -> K,
    FN: Fn() -> K,

    requires
        callable::<K, P, FF, FM, FC, FN>(options@),
    ensures
        tokenize_post::<K, P, FF, FM, FC, FN>(input@, options@, file_name@, r),
{
    let ghost lines_spec = lines_of(input@);
    let ghost nf = no_full(options@);
    let lines = split_lines(input.as_str());
    let mut tokens: Vec<Token<K>> = Vec::new();
    let mut meta = file_name.clone();
    let ghost mut metas: Seq<Seq<char>> = seq![file_name@];
    let ghost mut at: Seq<(int, int)> = Seq::empty();
    let ghost mut adv: Seq<int> = Seq::empty();
    let mut li: usize = 0;
    while li < lines.len()
        invariant
            li <= lines@.len(),
            lines@.len() == lines_spec.len(),
            forall|i: int| 0 <= i < lines@.len() ==> (#[trigger] lines@[i])@ == lines_spec[i],
            lines_spec == lines_of(input@),
            nf == no_full(options@),
            callable::<K, P, FF, FM, FC, FN>(options@),
            options@.len() == 0 ==> tokens@.len() == 0,
            options@.len() == 0 ==> forall|l: int| 0 <= l < li ==> #[trigger] lines_spec[l].len() == 0,
            metas.len() == tokens@.len() + 1,
            metas[0] == file_name@,
            metas[tokens@.len() as int] == meta@,
            at.len() == tokens@.len(),
            forall|k: int| 0 <= k < at.len() ==> (#[trigger] at[k]).0 < li,
            forall|k: int|
                0 <= k < at.len() ==> 0 <= (#[trigger] at[k]).0 < lines_spec.len() && 0 <= at[k].1
                    < lines_spec[at[k].0].len(),
            adv.len() == tokens@.len(),
            forall|k: int|
                0 <= k < at.len() - 1 ==> {
                    let p = #[trigger] at[k];
                    let q = at[k + 1];
                    &&& p.0 <= q.0
                    &&& p.0 == q.0 ==> q.1 == p.1 + adv[k]
                    &&& p.0 < q.0 ==> p.1 + adv[k] >= lines_spec[p.0].len() && q.1 == 0
                        && empty_between(lines_spec, p.0 + 1, q.0)
                },
            at.len() == 0 ==> empty_between(lines_spec, 0, li as int),
            at.len() > 0 ==> at[0].1 == 0 && empty_between(lines_spec, 0, at[0].0),
            at.len() > 0 ==> at.last().1 + adv.last() >= lines_spec[at.last().0].len()
                && empty_between(lines_spec, at.last().0 + 1, li as int),
            forall|k: int|
                0 <= k < tokens@.len() ==> made_token(
                    options@,
                    lines_spec,
                    file_name@,
                    #[trigger] tokens@[k],
                    at[k].0,
                    at[k].1,
                    metas[k],
                    metas[k + 1],
                    adv[k],
                ),
            nf ==> tokens@.len() == positions_upto(lines_spec, li as int).len(),
            nf ==> forall|k: int|
                0 <= k < tokens@.len() ==> single_token(
                    options@,
                    lines_spec,
                    file_name@,
                    #[trigger] tokens@[k],
                    positions_upto(lines_spec, li as int)[k].0,
                    positions_upto(lines_spec, li as int)[k].1,
                    metas[k],
                    metas[k + 1],
                ),
        decreases lines.len() - li,
    {
        let line = &lines[li];
        let line_text = string_of(line.as_slice());
        let ghost base = tokens@.len();
        let ghost before = positions_upto(lines_spec, li as int);
        let mut column: usize = 0;
        while column < line.len()
            invariant
                li < lines@.len(),
                lines@.len() == lines_spec.len(),
                line@ == lines_spec[li as int],
                line_text@ == lines_spec[li as int],
                lines_spec == lines_of(input@),
                nf == no_full(options@),
                callable::<K, P, FF, FM, FC, FN>(options@),
                before == positions_upto(lines_spec, li as int),
                options@.len() == 0 ==> tokens@.len() == 0 && column == 0,
                options@.len() == 0 ==> forall|l: int| 0 <= l < li ==> #[trigger] lines_spec[l].len() == 0,
                nf ==> column <= line@.len(),
                nf ==> tokens@.len() == base + column,
                nf ==> base == before.len(),
                metas.len() == tokens@.len() + 1,
                metas[0] == file_name@,
                metas[tokens@.len() as int] == meta@,
                at.len() == tokens@.len(),
                forall|k: int| 0 <= k < at.len() ==> (#[trigger] at[k]).0 < li || (at[k].0 == li && at[k].1 < column),
                forall|k: int|
                    0 <= k < at.len() ==> 0 <= (#[trigger] at[k]).0 < lines_spec.len() && 0 <= at[k].1
                        < lines_spec[at[k].0].len(),
                adv.len() == tokens@.len(),
                forall|k: int|
                    0 <= k < at.len() - 1 ==> {
                        let p = #[trigger] at[k];
                        let q = at[k + 1];
                        &&& p.0 <= q.0
                        &&& p.0 == q.0 ==> q.1 == p.1 + adv[k]
                        &&& p.0 < q.0 ==> p.1 + adv[k] >= lines_spec[p.0].len() && q.1 == 0
                            && empty_between(lines_spec, p.0 + 1, q.0)
                    },
                at.len() == 0 ==> column == 0 && empty_between(lines_spec, 0, li as int),
                at.len() > 0 ==> at[0].1 == 0 && empty_between(lines_spec, 0, at[0].0),
                at.len() > 0 && at.last().0 < li ==> column == 0 && at.last().1 + adv.last()
                    >= lines_spec[at.last().0].len() && empty_between(lines_spec, at.last().0 + 1, li as int),
                at.len() > 0 && at.last().0 == li ==> column == at.last().1 + adv.last() || (column
                    == line@.len() && at.last().1 + adv.last() >= line@.len()),
                forall|k: int|
                    0 <= k < tokens@.len() ==> made_token(
                        options@,
                        lines_spec,
                        file_name@,
                        #[trigger] tokens@[k],
                        at[k].0,
                        at[k].1,
                        metas[k],
                        metas[k + 1],
                        adv[k],
                    ),
                nf ==> forall|k: int|
                    0 <= k < base ==> single_token(
                        options@,
                        lines_spec,
                        file_name@,
                        #[trigger] tokens@[k],
                        before[k].0,
                        before[k].1,
                        metas[k],
                        metas[k + 1],
                    ),
                nf ==> forall|j: int|
                    0 <= j < column ==> single_token(
                        options@,
                        lines_spec,
                        file_name@,
                        #[trigger] tokens@[base + j],
                        li as int,
                        j,
                        metas[base + j],
                        metas[base + j + 1],
                    ),
            decreases line.len() - column,
        {
            let c = line[column];
            let chosen = select_rule(&options, c);
            match chosen {
                None => {
                    assert(lines_spec[li as int].len() > 0);
                    assert(c == lines_spec[li as int][column as int]);
                    proof {
                        if covers(options@, lines_spec) {
                            let i = choose|i: int|
                                0 <= i < options@.len() && #[trigger] must_accept(options@[i].0, lines_spec[li as int][column as int]);
                            assert(may_reject(options@[i].0, c));
                        }
                    }
                    return Err(
                        TokenizeError::UnmatchedCharacter {
                            character: c,
                            position: Position { line: li, column },
                        },
                    );
                },
                Some(i) => {
                    let position = Position { line: li, column };
                    let ghost old_tokens = tokens@;
                    let ghost old_metas = metas;
                    let ghost meta_before = meta@;
                    assert(c == lines_spec[li as int][column as int]);
                    assert(selected::<K, P, FF, FM, FC, FN>(options@, c, i as int));
                    let consumed: usize = match &options[i].1 {
                        TokenOptionResult::Full(f) => {
                            assert(options@[i as int].1 matches TokenOptionResult::Full(f));
                            let lt = line_text.clone();
                            let mc = meta.clone();
                            let ghost lt_g = lt;
                            let ghost mc_g = mc;
                            let (t, n) = f(c, position, lt, mc);
                            assert(call_ensures(*f, (c, position, lt_g, mc_g), (t, n)));
                            tokens.push(t);
                            assert(made_token(options@, lines_spec, file_name@, tokens@.last(), li as int,
                                column as int, meta_before, meta@, 1 + n));
                            n
                        },
                        TokenOptionResult::Meta(f) => {
                            assert(options@[i as int].1 matches TokenOptionResult::Meta(f));
                            let m = meta.clone();
                            let (token_type, new_meta) = f(m);
                            meta = new_meta.clone();
                            tokens.push(char_token(token_type, c, li, column, &file_name, new_meta));
                            assert(single_token(options@, lines_spec, file_name@, tokens@.last(), li as int,
                                column as int, meta_before, meta@));
                            0
                        },
                        TokenOptionResult::Char(f) => {
                            assert(options@[i as int].1 matches TokenOptionResult::Char(f));
                            let token_type = f(c);
                            tokens.push(char_token(token_type, c, li, column, &file_name, meta.clone()));
                            assert(single_token(options@, lines_spec, file_name@, tokens@.last(), li as int,
                                column as int, meta_before, meta@));
                            0
                        },
                        TokenOptionResult::Min(f) => {
                            assert(options@[i as int].1 matches TokenOptionResult::Min(f));
                            let token_type = f();
                            tokens.push(char_token(token_type, c, li, column, &file_name, meta.clone()));
                            assert(single_token(options@, lines_spec, file_name@, tokens@.last(), li as int,
                                column as int, meta_before, meta@));
                            0
                        },
                    };
                    proof {
                        let ghost old_at = at;
                        let ghost old_adv = adv;
                        metas = metas.push(meta@);
                        at = at.push((li as int, column as int));
                        adv = adv.push(1 + consumed as int);
                        assert(made_token(options@, lines_spec, file_name@, tokens@[at.len() - 1], li as int,
                            column as int, metas[at.len() - 1], metas[at.len() as int], adv[at.len() - 1]));
                        assert forall|k: int| 0 <= k < tokens@.len() implies made_token(
                            options@, lines_spec, file_name@, #[trigger] tokens@[k], at[k].0, at[k].1,
                            metas[k], metas[k + 1], adv[k]) by {
                            if k < old_tokens.len() {
                                assert(tokens@[k] == old_tokens[k]);
                                assert(at[k] == old_at[k]);
                                assert(adv[k] == old_adv[k]);
                                assert(metas[k] == old_metas[k]);
                                assert(metas[k + 1] == old_metas[k + 1]);
                            }
                        }
                        assert forall|k: int| 0 <= k < at.len() - 1 implies {
                            let p = #[trigger] at[k];
                            let q = at[k + 1];
                            &&& p.0 <= q.0
                            &&& p.0 == q.0 ==> q.1 == p.1 + adv[k]
                            &&& p.0 < q.0 ==> p.1 + adv[k] >= lines_spec[p.0].len() && q.1 == 0
                                && empty_between(lines_spec, p.0 + 1, q.0)
                        } by {
                            assert(at[k] == old_at[k]);
                            assert(adv[k] == old_adv[k]);
                            if k + 1 < old_at.len() {
                                assert(at[k + 1] == old_at[k + 1]);
                            }
                        }
                        if nf {
                            assert(!(options@[i as int].1 is Full));
                            assert(c == lines_spec[li as int][column as int]);
                            assert(selected::<K, P, FF, FM, FC, FN>(options@, c, i as int));
                            assert(single_token(options@, lines_spec, file_name@, tokens@[base + column], li as int, column as int,
                                metas[base + column], metas[base + column + 1]));
                            assert forall|j: int| 0 <= j < column + 1 implies single_token(
                                options@, lines_spec, file_name@, #[trigger] tokens@[base + j], li as int, j,
                                metas[base + j], metas[base + j + 1]) by {
                                if j < column {
                                    assert(tokens@[base + j] == old_tokens[base + j]);
                                    assert(metas[base + j] == old_metas[base + j]);
                                    assert(metas[base + j + 1] == old_metas[base + j + 1]);
                                }
                            }
                            assert forall|k: int| 0 <= k < base implies single_token(
                                options@, lines_spec, file_name@, #[trigger] tokens@[k], before[k].0, before[k].1,
                                metas[k], metas[k + 1]) by {
                                assert(tokens@[k] == old_tokens[k]);
                                assert(metas[k] == old_metas[k]);
                                assert(metas[k + 1] == old_metas[k + 1]);
                            }
                        }
                    }
                    let next = column + 1;
                    if consumed <= line.len() - next {
                        column = next + consumed;
                    } else {
                        column = line.len();
                    }
                },
            }
        }
        proof {
            if nf {
                let after = positions_upto(lines_spec, li + 1);
                assert(after == before + Seq::new(lines_spec[li as int].len(), |j: int| (li as int, j)));
                assert forall|k: int| 0 <= k < tokens@.len() implies single_token(
                    options@, lines_spec, file_name@, #[trigger] tokens@[k], after[k].0, after[k].1,
                    metas[k], metas[k + 1]) by {
                    if k >= base {
                        assert(tokens@[base + (k - base)] == tokens@[k]);
                    }
                }
            }
        }
        li += 1;
    }
    proof {
        assert(li == lines_spec.len());
        if nf {
            assert(positions_upto(lines_spec, li as int) == char_positions(lines_spec));
            assert(threads(options@, lines_spec, file_name@, tokens@, metas));
        }
    }
    let ghost all_metas = metas;
    let ghost all_at = at;
    let ghost all_adv = adv;
    let result: Result<Vec<Token<K>>, TokenizeError> = Ok(tokens);
    proof {
        assert(trace(options@, lines_of(input@), file_name@, result->Ok_0@, all_at, all_metas, all_adv));
        if nf {
            assert(threads(options@, lines_of(input@), file_name@, result->Ok_0@, all_metas));
        }
    }
    result
}

} // verus!

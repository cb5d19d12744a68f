use tokenizer::{
    get_content, tokenize, Location, Position, Token, TokenOptionCondition, TokenOptionResult,
    TokenizeError,
};

#[derive(Clone, Copy, Debug, PartialEq)]
enum Kind {
    Digit,
    Any,
    Word,
    Str,
}

type Pred = fn(char) -> bool;
type Full = fn(char, Position, String, String) -> (Token<Kind>, usize);
type Meta = fn(String) -> (Kind, String);
type ByChar = fn(char) -> Kind;
type Min = fn() -> Kind;
type Rule = (TokenOptionCondition<Pred>, TokenOptionResult<Full, Meta, ByChar, Min>);

fn any_char(_: char) -> bool {
    true
}

fn is_digit(c: char) -> bool {
    c.is_ascii_digit()
}

fn any_kind() -> Kind {
    Kind::Any
}

fn digit_kind() -> Kind {
    Kind::Digit
}

fn catch_all() -> Rule {
    (TokenOptionCondition::Fn(any_char as Pred), TokenOptionResult::Min(any_kind as Min))
}

fn digit_rule() -> Rule {
    (TokenOptionCondition::Fn(is_digit as Pred), TokenOptionResult::Min(digit_kind as Min))
}

fn count_up(meta: String) -> (Kind, String) {
    let n: u32 = meta.parse().unwrap();
    (Kind::Word, (n + 1).to_string())
}

fn classify(c: char) -> Kind {
    if c.is_ascii_digit() {
        Kind::Digit
    } else {
        Kind::Word
    }
}

fn quoted(c: char, start: Position, line: String, meta: String) -> (Token<Kind>, usize) {
    let chars: Vec<char> = line.chars().collect();
    let mut end = start.column + 1;
    while end < chars.len() && chars[end] != '"' {
        end += 1;
    }
    let value: String = chars[start.column..=end].iter().collect();
    let length = end + 1 - start.column;
    assert_eq!(c, '"');
    let token = Token {
        token_type: Kind::Str,
        value,
        location: Location {
            start,
            end: Position { line: start.line, column: end + 1 },
            length,
            file_name: String::from("quoted"),
        },
        meta,
    };
    (token, length - 1)
}

fn run(input: &str, rules: Vec<Rule>, file_name: &str) -> Result<Vec<Token<Kind>>, TokenizeError> {
    tokenize(input.to_string(), rules, file_name.to_string())
}

#[test]
fn empty_rules_fail_on_first_character() {
    let r = run("abc", Vec::new(), "f");
    assert_eq!(
        r.unwrap_err(),
        TokenizeError::UnmatchedCharacter { character: 'a', position: Position { line: 0, column: 0 } }
    );
}

#[test]
fn empty_rules_skip_empty_lines_before_failing() {
    let r = run("\n\nxy", Vec::new(), "f");
    assert_eq!(
        r.unwrap_err(),
        TokenizeError::UnmatchedCharacter { character: 'x', position: Position { line: 2, column: 0 } }
    );
}

#[test]
fn empty_rules_on_empty_text_succeed() {
    assert_eq!(run("", Vec::new(), "f").unwrap().len(), 0);
    assert_eq!(run("\n\n", Vec::new(), "f").unwrap().len(), 0);
}

#[test]
fn catch_all_makes_one_token_per_character() {
    let tokens = run("ab\ncd e\n\nfg", vec![catch_all()], "src").unwrap();
    assert_eq!(tokens.len(), 8);
    for t in &tokens {
        assert_eq!(t.value.chars().count(), 1);
        assert_eq!(t.location.length, 1);
        assert_eq!(t.location.end.line, t.location.start.line);
        assert_eq!(t.location.end.column, t.location.start.column + 1);
        assert_eq!(t.location.file_name, "src");
        assert_eq!(t.token_type, Kind::Any);
    }
    for w in tokens.windows(2) {
        assert!(w[0].location.start < w[1].location.start);
    }
}

#[test]
fn first_listed_rule_wins() {
    let digit_first = run("7", vec![digit_rule(), catch_all()], "f").unwrap();
    assert_eq!(digit_first[0].token_type, Kind::Digit);
    let any_first = run("7", vec![catch_all(), digit_rule()], "f").unwrap();
    assert_eq!(any_first[0].token_type, Kind::Any);
    let letter = run("x", vec![digit_rule(), catch_all()], "f").unwrap();
    assert_eq!(letter[0].token_type, Kind::Any);
}

#[test]
fn meta_rule_threads_metadata() {
    let rule: Rule = (TokenOptionCondition::Fn(any_char as Pred), TokenOptionResult::Meta(count_up as Meta));
    let tokens = run("aaa", vec![rule], "0").unwrap();
    let metas: Vec<&str> = tokens.iter().map(|t| t.meta.as_str()).collect();
    assert_eq!(metas, vec!["1", "2", "3"]);
    assert!(tokens.iter().all(|t| t.token_type == Kind::Word && t.value == "a"));
}

#[test]
fn char_and_min_rules_keep_metadata() {
    let by_char: Rule = (TokenOptionCondition::Chars(String::from("0123456789ab")), TokenOptionResult::Char(classify as ByChar));
    let tokens = run("a1b", vec![by_char], "file.txt").unwrap();
    let kinds: Vec<Kind> = tokens.iter().map(|t| t.token_type).collect();
    assert_eq!(kinds, vec![Kind::Word, Kind::Digit, Kind::Word]);
    assert!(tokens.iter().all(|t| t.meta == "file.txt"));
}

#[test]
fn full_rule_consumes_quoted_run() {
    let quote: Rule = (TokenOptionCondition::Chars(String::from("\"")), TokenOptionResult::Full(quoted as Full));
    let tokens = run("\"ab\"", vec![quote, catch_all()], "f").unwrap();
    assert_eq!(tokens.len(), 1);
    assert_eq!(tokens[0].value, "\"ab\"");
    assert_eq!(tokens[0].token_type, Kind::Str);

    let quote: Rule = (TokenOptionCondition::Chars(String::from("\"")), TokenOptionResult::Full(quoted as Full));
    let tokens = run("\"ab\"x", vec![quote, catch_all()], "f").unwrap();
    assert_eq!(tokens.len(), 2);
    assert_eq!(tokens[1].value, "x");
    assert_eq!(tokens[1].location.start, Position { line: 0, column: 4 });
}

#[test]
fn unmatched_character_is_reported_with_its_position() {
    let digits: Rule = (TokenOptionCondition::Chars(String::from("0123456789")), TokenOptionResult::Min(digit_kind as Min));
    let r = run("12\n3x4", vec![digits], "f");
    assert_eq!(
        r.unwrap_err(),
        TokenizeError::UnmatchedCharacter { character: 'x', position: Position { line: 1, column: 1 } }
    );
}

#[test]
fn two_lines_give_line_and_column_numbers() {
    let tokens = run("ab\ncd", vec![catch_all()], "f").unwrap();
    let lines: Vec<usize> = tokens.iter().map(|t| t.location.start.line).collect();
    let columns: Vec<usize> = tokens.iter().map(|t| t.location.start.column).collect();
    assert_eq!(lines, vec![0, 0, 1, 1]);
    assert_eq!(columns, vec![0, 1, 0, 1]);
}

#[test]
fn carriage_return_belongs_to_line_ending() {
    let tokens = run("a\r\nb\n", vec![catch_all()], "f").unwrap();
    let values: Vec<&str> = tokens.iter().map(|t| t.value.as_str()).collect();
    assert_eq!(values, vec!["a", "b"]);
    assert_eq!(tokens[1].location.start, Position { line: 1, column: 0 });
}

#[test]
fn multibyte_characters_count_as_one_column() {
    let tokens = run("é€x", vec![catch_all()], "f").unwrap();
    assert_eq!(tokens.len(), 3);
    assert_eq!(tokens[1].value, "€");
    assert_eq!(tokens[2].location.start, Position { line: 0, column: 2 });
}

#[test]
fn content_of_each_token_is_its_value() {
    let input = "ab\ncd\n\nxé";
    let tokens = run(input, vec![catch_all()], "f").unwrap();
    for t in &tokens {
        assert_eq!(get_content(input, t.location.start, t.location.end), Some(t.value.clone()));
    }
}

#[test]
fn content_spans_lines() {
    let text = "ab\ncd";
    let r = get_content(text, Position { line: 0, column: 1 }, Position { line: 1, column: 1 });
    assert_eq!(r, Some(String::from("bc")));
    let all = get_content(text, Position { line: 0, column: 0 }, Position { line: 5, column: 0 });
    assert_eq!(all, Some(String::from("abcd")));
}

#[test]
fn content_is_none_unless_start_is_before_end() {
    let p = Position { line: 0, column: 1 };
    assert_eq!(get_content("abc", p, p), None);
    assert_eq!(get_content("abc", Position { line: 1, column: 0 }, p), None);
}

#[test]
fn valid_char_membership() {
    assert!(tokenizer::is_valid_char("abc", 'b'));
    assert!(!tokenizer::is_valid_char("abc", 'd'));
    assert!(!tokenizer::is_valid_char("", 'a'));
    assert!(tokenizer::is_valid_char("x€", '€'));
}

#[test]
fn positions_order_by_line_then_column() {
    let a = Position::new(0, 5);
    let b = Position::new(1, 0);
    let c = Position::new(1, 2);
    assert!(a < b);
    assert!(b < c);
    assert_eq!(b.partial_cmp(&b), Some(std::cmp::Ordering::Equal));
    assert_eq!(c.compare(&a), std::cmp::Ordering::Greater);
}

#[test]
fn locations_order_by_start_then_end() {
    let l1 = Location::single_char(0, 3, String::from("f"));
    let mut l2 = Location::single_char(0, 3, String::from("g"));
    l2.end = Position::new(0, 6);
    let l3 = Location::single_char(1, 0, String::from("f"));
    assert!(l1 < l2);
    assert!(l2 < l3);
    assert_eq!(l1.partial_cmp(&l1.clone()), Some(std::cmp::Ordering::Equal));
    assert!(l1 != l2);
    assert!(l1 == l1.clone());
}

#[test]
fn chars_rule_rejects_other_characters() {
    let letters: Rule = (TokenOptionCondition::Chars(String::from("ab")), TokenOptionResult::Min(any_kind as Min));
    let r = run("ab\nba\nc", vec![letters], "f");
    assert_eq!(
        r.unwrap_err(),
        TokenizeError::UnmatchedCharacter { character: 'c', position: Position { line: 2, column: 0 } }
    );
}
